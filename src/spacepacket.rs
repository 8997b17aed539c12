//! The space packet: a primary header, an optional secondary header of a
//! mission-defined layout, and the payload octets.
use crate::primaryheader::{
    header_of, lemma_decode_encode, lemma_header_of_prefix, PrimaryHeader, PRIMARY_HEADER_LEN,
};
use crate::segment::{DataSegment, SegmentError};
use crate::types::{PacketType, SecondaryHeaderFlag, SeqFlag};
use vstd::prelude::*;
use vstd::slice::{slice_subrange, slice_to_vec};

verus! {

/// Why a packet could not be parsed or built.
#[derive(Debug, PartialEq, Eq, Clone)]
pub enum PacketError<E> {
    /// The buffer is shorter than the primary header.
    InsufficientData,
    /// The APID or the sequence count does not fit in its field.
    FieldOutOfRange,
    /// Fewer octets follow the primary header than the secondary header needs.
    TruncatedPacket,
    /// The secondary header's decoder rejected the octets.
    SecondaryHeaderDecodeFailed(E),
    /// The packet data field would exceed 65536 octets.
    PayloadTooLarge,
    /// Neither a secondary header nor payload was given.
    EmptyDataField,
}

/// The most octets that a packet data field can hold: the length field
/// holds the count minus one in 16 bits.
pub const MAX_DATA_FIELD_LEN: usize = 65536;

/// A space packet. `secondary_header` is present exactly when the primary
/// header's flag says so.
#[derive(Debug, PartialEq, Eq, Clone)]
pub struct SpacePacket<S> {
    pub primary_header: PrimaryHeader,
    pub secondary_header: Option<S>,
    pub payload: Vec<u8>,
}

/// What a space packet holds, its payload as a sequence of octets.
pub struct PacketModel<S> {
    pub primary_header: PrimaryHeader,
    pub secondary_header: Option<S>,
    pub payload: Seq<u8>,
}

impl<S> View for SpacePacket<S> {
    type V = PacketModel<S>;

    open spec fn view(&self) -> PacketModel<S> {
        PacketModel {
            primary_header: self.primary_header,
            secondary_header: self.secondary_header,
            payload: self.payload@,
        }
    }
}

/// The octets of an optional secondary header.
pub open spec fn secondary_octets<S: DataSegment>(s: Option<S>) -> Seq<u8> {
    match s {
        Some(s) => s.encoding(),
        None => Seq::empty(),
    }
}

impl<S: DataSegment> PacketModel<S> {
    /// The header's fields fit, the flag matches the secondary header, and
    /// the secondary header can be encoded.
    pub open spec fn well_formed(self) -> bool {
        &&& self.primary_header.well_formed()
        &&& (self.primary_header.sec_header_flag == SecondaryHeaderFlag::Present)
            == self.secondary_header.is_some()
        &&& self.secondary_header matches Some(s) ==> s.valid()
    }

    /// The octets of the packet data field: secondary header and payload.
    pub open spec fn data_field_len(self) -> nat {
        secondary_octets(self.secondary_header).len() + self.payload.len()
    }

    /// The length field counts the packet data field, less one.
    pub open spec fn length_consistent(self) -> bool {
        self.primary_header.data_length + 1 == self.data_field_len()
    }

    /// The packet on the wire: primary header, secondary header, payload.
    pub open spec fn spec_bytes(self) -> Seq<u8> {
        self.primary_header.spec_octets() + secondary_octets(self.secondary_header) + self.payload
    }
}

/// What parsing `bytes` gives: the primary header from the first six
/// octets, then the secondary header when the flag says one is present,
/// and every octet after them as payload.
pub open spec fn spec_parse<S: DataSegment>(bytes: Seq<u8>) -> Result<
    PacketModel<S>,
    PacketError<S::Error>,
> {
    if bytes.len() < 6 {
        Err(PacketError::InsufficientData)
    } else {
        let h = header_of(bytes);
        let rest = bytes.subrange(6, bytes.len() as int);
        if h.sec_header_flag == SecondaryHeaderFlag::Present {
            match S::decoding(rest) {
                Ok((s, n)) => Ok(
                    PacketModel {
                        primary_header: h,
                        secondary_header: Some(s),
                        payload: rest.subrange(n as int, rest.len() as int),
                    },
                ),
                Err(SegmentError::Truncated) => Err(PacketError::TruncatedPacket),
                Err(SegmentError::Invalid(e)) => Err(PacketError::SecondaryHeaderDecodeFailed(e)),
            }
        } else {
            Ok(PacketModel { primary_header: h, secondary_header: None, payload: rest })
        }
    }
}

/// What building a packet from these values gives. The version is 0, the
/// flag tells whether a secondary header is given, and the length field
/// holds the data field's octets less one.
pub open spec fn spec_build<S: DataSegment>(
    app_proc_id: u16,
    packet_type: PacketType,
    sequence_flags: SeqFlag,
    sequence_count: u16,
    secondary_header: Option<S>,
    payload: Seq<u8>,
) -> Result<PacketModel<S>, PacketError<S::Error>> {
    let n = secondary_octets(secondary_header).len() + payload.len();
    if app_proc_id > 2047 || sequence_count > 16383 {
        Err(PacketError::FieldOutOfRange)
    } else if n == 0 {
        Err(PacketError::EmptyDataField)
    } else if n > 65536 {
        Err(PacketError::PayloadTooLarge)
    } else {
        Ok(
            PacketModel {
                primary_header: PrimaryHeader {
                    version: 0,
                    packet_type,
                    sec_header_flag: if secondary_header.is_some() {
                        SecondaryHeaderFlag::Present
                    } else {
                        SecondaryHeaderFlag::NotPresent
                    },
                    app_proc_id,
                    sequence_flags,
                    sequence_count,
                    data_length: (n - 1) as u16,
                },
                secondary_header,
                payload,
            },
        )
    }
}

/// Parsing the octets of a well-formed packet gives the packet back.
pub proof fn lemma_parse_to_bytes<S: DataSegment>(p: PacketModel<S>)
    requires
        p.well_formed(),
    ensures
        spec_parse::<S>(p.spec_bytes()) == Ok::<PacketModel<S>, PacketError<S::Error>>(p),
{
    let h = p.primary_header;
    let sec = secondary_octets(p.secondary_header);
    let bytes = p.spec_bytes();
    lemma_decode_encode(h);
    lemma_header_of_prefix(h.spec_octets(), sec + p.payload);
    assert(bytes =~= h.spec_octets() + (sec + p.payload));
    let rest = bytes.subrange(6, bytes.len() as int);
    assert(rest =~= sec + p.payload);
    match p.secondary_header {
        Some(s) => {
            S::lemma_decode_encoding(s, p.payload);
            assert(rest.subrange(sec.len() as int, rest.len() as int) =~= p.payload);
        },
        None => {
            assert(rest =~= p.payload);
        },
    }
}

impl<S: DataSegment> SpacePacket<S> {
    /// Parses a packet from `raw`: the primary header, then the secondary
    /// header when the flag says one is present, then the rest as payload.
    pub fn parse(raw: &[u8]) -> (r: Result<Self, PacketError<S::Error>>)
        ensures
            r matches Ok(p) ==> {
                &&& spec_parse::<S>(raw@) == Ok::<PacketModel<S>, PacketError<S::Error>>(p@)
                &&& p@.well_formed()
                &&& 6 + secondary_octets(p.secondary_header).len() + p.payload@.len() == raw@.len()
                &&& p.payload@ == raw@.subrange(
                    6 + secondary_octets(p.secondary_header).len() as int,
                    raw@.len() as int,
                )
            },
            r matches Err(e) ==> spec_parse::<S>(raw@) == Err::<PacketModel<S>, PacketError<S::Error>>(e),
    {
        let (primary_header, rest) = match PrimaryHeader::decode(raw) {
            Ok(v) => v,
            Err(_) => return Err(PacketError::InsufficientData),
        };
        match primary_header.sec_header_flag {
            SecondaryHeaderFlag::Present => match S::from_bytes(rest) {
                Ok((s, n)) => {
                    proof {
                        S::lemma_decoding_consumes(rest@);
                    }
                    let payload = slice_to_vec(slice_subrange(rest, n, rest.len()));
                    Ok(SpacePacket { primary_header, secondary_header: Some(s), payload })
                },
                Err(SegmentError::Truncated) => Err(PacketError::TruncatedPacket),
                Err(SegmentError::Invalid(e)) => Err(PacketError::SecondaryHeaderDecodeFailed(e)),
            },
            SecondaryHeaderFlag::NotPresent => {
                let payload = slice_to_vec(rest);
                Ok(SpacePacket { primary_header, secondary_header: None, payload })
            },
        }
    }

    /// Builds a packet of version 0, with the length field computed from the
    /// secondary header and the payload.
    pub fn build(
        app_proc_id: u16,
        packet_type: PacketType,
        sequence_flags: SeqFlag,
        sequence_count: u16,
        secondary_header: Option<S>,
        payload: Vec<u8>,
    ) -> (r: Result<Self, PacketError<S::Error>>)
        requires
            secondary_header matches Some(s) ==> s.valid(),
        ensures
            r matches Ok(p) ==> {
                &&& spec_build(
                    app_proc_id,
                    packet_type,
                    sequence_flags,
                    sequence_count,
                    secondary_header,
                    payload@,
                ) == Ok::<PacketModel<S>, PacketError<S::Error>>(p@)
                &&& p@.well_formed()
                &&& p@.length_consistent()
            },
            r matches Err(e) ==> spec_build(
                app_proc_id,
                packet_type,
                sequence_flags,
                sequence_count,
                secondary_header,
                payload@,
            ) == Err::<PacketModel<S>, PacketError<S::Error>>(e),
    {
        if app_proc_id > 2047 || sequence_count > 16383 {
            return Err(PacketError::FieldOutOfRange);
        }
        let sec_len: usize = match &secondary_header {
            Some(s) => s.length() as usize,
            None => 0,
        };
        if sec_len == 0 && payload.len() == 0 {
            return Err(PacketError::EmptyDataField);
        }
        if payload.len() > MAX_DATA_FIELD_LEN - sec_len {
            return Err(PacketError::PayloadTooLarge);
        }
        let n = sec_len + payload.len();
        let sec_header_flag = if secondary_header.is_some() {
            SecondaryHeaderFlag::Present
        } else {
            SecondaryHeaderFlag::NotPresent
        };
        let primary_header = PrimaryHeader {
            version: 0,
            packet_type,
            sec_header_flag,
            app_proc_id,
            sequence_flags,
            sequence_count,
            data_length: (n - 1) as u16,
        };
        Ok(SpacePacket { primary_header, secondary_header, payload })
    }

    /// The octets of the packet: primary header, secondary header, payload.
    pub fn to_bytes(&self) -> (r: Vec<u8>)
        requires
            self@.well_formed(),
        ensures
            r@ == self@.spec_bytes(),
            self@.length_consistent() ==> r@.len() == 7 + self.primary_header.data_length,
    {
        let mut out = self.primary_header.octets();
        match &self.secondary_header {
            Some(s) => {
                let mut sec = s.to_bytes();
                out.append(&mut sec);
            },
            None => {},
        }
        let mut payload = slice_to_vec(self.payload.as_slice());
        out.append(&mut payload);
        out
    }

    /// The octets of the whole packet on the wire, as the length field
    /// gives it: six for the primary header and the data field's count.
    pub fn length(&self) -> (r: usize)
        ensures
            r == PRIMARY_HEADER_LEN + self.primary_header.data_length + 1,
    {
        PRIMARY_HEADER_LEN + self.primary_header.data_length as usize + 1
    }
}

/// Gathers the parts of a packet one by one; `build` then checks them and
/// computes the length field.
pub struct SpacePacketBuilder<S> {
    pub packet_type: PacketType,
    pub app_proc_id: u16,
    pub sequence_flags: SeqFlag,
    pub sequence_count: u16,
    pub secondary_header: Option<S>,
    pub payload: Vec<u8>,
}

impl<S> Default for SpacePacketBuilder<S> {
    /// A telemetry packet with every header field 0 (so sequence flags
    /// `Continuation`), no secondary header, and a payload of one zero octet.
    fn default() -> (r: SpacePacketBuilder<S>)
        ensures
            r.packet_type == PacketType::Data,
            r.app_proc_id == 0,
            r.sequence_flags == SeqFlag::Continuation,
            r.sequence_count == 0,
            r.secondary_header is None,
            r.payload@ == seq![0u8],
    {
        SpacePacketBuilder {
            packet_type: PacketType::Data,
            app_proc_id: 0,
            sequence_flags: SeqFlag::Continuation,
            sequence_count: 0,
            secondary_header: None,
            payload: vec![0u8],
        }
    }
}

impl<S: DataSegment> SpacePacketBuilder<S> {
    /// Sets the primary header's own fields; `packet_name` is the sequence
    /// count.
    pub fn with_primary_header(
        self,
        packet_type: PacketType,
        app_proc_id: u16,
        sequence_flags: SeqFlag,
        packet_name: u16,
    ) -> (r: SpacePacketBuilder<S>)
        ensures
            r.packet_type == packet_type,
            r.app_proc_id == app_proc_id,
            r.sequence_flags == sequence_flags,
            r.sequence_count == packet_name,
            r.secondary_header == self.secondary_header,
            r.payload@ == self.payload@,
    {
        SpacePacketBuilder {
            packet_type,
            app_proc_id,
            sequence_flags,
            sequence_count: packet_name,
            secondary_header: self.secondary_header,
            payload: self.payload,
        }
    }

    /// Sets the secondary header.
    pub fn with_secondary_header(self, sec_header: S) -> (r: SpacePacketBuilder<S>)
        ensures
            r.packet_type == self.packet_type,
            r.app_proc_id == self.app_proc_id,
            r.sequence_flags == self.sequence_flags,
            r.sequence_count == self.sequence_count,
            r.secondary_header == Some(sec_header),
            r.payload@ == self.payload@,
    {
        SpacePacketBuilder {
            packet_type: self.packet_type,
            app_proc_id: self.app_proc_id,
            sequence_flags: self.sequence_flags,
            sequence_count: self.sequence_count,
            secondary_header: Some(sec_header),
            payload: self.payload,
        }
    }

    /// Sets the payload.
    pub fn with_payload(self, payload: Vec<u8>) -> (r: SpacePacketBuilder<S>)
        ensures
            r.packet_type == self.packet_type,
            r.app_proc_id == self.app_proc_id,
            r.sequence_flags == self.sequence_flags,
            r.sequence_count == self.sequence_count,
            r.secondary_header == self.secondary_header,
            r.payload@ == payload@,
    {
        SpacePacketBuilder {
            packet_type: self.packet_type,
            app_proc_id: self.app_proc_id,
            sequence_flags: self.sequence_flags,
            sequence_count: self.sequence_count,
            secondary_header: self.secondary_header,
            payload,
        }
    }

    /// Builds the packet from the parts gathered, as `SpacePacket::build`
    /// does.
    pub fn build(self) -> (r: Result<SpacePacket<S>, PacketError<S::Error>>)
        requires
            self.secondary_header matches Some(s) ==> s.valid(),
        ensures
            r matches Ok(p) ==> {
                &&& spec_build(
                    self.app_proc_id,
                    self.packet_type,
                    self.sequence_flags,
                    self.sequence_count,
                    self.secondary_header,
                    self.payload@,
                ) == Ok::<PacketModel<S>, PacketError<S::Error>>(p@)
                &&& p@.well_formed()
                &&& p@.length_consistent()
            },
            r matches Err(e) ==> spec_build(
                self.app_proc_id,
                self.packet_type,
                self.sequence_flags,
                self.sequence_count,
                self.secondary_header,
                self.payload@,
            ) == Err::<PacketModel<S>, PacketError<S::Error>>(e),
    {
        SpacePacket::build(
            self.app_proc_id,
            self.packet_type,
            self.sequence_flags,
            self.sequence_count,
            self.secondary_header,
            self.payload,
        )
    }
}

} // verus!
