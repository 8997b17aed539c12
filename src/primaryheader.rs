//! The six-octet primary header: seven bit-packed fields.
use crate::bits::{
    bits_value, lemma_bits_in_word, lemma_bits_value_ext, low_mask, word_at, BitReader, BitWriter,
    CodecError,
};
use crate::endian::write_u16_be;
use crate::segment::{DataSegment, SegmentError};
use crate::types::{PacketType, SecondaryHeaderFlag, SeqFlag};
use vstd::prelude::*;

verus! {

/// The octets of a primary header on the wire.
pub const PRIMARY_HEADER_LEN: usize = 6;

/// The primary header of a space packet.
#[derive(Debug, PartialEq, Eq, Structural, Copy, Clone)]
pub struct PrimaryHeader {
    /// Packet version number, 3 bits.
    pub version: u8,
    /// Telemetry or command, 1 bit.
    pub packet_type: PacketType,
    /// Whether a secondary header follows, 1 bit.
    pub sec_header_flag: SecondaryHeaderFlag,
    /// Application process identifier (APID), 11 bits.
    pub app_proc_id: u16,
    /// Segmentation role, 2 bits.
    pub sequence_flags: SeqFlag,
    /// Sequence count or packet name, 14 bits.
    pub sequence_count: u16,
    /// Octets in the packet data field minus one, 16 bits.
    pub data_length: u16,
}

/// The header that the first six octets of `b` hold: three big-endian
/// words, cut into fields from the most significant bit down.
pub open spec fn header_of(b: Seq<u8>) -> PrimaryHeader {
    let w0 = word_at(b, 0);
    let w1 = word_at(b, 2);
    PrimaryHeader {
        version: (w0 / 8192) as u8,
        packet_type: PacketType::spec_from_bits(((w0 / 4096) % 2) as u16),
        sec_header_flag: SecondaryHeaderFlag::spec_from_bits(((w0 / 2048) % 2) as u16),
        app_proc_id: (w0 % 2048) as u16,
        sequence_flags: SeqFlag::spec_from_bits((w1 / 16384) as u16),
        sequence_count: (w1 % 16384) as u16,
        data_length: word_at(b, 4) as u16,
    }
}

/// The header that the bit cursor reads from `b`: the fields of 3, 1, 1,
/// 11, 2, 14 and 16 bits in turn.
pub open spec fn header_from_bits(b: Seq<u8>) -> PrimaryHeader {
    PrimaryHeader {
        version: bits_value(b, 0, 3) as u8,
        packet_type: PacketType::spec_from_bits(bits_value(b, 3, 1) as u16),
        sec_header_flag: SecondaryHeaderFlag::spec_from_bits(bits_value(b, 4, 1) as u16),
        app_proc_id: bits_value(b, 5, 11) as u16,
        sequence_flags: SeqFlag::spec_from_bits(bits_value(b, 16, 2) as u16),
        sequence_count: bits_value(b, 18, 14) as u16,
        data_length: bits_value(b, 32, 16) as u16,
    }
}

proof fn lemma_word_fields(w: u32)
    by (bit_vector)
    requires
        w < 0x10000,
    ensures
        (w >> 13u32) & low_mask(3) == w / 8192,
        (w >> 12u32) & low_mask(1) == (w / 4096) % 2,
        (w >> 11u32) & low_mask(1) == (w / 2048) % 2,
        (w >> 0u32) & low_mask(11) == w % 2048,
        (w >> 14u32) & low_mask(2) == w / 16384,
        (w >> 0u32) & low_mask(14) == w % 16384,
        (w >> 0u32) & low_mask(16) == w,
{
}

/// Reading the fields bit by bit, most significant bit first, gives what
/// cutting the three big-endian words gives.
pub proof fn lemma_bit_order(b: Seq<u8>)
    requires
        b.len() >= 6,
    ensures
        header_from_bits(b) == header_of(b),
{
    lemma_bits_in_word(b, 0, 0, 3);
    lemma_bits_in_word(b, 0, 3, 1);
    lemma_bits_in_word(b, 0, 4, 1);
    lemma_bits_in_word(b, 0, 5, 11);
    lemma_bits_in_word(b, 2, 16, 2);
    lemma_bits_in_word(b, 2, 18, 14);
    lemma_bits_in_word(b, 4, 32, 16);
    lemma_word_fields(word_at(b, 0));
    lemma_word_fields(word_at(b, 2));
    lemma_word_fields(word_at(b, 4));
}

proof fn lemma_pack_fields(v: u32, t: u32, f: u32, a: u32, q: u32, c: u32)
    by (bit_vector)
    requires
        v < 8,
        t < 2,
        f < 2,
        a < 2048,
        q < 4,
        c < 16384,
    ensures
        (v * 32 + t * 16 + f * 8 + a / 256) < 256,
        (q * 64 + c / 256) < 256,
        (((v * 32 + t * 16 + f * 8 + a / 256) * 256 + a % 256) as u32) / 8192 == v,
        ((((v * 32 + t * 16 + f * 8 + a / 256) * 256 + a % 256) as u32) / 4096) % 2 == t,
        ((((v * 32 + t * 16 + f * 8 + a / 256) * 256 + a % 256) as u32) / 2048) % 2 == f,
        (((v * 32 + t * 16 + f * 8 + a / 256) * 256 + a % 256) as u32) % 2048 == a,
        (((q * 64 + c / 256) * 256 + c % 256) as u32) / 16384 == q,
        (((q * 64 + c / 256) * 256 + c % 256) as u32) % 16384 == c,
{
}

proof fn lemma_mask_fields(v: u16, t: u16, f: u16, a: u16, q: u16, c: u16)
    by (bit_vector)
    requires
        v < 8,
        t < 2,
        f < 2,
        a < 2048,
        q < 4,
        c < 16384,
    ensures
        (a | (f << 11u16) | (t << 12u16) | (v << 13u16)) / 256 == ((v * 32 + t * 16 + f * 8 + a
            / 256) as u16),
        (a | (f << 11u16) | (t << 12u16) | (v << 13u16)) % 256 == a % 256,
        (c | (q << 14u16)) / 256 == ((q * 64 + c / 256) as u16),
        (c | (q << 14u16)) % 256 == c % 256,
{
}

/// Decoding the octets of a well-formed header gives the header back.
pub proof fn lemma_decode_encode(h: PrimaryHeader)
    requires
        h.well_formed(),
    ensures
        h.spec_octets().len() == 6,
        header_of(h.spec_octets()) == h,
{
    let t = h.packet_type.spec_bits() as u32;
    let f = h.sec_header_flag.spec_bits() as u32;
    let q = h.sequence_flags.spec_bits() as u32;
    lemma_pack_fields(h.version as u32, t, f, h.app_proc_id as u32, q, h.sequence_count as u32);
    let b = h.spec_octets();
    assert(word_at(b, 4) == h.data_length);
}

proof fn lemma_unpack_word(hi: u32, lo: u32)
    by (bit_vector)
    requires
        hi < 256,
        lo < 256,
    ensures
        ((hi * 256 + lo) as u32) / 8192 * 32 + (((hi * 256 + lo) as u32) / 4096) % 2 * 16 + (((
        hi * 256 + lo) as u32) / 2048) % 2 * 8 + (((hi * 256 + lo) as u32) % 2048) / 256 == hi,
        (((hi * 256 + lo) as u32) % 2048) % 256 == lo,
        ((hi * 256 + lo) as u32) / 16384 * 64 + (((hi * 256 + lo) as u32) % 16384) / 256 == hi,
        (((hi * 256 + lo) as u32) % 16384) % 256 == lo,
        ((hi * 256 + lo) as u32) / 256 == hi,
        ((hi * 256 + lo) as u32) % 256 == lo,
        ((hi * 256 + lo) as u32) / 8192 < 8,
        ((hi * 256 + lo) as u32) / 16384 < 4,
{
}

/// Every six octets hold some header: encoding what they decode to gives
/// them back.
pub proof fn lemma_encode_decode(b: Seq<u8>)
    requires
        b.len() == 6,
    ensures
        header_of(b).well_formed(),
        header_of(b).spec_octets() == b,
{
    lemma_unpack_word(b[0] as u32, b[1] as u32);
    lemma_unpack_word(b[2] as u32, b[3] as u32);
    lemma_unpack_word(b[4] as u32, b[5] as u32);
    assert(header_of(b).spec_octets() =~= b);
}

/// Decoding looks at the first six octets alone.
pub proof fn lemma_header_of_prefix(b: Seq<u8>, rest: Seq<u8>)
    requires
        b.len() >= 6,
    ensures
        header_of(b + rest) == header_of(b),
{
    assert((b + rest)[0] == b[0] && (b + rest)[1] == b[1] && (b + rest)[2] == b[2]);
    assert((b + rest)[3] == b[3] && (b + rest)[4] == b[4] && (b + rest)[5] == b[5]);
}

impl PrimaryHeader {
    /// Every field fits in its width.
    pub open spec fn well_formed(self) -> bool {
        &&& self.version < 8
        &&& self.app_proc_id < 2048
        &&& self.sequence_count < 16384
    }

    /// The six octets of the header.
    pub open spec fn spec_octets(self) -> Seq<u8> {
        seq![
            (self.version * 32 + self.packet_type.spec_bits() * 16
                + self.sec_header_flag.spec_bits() * 8 + self.app_proc_id / 256) as u8,
            (self.app_proc_id % 256) as u8,
            (self.sequence_flags.spec_bits() * 64 + self.sequence_count / 256) as u8,
            (self.sequence_count % 256) as u8,
            (self.data_length / 256) as u8,
            (self.data_length % 256) as u8,
        ]
    }

    /// Reads a header from the first six octets of `buf` with the bit
    /// cursor, and hands back the octets after it.
    pub fn decode(buf: &[u8]) -> (r: Result<(PrimaryHeader, &[u8]), CodecError>)
        ensures
            buf@.len() < 6 <==> r is Err,
            r matches Err(e) ==> e == CodecError::InsufficientData,
            r matches Ok((h, rest)) ==> {
                &&& h == header_of(buf@)
                &&& h.well_formed()
                &&& rest@ == buf@.subrange(6, buf@.len() as int)
            },
    {
        if buf.len() < PRIMARY_HEADER_LEN {
            return Err(CodecError::InsufficientData);
        }
        let mut rd = BitReader::new(buf);
        let version = match rd.take(3) { Ok(v) => v, Err(e) => return Err(e) };
        let packet_type = match rd.take(1) { Ok(v) => v, Err(e) => return Err(e) };
        let sec_header_flag = match rd.take(1) { Ok(v) => v, Err(e) => return Err(e) };
        let app_proc_id = match rd.take(11) { Ok(v) => v, Err(e) => return Err(e) };
        let sequence_flags = match rd.take(2) { Ok(v) => v, Err(e) => return Err(e) };
        let sequence_count = match rd.take(14) { Ok(v) => v, Err(e) => return Err(e) };
        let data_length = match rd.take(16) { Ok(v) => v, Err(e) => return Err(e) };
        proof {
            lemma_bit_order(buf@);
            crate::bits::lemma_bits_value_bound(buf@, 0, 3);
            crate::bits::lemma_bits_value_bound(buf@, 3, 1);
            crate::bits::lemma_bits_value_bound(buf@, 4, 1);
            crate::bits::lemma_bits_value_bound(buf@, 5, 11);
            crate::bits::lemma_bits_value_bound(buf@, 16, 2);
            crate::bits::lemma_bits_value_bound(buf@, 18, 14);
            crate::bits::lemma_bits_value_bound(buf@, 32, 16);
            vstd::arithmetic::power2::lemma2_to64();
        }
        let h = PrimaryHeader {
            version: version as u8,
            packet_type: PacketType::from_bits(packet_type),
            sec_header_flag: SecondaryHeaderFlag::from_bits(sec_header_flag),
            app_proc_id,
            sequence_flags: SeqFlag::from_bits(sequence_flags),
            sequence_count,
            data_length,
        };
        let rest = rd.remaining_bytes();
        Ok((h, rest))
    }

    /// The six octets of a well-formed header, packed by masks and shifts
    /// into three big-endian words.
    pub(crate) fn octets(&self) -> (r: Vec<u8>)
        requires
            self.well_formed(),
        ensures
            r@ == self.spec_octets(),
    {
        let t = self.packet_type.bits();
        let f = self.sec_header_flag.bits();
        let q = self.sequence_flags.bits();
        let v = self.version as u16;
        let a = self.app_proc_id;
        let c = self.sequence_count;
        proof {
            lemma_mask_fields(v, t, f, a, q, c);
        }
        let w0: u16 = a | (f << 11u16) | (t << 12u16) | (v << 13u16);
        let w1: u16 = c | (q << 14u16);
        let o0 = write_u16_be(w0);
        let o1 = write_u16_be(w1);
        let o2 = write_u16_be(self.data_length);
        let mut out: Vec<u8> = Vec::new();
        out.push(o0[0]);
        out.push(o0[1]);
        out.push(o1[0]);
        out.push(o1[1]);
        out.push(o2[0]);
        out.push(o2[1]);
        proof {
            assert(out@ =~= self.spec_octets());
        }
        out
    }

    /// The six octets of the header, written field by field with the bit
    /// cursor; fails when a field does not fit in its width.
    pub fn encode(&self) -> (r: Result<Vec<u8>, CodecError>)
        ensures
            self.well_formed() <==> r is Ok,
            r matches Ok(v) ==> v@ == self.spec_octets(),
            r matches Err(e) ==> e == CodecError::FieldOverflow,
    {
        proof {
            vstd::arithmetic::power2::lemma2_to64();
        }
        let mut w = BitWriter::new();
        match w.put(self.version as u16, 3) {
            Ok(()) => {},
            Err(e) => return Err(e),
        }
        let ghost s1 = w.octets();
        match w.put(self.packet_type.bits(), 1) {
            Ok(()) => {},
            Err(e) => return Err(e),
        }
        let ghost s2 = w.octets();
        match w.put(self.sec_header_flag.bits(), 1) {
            Ok(()) => {},
            Err(e) => return Err(e),
        }
        let ghost s3 = w.octets();
        match w.put(self.app_proc_id, 11) {
            Ok(()) => {},
            Err(e) => return Err(e),
        }
        let ghost s4 = w.octets();
        match w.put(self.sequence_flags.bits(), 2) {
            Ok(()) => {},
            Err(e) => return Err(e),
        }
        let ghost s5 = w.octets();
        match w.put(self.sequence_count, 14) {
            Ok(()) => {},
            Err(e) => return Err(e),
        }
        let ghost s6 = w.octets();
        match w.put(self.data_length, 16) {
            Ok(()) => {},
            Err(e) => return Err(e),
        }
        let out = w.into_bytes();
        proof {
            let b = out@;
            assert(b.len() == 6);
            lemma_bits_value_ext(b, s1, 0, 3);
            lemma_bits_value_ext(b, s2, 3, 1);
            lemma_bits_value_ext(b, s3, 4, 1);
            lemma_bits_value_ext(b, s4, 5, 11);
            lemma_bits_value_ext(b, s5, 16, 2);
            lemma_bits_value_ext(b, s6, 18, 14);
            assert(header_from_bits(b) == *self);
            lemma_bit_order(b);
            lemma_encode_decode(b);
        }
        Ok(out)
    }
}

/// The primary header is itself a segment of six octets.
impl DataSegment for PrimaryHeader {
    type Error = CodecError;

    open spec fn valid(&self) -> bool {
        self.well_formed()
    }

    open spec fn encoding(&self) -> Seq<u8> {
        self.spec_octets()
    }

    open spec fn decoding(bytes: Seq<u8>) -> Result<(PrimaryHeader, usize), SegmentError<CodecError>> {
        if bytes.len() < 6 {
            Err(SegmentError::Truncated)
        } else {
            Ok((header_of(bytes), 6))
        }
    }

    proof fn lemma_decode_encoding(s: PrimaryHeader, rest: Seq<u8>) {
        lemma_decode_encode(s);
        lemma_header_of_prefix(s.spec_octets(), rest);
    }

    proof fn lemma_decoding_consumes(bytes: Seq<u8>) {
        if bytes.len() >= 6 {
            let front = bytes.subrange(0, 6);
            let rest = bytes.subrange(6, bytes.len() as int);
            assert(bytes =~= front + rest);
            lemma_header_of_prefix(front, rest);
            lemma_encode_decode(front);
        }
    }

    fn from_bytes(bytes: &[u8]) -> (r: Result<(PrimaryHeader, usize), SegmentError<CodecError>>) {
        match PrimaryHeader::decode(bytes) {
            Ok((h, _)) => Ok((h, PRIMARY_HEADER_LEN)),
            Err(_) => Err(SegmentError::Truncated),
        }
    }

    fn to_bytes(&self) -> (r: Vec<u8>) {
        self.octets()
    }

    fn length(&self) -> (r: u16) {
        PRIMARY_HEADER_LEN as u16
    }
}

} // verus!
