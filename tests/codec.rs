use spacepacket::{
    BitReader, BitWriter, CodecError, DataSegment, PacketError, PacketType, PrimaryHeader,
    SecondaryHeaderFlag, SegmentError, SeqFlag, SpacePacket, SpacePacketBuilder,
};

fn header(app_proc_id: u16, sequence_count: u16) -> PrimaryHeader {
    PrimaryHeader {
        version: 5,
        packet_type: PacketType::Command,
        sec_header_flag: SecondaryHeaderFlag::Present,
        app_proc_id,
        sequence_flags: SeqFlag::LastSegment,
        sequence_count,
        data_length: 0xBEEF,
    }
}

#[test]
fn header_round_trip() {
    let h = header(0x2A5, 0x1234);
    let bytes = h.encode().unwrap();
    assert_eq!(bytes.len(), 6);
    let (back, rest) = PrimaryHeader::decode(&bytes).unwrap();
    assert_eq!(back, h);
    assert!(rest.is_empty());
}

#[test]
fn header_octets_follow_the_field_layout() {
    let h = PrimaryHeader {
        version: 0,
        packet_type: PacketType::Command,
        sec_header_flag: SecondaryHeaderFlag::Present,
        app_proc_id: 0x7FF,
        sequence_flags: SeqFlag::FirstSegment,
        sequence_count: 0x3FFF,
        data_length: 0x1234,
    };
    assert_eq!(h.encode().unwrap(), vec![0x1F, 0xFF, 0x7F, 0xFF, 0x12, 0x34]);
    assert_eq!(h.to_bytes(), vec![0x1F, 0xFF, 0x7F, 0xFF, 0x12, 0x34]);
}

#[test]
fn bit_cursor_and_masking_encode_alike() {
    for (apid, count) in [(0u16, 0u16), (1, 1), (0x400, 0x2000), (2047, 16383), (0x155, 0x2AAA)] {
        let h = header(apid, count);
        assert_eq!(h.encode().unwrap(), h.to_bytes());
    }
}

#[test]
fn encode_rejects_fields_out_of_range() {
    let mut h = header(0, 0);
    h.version = 8;
    assert_eq!(h.encode(), Err(CodecError::FieldOverflow));
    let h = header(2048, 0);
    assert_eq!(h.encode(), Err(CodecError::FieldOverflow));
    let h = header(0, 16384);
    assert_eq!(h.encode(), Err(CodecError::FieldOverflow));
}

#[test]
fn decode_five_octets_is_insufficient() {
    assert_eq!(PrimaryHeader::decode(&[0, 0, 0, 0, 0]), Err(CodecError::InsufficientData));
}

#[test]
fn parse_five_octets_is_insufficient() {
    let r = SpacePacket::<u16>::parse(&[0x08, 0x00, 0xC0, 0x00, 0x00]);
    assert_eq!(r, Err(PacketError::InsufficientData));
}

#[test]
fn app_proc_id_boundary() {
    let p: SpacePacket<u16> =
        SpacePacket::build(2047, PacketType::Data, SeqFlag::Unsegmented, 0, None, vec![1]).unwrap();
    let parsed = SpacePacket::<u16>::parse(&p.to_bytes()).unwrap();
    assert_eq!(parsed.primary_header.app_proc_id, 2047);
    assert_eq!(parsed, p);
    let r: Result<SpacePacket<u16>, _> =
        SpacePacket::build(2048, PacketType::Data, SeqFlag::Unsegmented, 0, None, vec![1]);
    assert_eq!(r, Err(PacketError::FieldOutOfRange));
}

#[test]
fn sequence_count_boundary() {
    let p: SpacePacket<u16> =
        SpacePacket::build(7, PacketType::Command, SeqFlag::FirstSegment, 16383, None, vec![1, 2])
            .unwrap();
    let parsed = SpacePacket::<u16>::parse(&p.to_bytes()).unwrap();
    assert_eq!(parsed.primary_header.sequence_count, 16383);
    assert_eq!(parsed, p);
    let r: Result<SpacePacket<u16>, _> =
        SpacePacket::build(7, PacketType::Command, SeqFlag::FirstSegment, 16384, None, vec![1]);
    assert_eq!(r, Err(PacketError::FieldOutOfRange));
}

#[test]
fn build_sets_length_and_flag() {
    let p: SpacePacket<u16> = SpacePacket::build(
        0x123,
        PacketType::Command,
        SeqFlag::Continuation,
        99,
        Some(0xABCD),
        vec![1, 2, 3],
    )
    .unwrap();
    assert_eq!(p.primary_header.version, 0);
    assert_eq!(p.primary_header.sec_header_flag, SecondaryHeaderFlag::Present);
    // two octets of secondary header and three of payload
    assert_eq!(p.primary_header.data_length + 1, 5);
    let bytes = p.to_bytes();
    assert_eq!(bytes, vec![0x19, 0x23, 0x00, 99, 0x00, 0x04, 0xAB, 0xCD, 1, 2, 3]);
    assert_eq!(bytes.len(), p.length());
    assert_eq!(SpacePacket::<u16>::parse(&bytes).unwrap(), p);
}

#[test]
fn build_without_data_field_fails() {
    let r: Result<SpacePacket<u16>, _> =
        SpacePacket::build(1, PacketType::Data, SeqFlag::Unsegmented, 1, None, vec![]);
    assert_eq!(r, Err(PacketError::EmptyDataField));
}

#[test]
fn build_largest_data_field() {
    let p: SpacePacket<u16> =
        SpacePacket::build(1, PacketType::Data, SeqFlag::Unsegmented, 1, Some(7), vec![0; 65534])
            .unwrap();
    assert_eq!(p.primary_header.data_length, 65535);
    assert_eq!(p.to_bytes().len(), 6 + 65536);
    let r: Result<SpacePacket<u16>, _> =
        SpacePacket::build(1, PacketType::Data, SeqFlag::Unsegmented, 1, Some(7), vec![0; 65535]);
    assert_eq!(r, Err(PacketError::PayloadTooLarge));
    let r: Result<SpacePacket<u16>, _> =
        SpacePacket::build(1, PacketType::Data, SeqFlag::Unsegmented, 1, None, vec![0; 65537]);
    assert_eq!(r, Err(PacketError::PayloadTooLarge));
}

#[test]
fn parse_splits_every_octet() {
    let raw = [0x08, 0x00, 0xC0, 0x00, 0x00, 0x04, 0xAB, 0xCD, 7, 8, 9];
    let p = SpacePacket::<u16>::parse(&raw).unwrap();
    assert_eq!(p.secondary_header, Some(0xABCD));
    assert_eq!(6 + p.secondary_header.unwrap().length() as usize + p.payload.len(), raw.len());
    assert_eq!(p.payload, vec![7, 8, 9]);
}

#[test]
fn parse_truncated_secondary_header() {
    let r = SpacePacket::<u16>::parse(&[0x08, 0x00, 0xC0, 0x00, 0x00, 0x01, 0xFF]);
    assert_eq!(r, Err(PacketError::TruncatedPacket));
}

#[test]
fn parse_with_primary_header_as_secondary() {
    let inner = header(3, 4);
    let p: SpacePacket<PrimaryHeader> = SpacePacket::build(
        9,
        PacketType::Data,
        SeqFlag::Unsegmented,
        1,
        Some(inner),
        vec![0xEE],
    )
    .unwrap();
    assert_eq!(p.primary_header.data_length, 6);
    assert_eq!(SpacePacket::<PrimaryHeader>::parse(&p.to_bytes()).unwrap(), p);
}

#[test]
fn segment_integers_are_big_endian() {
    assert_eq!(u16::from_bytes(&[0x12, 0x34, 0x56]), Ok((0x1234, 2)));
    assert_eq!(0x1234u16.to_bytes(), vec![0x12, 0x34]);
    assert_eq!(0x1234u16.length(), 2);
    assert_eq!(u16::from_bytes(&[0x12]), Err(SegmentError::Truncated));
    assert_eq!(u8::from_bytes(&[0x9A, 0x01]), Ok((0x9A, 1)));
    assert_eq!(u8::from_bytes(&[]), Err(SegmentError::Truncated));
    assert_eq!(header(1, 2).length(), 6);
}

#[test]
fn bit_reader_spans_octets() {
    let buf = [0b1011_0011u8, 0b0101_1100, 0xFF];
    let mut rd = BitReader::new(&buf);
    assert_eq!(rd.take(3), Ok(0b101));
    assert_eq!(rd.take(11), Ok(0b10011_010111));
    assert!(!rd.is_aligned());
    assert_eq!(rd.take(16), Err(CodecError::InsufficientData));
    assert_eq!(rd.take(2), Ok(0b00));
    assert!(rd.is_aligned());
    assert_eq!(rd.byte_position(), 2);
    assert_eq!(rd.remaining_bytes(), &[0xFF]);
    assert_eq!(rd.take(8), Ok(0xFF));
    assert_eq!(rd.take(1), Err(CodecError::InsufficientData));
}

#[test]
fn bit_writer_packs_msb_first() {
    let mut w = BitWriter::new();
    assert_eq!(w.put(0b101, 3), Ok(()));
    assert_eq!(w.put(0b10011_010111, 11), Ok(()));
    assert_eq!(w.put(4, 2), Err(CodecError::FieldOverflow));
    assert_eq!(w.put(0xFFFF, 16), Ok(()));
    assert_eq!(w.put(1, 1), Ok(()));
    assert_eq!(w.into_bytes(), vec![0b1011_0011, 0b0101_1111, 0xFF, 0b1111_1110]);
}

#[test]
fn builder_builds_like_build() {
    let p: SpacePacket<u8> = SpacePacketBuilder::default()
        .with_primary_header(PacketType::Command, 42, SeqFlag::FirstSegment, 77)
        .with_secondary_header(0x5A)
        .with_payload(vec![1, 2])
        .build()
        .unwrap();
    let q: SpacePacket<u8> =
        SpacePacket::build(42, PacketType::Command, SeqFlag::FirstSegment, 77, Some(0x5A), vec![1, 2])
            .unwrap();
    assert_eq!(p, q);
    assert_eq!(p.primary_header.data_length, 2);
    let default: SpacePacket<u8> = SpacePacketBuilder::default().build().unwrap();
    assert_eq!(default.primary_header.sequence_flags, SeqFlag::Continuation);
    assert_eq!(default.primary_header.data_length, 0);
    assert_eq!(default.payload, vec![0]);
    assert_eq!(default.to_bytes(), vec![0, 0, 0, 0, 0, 0, 0]);
    let empty: Result<SpacePacket<u8>, _> =
        SpacePacketBuilder::default().with_payload(vec![]).build();
    assert_eq!(empty, Err(PacketError::EmptyDataField));
}

#[test]
fn field_defaults() {
    assert_eq!(PacketType::default(), PacketType::Data);
    assert_eq!(SeqFlag::default(), SeqFlag::Unsegmented);
    let b: SpacePacketBuilder<u8> = SpacePacketBuilder::default();
    assert_eq!(b.packet_type, PacketType::Data);
    assert_eq!(b.sequence_flags, SeqFlag::Continuation);
    assert_eq!(b.app_proc_id, 0);
    assert_eq!(b.sequence_count, 0);
    assert_eq!(b.secondary_header, None);
    assert_eq!(b.payload, vec![0]);
}
