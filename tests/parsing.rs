use spacepacket::{
    primary_header, DataSegment, PacketType, PrimaryHeader, SecondaryHeaderFlag, SeqFlag,
    SpacePacket,
};

#[test]
fn do_build_parse() {
    let packet: SpacePacket<u16> = SpacePacket::build(
        1294,
        PacketType::Data,
        SeqFlag::Unsegmented,
        15001,
        None,
        vec![5, 4, 3, 2, 1],
    )
    .unwrap();
    println!("packet {:?}", packet);

    let raw = packet.to_bytes();
    println!("bytes {:?}", raw);

    let parsed = SpacePacket::<u16>::parse(&raw);
    println!("parsed {:?}", parsed);

    assert_eq!(packet, parsed.unwrap());
}

#[test]
fn lib_parse_python_spacepacket() {
    let raw = b"\x00\x01\x00\x00\x00\x0f\x00\x00\x00\x00\x00\x00\x00o\x05\xdcquery";

    let parsed = SpacePacket::<u16>::parse(raw).unwrap();
    assert_eq!(parsed.primary_header.app_proc_id, 1);
    assert_eq!(parsed.primary_header.data_length, 15);
    assert_eq!(parsed.secondary_header, None);
    assert_eq!(parsed.payload, raw[6..].to_vec());
}

#[test]
fn parser_parse_python_spacepacket_primary_header() {
    // an all-zero primary header but for a data length of 64, then two octets of all ones
    let raw = b"\x00\x00\x00\x00\x00\x40\xff\xff";
    let expected = PrimaryHeader {
        version: 0,
        packet_type: PacketType::Data,
        sec_header_flag: SecondaryHeaderFlag::NotPresent,
        app_proc_id: 0,
        sequence_flags: SeqFlag::Continuation,
        sequence_count: 0,
        data_length: 64,
    };
    let (remaining, parsed) = primary_header(raw).expect("failed to parse header");

    assert_eq!(parsed, expected);
    assert_eq!(remaining, &[255, 255])
}

#[test]
fn parse_python_spacepacket_secondary_header() {
    let raw = b"\x08\x00\x00\x00\x00\x40\xff\xff\xff";

    let expected_p = PrimaryHeader {
        version: 0,
        packet_type: PacketType::Data,
        sec_header_flag: SecondaryHeaderFlag::Present,
        app_proc_id: 0,
        sequence_flags: SeqFlag::Continuation,
        sequence_count: 0,
        data_length: 64,
    };

    let (remaining, parsed) = primary_header(raw).expect("failed to parse header");
    assert_eq!(parsed, expected_p);

    // a secondary header of two single octets
    let (meme, n) = u8::from_bytes(remaining).expect("failed to parse header");
    let remaining = &remaining[n..];
    let (meme2, n) = u8::from_bytes(remaining).expect("failed to parse header");
    let remaining = &remaining[n..];
    assert_eq!((meme, meme2), (255, 255));

    assert_eq!(remaining, &[255])
}

#[test]
fn parser_parse_python_spacepacket() {
    let raw = b"\x08\x00\x00\x00\x00\x03\xff\xff\xff";
    let expected = SpacePacket {
        primary_header: PrimaryHeader {
            version: 0,
            packet_type: PacketType::Data,
            sec_header_flag: SecondaryHeaderFlag::Present,
            app_proc_id: 0,
            sequence_flags: SeqFlag::Continuation,
            sequence_count: 0,
            data_length: 3,
        },
        // a secondary header of two octets, both 255
        secondary_header: Some(u16::from_be_bytes([255, 255])),
        payload: vec![255],
    };

    let parsed = SpacePacket::<u16>::parse(raw).expect("failed to parse space packet");

    assert_eq!(parsed, expected);
}

#[test]
fn primaryheader_parse_python_spacepacket_primary_header() {
    let raw = b"\x00\x00\xc0\x00\x00\x40\xff\xff";
    let expected = PrimaryHeader {
        version: 0,
        packet_type: PacketType::Data,
        sec_header_flag: SecondaryHeaderFlag::NotPresent,
        app_proc_id: 0,
        sequence_flags: SeqFlag::Unsegmented,
        sequence_count: 0,
        data_length: 64,
    };
    let (parsed, rest) = PrimaryHeader::decode(raw).expect("failed to parse header");

    assert_eq!(parsed, expected);
    assert_eq!(rest, [255, 255])
}
