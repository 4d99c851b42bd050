use ip_tcp::ip::ip_packet::{
    convert_to_u16, get_high_order_byte, get_high_order_four_bits, get_low_order_byte,
    get_low_order_four_bits, set_high_order_four_bits, set_low_order_four_bits, FragmentOffset,
    IpPacket, IpPacketError,
};
use ip_tcp::ip::protocol::{Protocol, UnrecognizedProtocol};

#[test]
fn test_get_high_order_four_bits() {
    let byte = 0b1111_0000u8;
    assert_eq!(get_high_order_four_bits(&byte), 0b0000_1111u8);
    let byte = 0b1111_1101u8;
    assert_eq!(get_high_order_four_bits(&byte), 0b0000_1111u8);
    let byte = 0b0110_0000u8;
    assert_eq!(get_high_order_four_bits(&byte), 0b0000_0110u8);
    let byte = 0b0110_1001u8;
    assert_eq!(get_high_order_four_bits(&byte), 0b0000_0110u8);
}

#[test]
fn test_get_low_order_four_bits() {
    let byte = 0b1111_0000u8;
    assert_eq!(get_low_order_four_bits(&byte), 0b0000_0000u8);
    let byte = 0b0110_0110u8;
    assert_eq!(get_low_order_four_bits(&byte), 0b0000_0110u8);
    let byte = 0b0110_1001u8;
    assert_eq!(get_low_order_four_bits(&byte), 0b0000_1001u8);
}

#[test]
fn test_set_high_order_four_bits() {
    let mut byte = 0b0000_0000u8;
    let high_bits = 0b0000_1111u8;
    set_high_order_four_bits(&mut byte, &high_bits);
    assert_eq!(byte, 0b1111_0000);

    let mut byte = 0b1111_1111u8;
    let high_bits = 0b0000_0000u8;
    set_high_order_four_bits(&mut byte, &high_bits);
    assert_eq!(byte, 0b0000_1111);

    let mut byte = 0b0110_1001u8;
    let high_bits = 0b0000_1010u8;
    set_high_order_four_bits(&mut byte, &high_bits);
    assert_eq!(byte, 0b1010_1001);
}

#[test]
fn test_set_low_order_four_bits() {
    let mut byte = 0b0000_0000u8;
    let low_bits = 0b0000_1111u8;
    set_low_order_four_bits(&mut byte, &low_bits);
    assert_eq!(byte, 0b0000_1111);

    let mut byte = 0b1111_1111u8;
    let low_bits = 0b0000_0000u8;
    set_low_order_four_bits(&mut byte, &low_bits);
    assert_eq!(byte, 0b1111_0000);

    let mut byte = 0b0110_1001u8;
    let low_bits = 0b0000_1010u8;
    set_low_order_four_bits(&mut byte, &low_bits);
    assert_eq!(byte, 0b0110_1010);
}

#[test]
fn test_get_high_order_byte() {
    let byte = 0x00ffu16;
    assert_eq!(get_high_order_byte(&byte), 0u8);
    let byte = 0xff00u16;
    assert_eq!(get_high_order_byte(&byte), 0xffu8);
    let byte = 0b0110_0000_1001_1010u16;
    assert_eq!(get_high_order_byte(&byte), 0b0110_0000u8);
}

#[test]
fn test_get_low_order_byte() {
    let byte = 0x00ffu16;
    assert_eq!(get_low_order_byte(&byte), 0xffu8);
    let byte = 0xff00u16;
    assert_eq!(get_low_order_byte(&byte), 0u8);
    let byte = 0b0110_0000_1001_1010u16;
    assert_eq!(get_low_order_byte(&byte), 0b1001_1010u8);
}

#[test]
fn test_convert_to_u16() {
    let low_order_byte = 0b0000_0000u8;
    let high_order_byte = 0b1111_1111u8;
    assert_eq!(
        convert_to_u16(&high_order_byte, &low_order_byte),
        0b1111_1111_0000_0000u16
    );
    assert_eq!(
        convert_to_u16(&low_order_byte, &high_order_byte),
        0b0000_0000_1111_1111u16
    );

    let low_order_byte = 0b0110_0101u8;
    let high_order_byte = 0b1010_1001u8;
    assert_eq!(
        convert_to_u16(&high_order_byte, &low_order_byte),
        0b1010_1001_0110_0101u16
    );
}

#[test]
fn test_fragment_offset() {
    let high_order_byte = 0b0110_0000;
    let low_order_byte = 0b0000_0000;
    let fragment_offset = FragmentOffset::unpack(&high_order_byte, &low_order_byte).unwrap();
    let expected_fragment_offset = FragmentOffset::new(true, true, 0).unwrap();
    assert_eq!(fragment_offset, expected_fragment_offset);
    assert_eq!(
        fragment_offset.to_bytes(),
        (high_order_byte, low_order_byte)
    );

    let high_order_byte = 0b0111_0010;
    let low_order_byte = 0b0010_0100;
    let fragment_offset = FragmentOffset::unpack(&high_order_byte, &low_order_byte).unwrap();
    let expected_fragment_offset_value = 0b0001_0010_0010_0100;
    let expected_fragment_offset =
        FragmentOffset::new(true, true, expected_fragment_offset_value).unwrap();
    assert_eq!(fragment_offset, expected_fragment_offset);
    assert_eq!(
        fragment_offset.to_bytes(),
        (high_order_byte, low_order_byte)
    );

    let invalid_offset = FragmentOffset::MAX_FRAGMENT_OFFSET + 1;
    assert!(FragmentOffset::new(true, true, invalid_offset).is_err());
    let mut fragment_offset = FragmentOffset::new(true, true, 0).unwrap();
    assert!(fragment_offset.set_fragment_offset(invalid_offset).is_err());
}

const A: u32 = 0xc0a8_0001;
const B: u32 = 0x0a00_0002;

fn packet(data: &[u8], options: &[u8]) -> IpPacket {
    IpPacket::new(A, B, Protocol::Tcp, 7, 9, data, 0x1234, false, options).unwrap()
}

#[test]
fn new_packet_has_the_fields_it_was_given() {
    let p = packet(&[1, 2, 3], &[]);
    assert_eq!(p.version(), 4);
    assert_eq!(p.internet_header_length(), 5);
    assert_eq!(p.type_of_service(), 0);
    assert_eq!(p.total_length(), 23);
    assert_eq!(p.identification(), 0x1234);
    assert_eq!(p.fragment_offset(), FragmentOffset::new(true, false, 0).unwrap());
    assert_eq!(p.time_to_live(), 9);
    assert_eq!(p.protocol(), Protocol::Tcp);
    assert_eq!(p.source_address(), A);
    assert!(p.source_address_set());
    assert_eq!(p.destination_address(), B);
    assert_eq!(p.get_data(), &[1, 2, 3]);
    assert_eq!(p.data(), &[1, 2, 3]);
    assert!(p.validate_checksum().is_ok());
}

#[test]
fn checksum_is_the_wrapping_sum_of_all_other_words() {
    let p = packet(&[], &[]);
    // 4500 + 0014 + 1234 + 4000 + 0906 + c0a8 + 0001 + 0a00 + 0002, modulo 10000
    assert_eq!(p.header_checksum(), 0x6af9);
    assert_eq!(p.calculate_checksum(), 0x6af9);
}

#[test]
fn options_are_padded_to_whole_words() {
    let p = packet(&[9], &[1, 2, 3, 4, 5]);
    assert_eq!(p.internet_header_length(), 7);
    assert_eq!(p.total_length(), 29);
    assert_eq!(p.option_data, vec![1, 2, 3, 4, 5, 0, 0, 0]);
    assert_eq!(p.header().len(), 28);
    assert!(p.validate_header().is_ok());
    assert!(p.validate_options().is_ok());
}

#[test]
fn packets_survive_the_wire() {
    let p = packet(&[1, 2, 3], &[4, 5, 6, 7]);
    let mut bytes = p.pack();
    // what follows the total length does not belong to the packet
    bytes.push(99);
    let q = IpPacket::unpack(&bytes).unwrap();
    assert_eq!(q.header, p.header);
    assert_eq!(q.option_data, vec![4, 5, 6, 7]);
    assert_eq!(q.data, vec![1, 2, 3]);
}

#[test]
fn setters_keep_the_checksum_right() {
    let mut p = packet(&[1], &[]);
    p.set_time_to_live(1);
    assert!(p.validate_checksum().is_ok());
    p.set_source_address(0x0102_0304);
    assert!(p.validate_checksum().is_ok());
    assert_eq!(p.source_address(), 0x0102_0304);
    p.set_destination_address(0x0506_0708);
    assert_eq!(p.destination_address(), 0x0506_0708);
    p.set_identification(77);
    assert_eq!(p.identification(), 77);
    p.set_protocol(Protocol::RIP);
    assert_eq!(p.protocol(), Protocol::RIP);
    p.set_fragment_offset(FragmentOffset::new(false, true, 300).unwrap());
    assert_eq!(p.fragment_offset().get_fragment_offset(), 300);
    assert!(p.fragment_offset().more_fragments);
    assert_eq!(IpPacket::unpack(&p.pack()).unwrap().header, p.header);
}

#[test]
fn packets_that_cannot_be_made() {
    let too_long = vec![0u8; 65516];
    let r = IpPacket::new(A, B, Protocol::Test, 0, 1, &too_long, 0, true, &[]);
    assert_eq!(r.err(), Some(IpPacketError::DataTooLong(65516)));
    let r = IpPacket::new(A, B, Protocol::Test, 0, 1, &[], 0, true, &[0u8; 41]);
    assert_eq!(r.err(), Some(IpPacketError::IhlTooLarge(16)));
    let r = IpPacket::new(A, B, Protocol::Test, 0, 1, &[], 0, true, &[0u8; 256]);
    assert_eq!(r.err(), Some(IpPacketError::OptionsTooLong(256)));
    let r = IpPacket::new(A, B, Protocol::Test, 0, 1, &[0u8; 65475], 0, true, &[0u8; 40]);
    assert_eq!(r.unwrap().total_length(), 65535);
    let mut p = packet(&[], &[]);
    assert_eq!(p.set_version(16), Err(IpPacketError::VersionTooLarge(16)));
    assert_eq!(p.set_internet_header_length(16), Err(IpPacketError::IhlTooLarge(16)));
}

#[test]
fn malformed_packets_are_refused() {
    let bytes = packet(&[1, 2, 3], &[]).pack();
    assert_eq!(IpPacket::unpack(&bytes[..19]).err(), Some(IpPacketError::TooShort(19)));
    assert_eq!(IpPacket::unpack(&bytes[..22]).err(), Some(IpPacketError::DataTruncated(22)));

    let mut b = bytes.clone();
    b[0] = 0x44;
    assert_eq!(IpPacket::unpack(&b).err(), Some(IpPacketError::IhlTooSmall(4)));
    b[0] = 0x46;
    assert_eq!(IpPacket::unpack(&b).err(), Some(IpPacketError::HeaderTruncated(23)));
    let mut b = bytes.clone();
    b[3] = 19;
    assert_eq!(IpPacket::unpack(&b).err(), Some(IpPacketError::TotalLengthTooSmall(19)));
    let mut b = bytes.clone();
    b[8] = 200;
    assert_eq!(IpPacket::unpack(&b).err(), Some(IpPacketError::ChecksumInvalid));

    let mut p = packet(&[], &[]);
    p.option_data = vec![0; 3];
    assert_eq!(p.validate_options(), Err(IpPacketError::OptionsNotPadded));
    assert_eq!(p.validate_header(), Err(IpPacketError::OptionsNotPadded));
}

#[test]
fn default_packets_have_no_source() {
    let p = IpPacket::new_with_defaults(B, Protocol::Test, b"hi").unwrap();
    assert!(!p.source_address_set());
    assert_eq!(p.destination_address(), B);
    assert_eq!(p.time_to_live(), 2);
    assert_eq!(p.identification(), 2);
    assert_eq!(p.data(), b"hi");
    assert!(IpPacket::new_with_defaults(B, Protocol::Test, &vec![0; 65516]).is_err());
}

#[test]
fn fragment_offset_errors() {
    assert_eq!(
        FragmentOffset::new(true, true, 8192),
        Err(IpPacketError::FragmentOffsetTooLarge(8192))
    );
    assert_eq!(FragmentOffset::unpack(&0x80, &0), Err(IpPacketError::ReservedFlagSet));
    let mut offset = FragmentOffset::new(false, false, 1).unwrap();
    assert_eq!(offset.set_fragment_offset(8191), Ok(()));
    assert_eq!(offset.to_bytes(), (0x1f, 0xff));
    assert_eq!(FragmentOffset::unpack(&0x1f, &0xff), Ok(offset));
}

#[test]
fn protocol_numbers() {
    assert_eq!(Protocol::try_from(0), Ok(Protocol::Test));
    assert_eq!(Protocol::try_from(6), Ok(Protocol::Tcp));
    assert_eq!(Protocol::try_from(200), Ok(Protocol::RIP));
    assert_eq!(Protocol::try_from(17), Err(UnrecognizedProtocol(17)));
    assert_eq!(Protocol::RIP.into(), 200);
    assert_eq!(Protocol::Tcp.into(), 6);
    assert_eq!(Protocol::Test.into(), 0);
    assert_eq!(Protocol::Tcp.to_string(), "Tcp");
}
