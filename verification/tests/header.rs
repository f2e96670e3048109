use someip::{some_ip_header, Error, InnerError, SomeIPHeader, SomeIPMessageType};

fn sample() -> Vec<u8> {
    vec![
        0xff, 0xff, 0x81, 0x0, 0x0, 0x0, 0x0, 0x30, 0x0, 0x0, 0x0, 0x3, 0x1, 0x1, 0x2, 0x0, 0xc0,
        0x0, 0x0, 0x0, 0x0, 0x0, 0x0, 0x10, 0x1, 0x0, 0x0, 0x10, 0x0, 0xeb, 0x0, 0x0, 0x1, 0x0,
        0x0, 0x1e, 0x0, 0x0, 0x0, 0x0, 0x0, 0x0, 0x0, 0xc, 0x0, 0x9, 0x4, 0x0, 0xc0, 0xa8, 0x58,
        0x49, 0x0, 0x11, 0xc3, 0x50,
    ]
}

fn header_with_type(byte: u8) -> SomeIPMessageType {
    let mut bytes = sample();
    bytes[14] = byte;
    let (_, header) = some_ip_header(&bytes).unwrap();
    header.message_type
}

#[test]
fn header_leaves_the_payload() {
    let bytes = sample();
    let (payload, header) = some_ip_header(&bytes).unwrap();
    assert_eq!(payload, &bytes[16..]);
    assert_eq!(payload.len(), 40);
    assert_eq!(payload.len() as u32, header.length - 8);
}

#[test]
fn header_is_the_whole_struct() {
    let bytes = sample();
    let (_, header) = some_ip_header(&bytes).unwrap();
    assert_eq!(
        header,
        SomeIPHeader {
            service_id: 0xffff,
            method_id: 0x8100,
            length: 0x30,
            client_id: 0,
            session_id: 3,
            protocol_version: 1,
            interface_version: 1,
            message_type: SomeIPMessageType::Notification(),
            return_code: 0,
        }
    );
}

#[test]
fn header_of_exactly_sixteen_bytes() {
    let bytes: Vec<u8> = vec![
        0x12, 0x34, 0x56, 0x78, 0x9a, 0xbc, 0xde, 0xf0, 0x01, 0x02, 0x03, 0x04, 0x05, 0x06, 0x80,
        0x07,
    ];
    let (rest, header) = some_ip_header(&bytes).unwrap();
    assert!(rest.is_empty());
    assert_eq!(header.service_id, 0x1234);
    assert_eq!(header.method_id, 0x5678);
    assert_eq!(header.length, 0x9abcdef0);
    assert_eq!(header.client_id, 0x0102);
    assert_eq!(header.session_id, 0x0304);
    assert_eq!(header.protocol_version, 0x05);
    assert_eq!(header.interface_version, 0x06);
    assert_eq!(header.message_type, SomeIPMessageType::Response());
    assert_eq!(header.return_code, 0x07);
}

#[test]
fn message_type_table() {
    assert_eq!(header_with_type(0x00), SomeIPMessageType::Request());
    assert_eq!(header_with_type(0x01), SomeIPMessageType::RequestNoReturn());
    assert_eq!(header_with_type(0x02), SomeIPMessageType::Notification());
    assert_eq!(header_with_type(0x80), SomeIPMessageType::Response());
    assert_eq!(header_with_type(0x81), SomeIPMessageType::Error());
    assert_eq!(header_with_type(0x20), SomeIPMessageType::TPRequest());
    assert_eq!(header_with_type(0x21), SomeIPMessageType::TPRequestNoReturn());
    assert_eq!(header_with_type(0x22), SomeIPMessageType::TPNotification());
}

#[test]
fn message_type_outside_the_table_is_unknown() {
    assert_eq!(header_with_type(0x03), SomeIPMessageType::Unknown());
    assert_eq!(header_with_type(0x1f), SomeIPMessageType::Unknown());
    assert_eq!(header_with_type(0x23), SomeIPMessageType::Unknown());
    assert_eq!(header_with_type(0x7f), SomeIPMessageType::Unknown());
    assert_eq!(header_with_type(0x82), SomeIPMessageType::Unknown());
    assert_eq!(header_with_type(0xff), SomeIPMessageType::Unknown());
}

#[test]
fn message_type_from_byte() {
    assert_eq!(SomeIPMessageType::from(0x00), SomeIPMessageType::Request());
    assert_eq!(SomeIPMessageType::from(0x22), SomeIPMessageType::TPNotification());
    assert_eq!(SomeIPMessageType::from(0x81), SomeIPMessageType::Error());
    assert_eq!(SomeIPMessageType::from(0x40), SomeIPMessageType::Unknown());
    let converted: SomeIPMessageType = 0x80u8.into();
    assert_eq!(converted, SomeIPMessageType::Response());
}

#[test]
fn header_fails_only_when_short() {
    let bytes = sample();
    for len in 0..16 {
        assert!(some_ip_header(&bytes[..len]).is_err());
    }
    for len in 16..=bytes.len() {
        assert!(some_ip_header(&bytes[..len]).is_ok());
    }
}

#[test]
fn empty_header_needs_the_first_field() {
    let bytes: Vec<u8> = vec![];
    let e = some_ip_header(&bytes).unwrap_err();
    assert_eq!(e.error, InnerError::InsufficientInput { needed: 2 });
    assert_eq!(e.offset_in(&bytes), 0);
}

#[test]
fn short_header_fails_at_the_field_cut_short() {
    let bytes = sample();
    // (length of the input, offset of the field that fails, bytes missing)
    let cases: [(usize, usize, u64); 16] = [
        (0, 0, 2),
        (1, 0, 1),
        (2, 2, 2),
        (3, 2, 1),
        (4, 4, 4),
        (5, 4, 3),
        (6, 4, 2),
        (7, 4, 1),
        (8, 8, 2),
        (9, 8, 1),
        (10, 10, 2),
        (11, 10, 1),
        (12, 12, 1),
        (13, 13, 1),
        (14, 14, 1),
        (15, 15, 1),
    ];
    for (len, at, needed) in cases {
        let input = &bytes[..len];
        let e = some_ip_header(input).unwrap_err();
        assert_eq!(e, Error::new(&input[at..], InnerError::InsufficientInput { needed }));
        assert_eq!(e.offset_in(input), at);
    }
}

fn header_with_length(length: u32) -> SomeIPHeader {
    let mut bytes = sample();
    bytes[4..8].copy_from_slice(&length.to_be_bytes());
    some_ip_header(&bytes).unwrap().1
}

#[test]
fn payload_length_is_length_less_eight() {
    assert_eq!(header_with_length(0x30).payload_length(), Some(40));
    assert_eq!(header_with_length(8).payload_length(), Some(0));
    assert_eq!(header_with_length(9).payload_length(), Some(1));
    assert_eq!(header_with_length(u32::MAX).payload_length(), Some(u32::MAX - 8));
}

#[test]
fn payload_length_of_a_length_under_eight() {
    assert_eq!(header_with_length(0).payload_length(), None);
    assert_eq!(header_with_length(7).payload_length(), None);
}
