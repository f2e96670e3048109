use someip::{
    some_ip_value, someip_array, someip_dynamic_length, someip_enum_label, someip_string,
    someip_struct, Error, Feature, InnerError, SomeIPType, StringCoding, Value,
};

fn name(s: &str) -> String {
    s.to_string()
}

#[test]
fn unsigned_integers_are_big_endian() {
    let bytes: Vec<u8> = vec![0x01, 0x02, 0x03, 0x04, 0x05, 0x06, 0x07, 0x08, 0x09];
    let (rest, value) = some_ip_value(&bytes, &SomeIPType::UInt8).unwrap();
    assert_eq!(value, Value::UInt(0x01));
    assert_eq!(rest, &bytes[1..]);
    let (rest, value) = some_ip_value(&bytes, &SomeIPType::UInt16).unwrap();
    assert_eq!(value, Value::UInt(0x0102));
    assert_eq!(rest, &bytes[2..]);
    let (rest, value) = some_ip_value(&bytes, &SomeIPType::UInt32).unwrap();
    assert_eq!(value, Value::UInt(0x01020304));
    assert_eq!(rest, &bytes[4..]);
    let (rest, value) = some_ip_value(&bytes, &SomeIPType::UInt64).unwrap();
    assert_eq!(value, Value::UInt(0x0102030405060708));
    assert_eq!(rest, &bytes[8..]);
}

#[test]
fn unsigned_integers_at_their_maximum() {
    let bytes: Vec<u8> = vec![0xff; 8];
    assert_eq!(some_ip_value(&bytes, &SomeIPType::UInt8).unwrap().1, Value::UInt(0xff));
    assert_eq!(some_ip_value(&bytes, &SomeIPType::UInt16).unwrap().1, Value::UInt(0xffff));
    assert_eq!(some_ip_value(&bytes, &SomeIPType::UInt32).unwrap().1, Value::UInt(0xffff_ffff));
    assert_eq!(some_ip_value(&bytes, &SomeIPType::UInt64).unwrap().1, Value::UInt(u64::MAX));
}

#[test]
fn signed_integers_are_twos_complement() {
    let bytes: Vec<u8> = vec![0xff; 8];
    assert_eq!(some_ip_value(&bytes, &SomeIPType::SInt8).unwrap().1, Value::Int(-1));
    assert_eq!(some_ip_value(&bytes, &SomeIPType::SInt16).unwrap().1, Value::Int(-1));
    assert_eq!(some_ip_value(&bytes, &SomeIPType::SInt32).unwrap().1, Value::Int(-1));
    assert_eq!(some_ip_value(&bytes, &SomeIPType::SInt64).unwrap().1, Value::Int(-1));

    let bytes: Vec<u8> = vec![0x80, 0, 0, 0, 0, 0, 0, 0];
    assert_eq!(some_ip_value(&bytes, &SomeIPType::SInt8).unwrap().1, Value::Int(-128));
    assert_eq!(some_ip_value(&bytes, &SomeIPType::SInt16).unwrap().1, Value::Int(-32768));
    assert_eq!(some_ip_value(&bytes, &SomeIPType::SInt32).unwrap().1, Value::Int(-2147483648));
    assert_eq!(some_ip_value(&bytes, &SomeIPType::SInt64).unwrap().1, Value::Int(i64::MIN));

    let bytes: Vec<u8> = vec![0x7f, 0xff, 0xff, 0xff, 0xff, 0xff, 0xff, 0xff];
    assert_eq!(some_ip_value(&bytes, &SomeIPType::SInt8).unwrap().1, Value::Int(127));
    assert_eq!(some_ip_value(&bytes, &SomeIPType::SInt16).unwrap().1, Value::Int(32767));
    assert_eq!(some_ip_value(&bytes, &SomeIPType::SInt32).unwrap().1, Value::Int(2147483647));
    assert_eq!(some_ip_value(&bytes, &SomeIPType::SInt64).unwrap().1, Value::Int(i64::MAX));

    let bytes: Vec<u8> = vec![0xfe, 0xdc];
    let (rest, value) = some_ip_value(&bytes, &SomeIPType::SInt16).unwrap();
    assert_eq!(value, Value::Int(-292));
    assert!(rest.is_empty());
}

#[test]
fn floats_come_as_their_bit_patterns() {
    let bytes: Vec<u8> = vec![0x3f, 0x80, 0x00, 0x00, 0xaa];
    let (rest, value) = some_ip_value(&bytes, &SomeIPType::Float32).unwrap();
    assert_eq!(value, Value::Float32(0x3f80_0000));
    assert_eq!(rest, &bytes[4..]);
    match value {
        Value::Float32(bits) => assert_eq!(f32::from_bits(bits), 1.0f32),
        other => panic!("{:?}", other),
    }

    let bytes: Vec<u8> = vec![0xc0, 0x04, 0x00, 0x00, 0x00, 0x00, 0x00, 0x00];
    let (rest, value) = some_ip_value(&bytes, &SomeIPType::Float64).unwrap();
    assert_eq!(value, Value::Float64(0xc004_0000_0000_0000));
    assert!(rest.is_empty());
    match value {
        Value::Float64(bits) => assert_eq!(f64::from_bits(bits), -2.5f64),
        other => panic!("{:?}", other),
    }
}

#[test]
fn every_scalar_needs_its_width() {
    let scalars: [(SomeIPType, usize); 10] = [
        (SomeIPType::UInt8, 1),
        (SomeIPType::UInt16, 2),
        (SomeIPType::UInt32, 4),
        (SomeIPType::UInt64, 8),
        (SomeIPType::SInt8, 1),
        (SomeIPType::SInt16, 2),
        (SomeIPType::SInt32, 4),
        (SomeIPType::SInt64, 8),
        (SomeIPType::Float32, 4),
        (SomeIPType::Float64, 8),
    ];
    let bytes: Vec<u8> = vec![1, 2, 3, 4, 5, 6, 7, 8, 9, 10];
    for (def, width) in &scalars {
        for len in 0..*width {
            let input = &bytes[..len];
            let e = some_ip_value(input, def).unwrap_err();
            assert_eq!(
                e,
                Error::new(input, InnerError::InsufficientInput { needed: (*width - len) as u64 })
            );
        }
        for len in *width..bytes.len() {
            let (rest, _) = some_ip_value(&bytes[..len], def).unwrap();
            assert_eq!(rest.len(), len - *width);
        }
    }
}

#[test]
fn struct_keeps_declared_order() {
    let def = SomeIPType::Struct {
        fields: vec![
            (name("z"), SomeIPType::UInt8),
            (name("a"), SomeIPType::SInt8),
            (name("m"), SomeIPType::UInt16),
        ],
    };
    let bytes: Vec<u8> = vec![0x01, 0xff, 0x00, 0x02, 0x99];
    let (rest, value) = some_ip_value(&bytes, &def).unwrap();
    assert_eq!(rest, &bytes[4..]);
    assert_eq!(
        value,
        Value::Struct {
            fields: vec![
                (name("z"), Value::UInt(1)),
                (name("a"), Value::Int(-1)),
                (name("m"), Value::UInt(2)),
            ]
        }
    );
}

#[test]
fn empty_struct_takes_nothing() {
    let def = SomeIPType::Struct { fields: vec![] };
    let bytes: Vec<u8> = vec![];
    let (rest, value) = some_ip_value(&bytes, &def).unwrap();
    assert!(rest.is_empty());
    assert_eq!(value, Value::Struct { fields: vec![] });
    let bytes: Vec<u8> = vec![7, 8];
    let (rest, _) = some_ip_value(&bytes, &def).unwrap();
    assert_eq!(rest, &bytes[..]);
}

#[test]
fn struct_fails_as_a_whole() {
    let def = SomeIPType::Struct {
        fields: vec![(name("a"), SomeIPType::UInt32), (name("b"), SomeIPType::UInt16)],
    };
    let bytes: Vec<u8> = vec![0x12, 0x34, 0x56, 0x78, 0x9a];
    let e = some_ip_value(&bytes, &def).unwrap_err();
    assert_eq!(e, Error::new(&bytes[4..], InnerError::InsufficientInput { needed: 1 }));
    assert_eq!(e.offset_in(&bytes), 4);
}

#[test]
fn struct_function_alone() {
    let fields = vec![(name("a"), SomeIPType::UInt8), (name("b"), SomeIPType::UInt8)];
    let bytes: Vec<u8> = vec![3, 4, 5];
    let (rest, value) = someip_struct(&bytes, &fields).unwrap();
    assert_eq!(rest, &bytes[2..]);
    assert_eq!(
        value,
        Value::Struct { fields: vec![(name("a"), Value::UInt(3)), (name("b"), Value::UInt(4))] }
    );
    let e = someip_struct(&bytes[..1], &fields).unwrap_err();
    assert_eq!(e, Error::new(&bytes[1..1], InnerError::InsufficientInput { needed: 1 }));
}

#[test]
fn static_array_takes_its_declared_count() {
    let def = SomeIPType::StaticArray { length: 3, element: Box::new(SomeIPType::UInt16) };
    let bytes: Vec<u8> = vec![0, 1, 0, 2, 0, 3, 0, 4];
    let (rest, value) = some_ip_value(&bytes, &def).unwrap();
    assert_eq!(rest, &bytes[6..]);
    assert_eq!(value, Value::Array(vec![Value::UInt(1), Value::UInt(2), Value::UInt(3)]));
}

#[test]
fn static_array_of_none() {
    let def = SomeIPType::StaticArray { length: 0, element: Box::new(SomeIPType::UInt64) };
    let bytes: Vec<u8> = vec![];
    let (rest, value) = some_ip_value(&bytes, &def).unwrap();
    assert!(rest.is_empty());
    assert_eq!(value, Value::Array(vec![]));
}

#[test]
fn static_array_cut_short() {
    let def = SomeIPType::StaticArray { length: 3, element: Box::new(SomeIPType::UInt16) };
    let bytes: Vec<u8> = vec![0, 1, 0, 2, 0];
    let e = some_ip_value(&bytes, &def).unwrap_err();
    assert_eq!(e, Error::new(&bytes[4..], InnerError::InsufficientInput { needed: 1 }));
    assert_eq!(e.offset_in(&bytes), 4);
}

#[test]
fn array_function_alone() {
    let bytes: Vec<u8> = vec![0xff, 0x01, 0x80, 0x7f];
    let (rest, value) = someip_array(&bytes, &SomeIPType::SInt8, 3).unwrap();
    assert_eq!(rest, &bytes[3..]);
    assert_eq!(value, Value::Array(vec![Value::Int(-1), Value::Int(1), Value::Int(-128)]));
    let (rest, value) = someip_array(&bytes, &SomeIPType::SInt8, 0).unwrap();
    assert_eq!(rest, &bytes[..]);
    assert_eq!(value, Value::Array(vec![]));
    let e = someip_array(&bytes, &SomeIPType::SInt8, 5).unwrap_err();
    assert_eq!(e, Error::new(&bytes[4..], InnerError::InsufficientInput { needed: 1 }));
}

fn dynamic_array_case(width: u8, prefix: &[u8], count: usize) {
    let def = SomeIPType::DynamicArray {
        length_width: width,
        element: Box::new(SomeIPType::UInt16),
    };
    let mut bytes: Vec<u8> = prefix.to_vec();
    let mut expected: Vec<Value> = Vec::new();
    for i in 0..count {
        bytes.push((i >> 8) as u8);
        bytes.push(i as u8);
        expected.push(Value::UInt(i as u64));
    }
    bytes.extend_from_slice(&[0xde, 0xad, 0xbe]);
    let (rest, value) = some_ip_value(&bytes, &def).unwrap();
    assert_eq!(bytes.len() - rest.len(), prefix.len() + count * 2);
    assert_eq!(rest, &[0xde, 0xad, 0xbe]);
    assert_eq!(value, Value::Array(expected));
}

#[test]
fn dynamic_array_with_8_bit_length() {
    dynamic_array_case(8, &[0], 0);
    dynamic_array_case(8, &[1], 1);
    dynamic_array_case(8, &[5], 5);
    dynamic_array_case(8, &[255], 255);
}

#[test]
fn dynamic_array_with_16_bit_length() {
    dynamic_array_case(16, &[0, 0], 0);
    dynamic_array_case(16, &[0, 3], 3);
    dynamic_array_case(16, &[1, 0], 256);
    dynamic_array_case(16, &[0x01, 0x2c], 300);
}

#[test]
fn dynamic_array_with_32_bit_length() {
    dynamic_array_case(32, &[0, 0, 0, 0], 0);
    dynamic_array_case(32, &[0, 0, 0, 2], 2);
    dynamic_array_case(32, &[0, 0, 1, 1], 257);
}

#[test]
fn dynamic_array_with_64_bit_length() {
    dynamic_array_case(64, &[0, 0, 0, 0, 0, 0, 0, 0], 0);
    dynamic_array_case(64, &[0, 0, 0, 0, 0, 0, 0, 4], 4);
    dynamic_array_case(64, &[0, 0, 0, 0, 0, 0, 1, 2], 258);
}

#[test]
fn empty_dynamic_array_on_nothing_but_its_prefix() {
    for (width, prefix) in [(8u8, 1usize), (16, 2), (32, 4), (64, 8)] {
        let def = SomeIPType::DynamicArray {
            length_width: width,
            element: Box::new(SomeIPType::UInt64),
        };
        let bytes: Vec<u8> = vec![0; prefix];
        let (rest, value) = some_ip_value(&bytes, &def).unwrap();
        assert!(rest.is_empty());
        assert_eq!(value, Value::Array(vec![]));
    }
}

#[test]
fn empty_dynamic_string_on_nothing_but_its_prefix() {
    for (width, prefix) in [(8u8, 1usize), (16, 2), (32, 4), (64, 8)] {
        for coding in [None, Some(StringCoding::Utf8)] {
            let def = SomeIPType::DynamicString { length_width: width, coding };
            let bytes: Vec<u8> = vec![0; prefix];
            let (rest, value) = some_ip_value(&bytes, &def).unwrap();
            assert!(rest.is_empty());
            assert_eq!(value, Value::String(String::new()));
        }
    }
}

#[test]
fn empty_dynamic_constructs_leave_what_follows() {
    let bytes: Vec<u8> = vec![0, 0, 0x41, 0x42];
    let def = SomeIPType::DynamicArray { length_width: 16, element: Box::new(SomeIPType::UInt8) };
    let (rest, value) = some_ip_value(&bytes, &def).unwrap();
    assert_eq!(rest, &bytes[2..]);
    assert_eq!(value, Value::Array(vec![]));
    let def = SomeIPType::DynamicString { length_width: 16, coding: None };
    let (rest, value) = some_ip_value(&bytes, &def).unwrap();
    assert_eq!(rest, &bytes[2..]);
    assert_eq!(value, Value::String(String::new()));
}

#[test]
fn dynamic_array_whose_count_is_not_there() {
    let def = SomeIPType::DynamicArray { length_width: 8, element: Box::new(SomeIPType::UInt32) };
    let bytes: Vec<u8> = vec![3, 0, 0, 0, 1, 0, 0, 0, 2, 0, 0];
    let e = some_ip_value(&bytes, &def).unwrap_err();
    assert_eq!(e, Error::new(&bytes[9..], InnerError::InsufficientInput { needed: 2 }));
    assert_eq!(e.offset_in(&bytes), 9);
}

#[test]
fn dynamic_array_with_a_huge_count_fails_cleanly() {
    let def = SomeIPType::DynamicArray { length_width: 64, element: Box::new(SomeIPType::UInt8) };
    let bytes: Vec<u8> = vec![0xff, 0xff, 0xff, 0xff, 0xff, 0xff, 0xff, 0xff, 1, 2, 3];
    let e = some_ip_value(&bytes, &def).unwrap_err();
    assert_eq!(e, Error::new(&bytes[11..], InnerError::InsufficientInput { needed: 1 }));
    assert_eq!(e.offset_in(&bytes), 11);

    let def = SomeIPType::DynamicArray { length_width: 32, element: Box::new(SomeIPType::UInt64) };
    let bytes: Vec<u8> = vec![0xff, 0xff, 0xff, 0xff];
    let e = some_ip_value(&bytes, &def).unwrap_err();
    assert_eq!(e, Error::new(&bytes[4..], InnerError::InsufficientInput { needed: 8 }));
}

#[test]
fn dynamic_array_without_its_prefix() {
    let def = SomeIPType::DynamicArray { length_width: 32, element: Box::new(SomeIPType::UInt8) };
    let bytes: Vec<u8> = vec![0, 0, 1];
    let e = some_ip_value(&bytes, &def).unwrap_err();
    assert_eq!(e, Error::new(&bytes[..], InnerError::InsufficientInput { needed: 1 }));
    assert_eq!(e.offset_in(&bytes), 0);
}

#[test]
fn length_prefix_of_each_width() {
    let bytes: Vec<u8> = vec![0x01, 0x02, 0x03, 0x04, 0x05, 0x06, 0x07, 0x08, 0x09];
    assert_eq!(someip_dynamic_length(&bytes, 8), Ok((&bytes[1..], 0x01)));
    assert_eq!(someip_dynamic_length(&bytes, 16), Ok((&bytes[2..], 0x0102)));
    assert_eq!(someip_dynamic_length(&bytes, 32), Ok((&bytes[4..], 0x01020304)));
    assert_eq!(someip_dynamic_length(&bytes, 64), Ok((&bytes[8..], 0x0102030405060708)));
    let bytes: Vec<u8> = vec![0xff; 8];
    assert_eq!(someip_dynamic_length(&bytes, 8), Ok((&bytes[1..], 0xff)));
    assert_eq!(someip_dynamic_length(&bytes, 64), Ok((&bytes[8..], u64::MAX)));
}

#[test]
fn length_prefix_cut_short() {
    let bytes: Vec<u8> = vec![1, 2, 3];
    assert_eq!(
        someip_dynamic_length(&bytes[..0], 8),
        Err(Error::new(&bytes[..0], InnerError::InsufficientInput { needed: 1 }))
    );
    assert_eq!(
        someip_dynamic_length(&bytes[..1], 16),
        Err(Error::new(&bytes[..1], InnerError::InsufficientInput { needed: 1 }))
    );
    assert_eq!(
        someip_dynamic_length(&bytes, 32),
        Err(Error::new(&bytes[..], InnerError::InsufficientInput { needed: 1 }))
    );
    assert_eq!(
        someip_dynamic_length(&bytes, 64),
        Err(Error::new(&bytes[..], InnerError::InsufficientInput { needed: 5 }))
    );
}

#[test]
fn length_width_outside_the_four_is_malformed() {
    let bytes: Vec<u8> = vec![0, 0, 0, 1, 9, 9, 9, 9, 9];
    for width in [0u8, 1, 7, 9, 12, 24, 33, 48, 63, 65, 128, 255] {
        assert_eq!(
            someip_dynamic_length(&bytes, width),
            Err(Error::new(&bytes[..], InnerError::MalformedLength { width }))
        );
        let def = SomeIPType::DynamicArray {
            length_width: width,
            element: Box::new(SomeIPType::UInt8),
        };
        let e = some_ip_value(&bytes, &def).unwrap_err();
        assert_eq!(e, Error::new(&bytes[..], InnerError::MalformedLength { width }));
        let def = SomeIPType::DynamicString { length_width: width, coding: None };
        let e = some_ip_value(&bytes, &def).unwrap_err();
        assert_eq!(e, Error::new(&bytes[..], InnerError::MalformedLength { width }));
        assert_eq!(e.offset_in(&bytes), 0);
    }
}

#[test]
fn malformed_length_is_reported_even_on_empty_input() {
    let bytes: Vec<u8> = vec![];
    let def = SomeIPType::DynamicString { length_width: 24, coding: None };
    let e = some_ip_value(&bytes, &def).unwrap_err();
    assert_eq!(e.error, InnerError::MalformedLength { width: 24 });
}

fn colours() -> SomeIPType {
    SomeIPType::Enum {
        variants: vec![(0, name("red")), (1, name("green")), (7, name("blue")), (1, name("lime"))],
    }
}

#[test]
fn enum_label_is_looked_up() {
    let def = colours();
    let bytes: Vec<u8> = vec![7, 0, 1];
    let (rest, value) = some_ip_value(&bytes, &def).unwrap();
    assert_eq!(value, Value::Enum(name("blue")));
    assert_eq!(rest, &bytes[1..]);
    let (_, value) = some_ip_value(&bytes[1..], &def).unwrap();
    assert_eq!(value, Value::Enum(name("red")));
}

#[test]
fn enum_with_a_repeated_ordinal_gives_the_first() {
    let def = colours();
    let bytes: Vec<u8> = vec![1];
    let (rest, value) = some_ip_value(&bytes, &def).unwrap();
    assert_eq!(value, Value::Enum(name("green")));
    assert!(rest.is_empty());
}

#[test]
fn unknown_enumerant_is_an_error_at_its_byte() {
    let def = colours();
    let bytes: Vec<u8> = vec![2, 0];
    let e = some_ip_value(&bytes, &def).unwrap_err();
    assert_eq!(e, Error::new(&bytes[..], InnerError::UnknownEnumerant { ordinal: 2 }));
    assert_eq!(e.offset_in(&bytes), 0);
}

#[test]
fn unknown_enumerant_inside_a_struct() {
    let def = SomeIPType::Struct {
        fields: vec![(name("id"), SomeIPType::UInt16), (name("colour"), colours())],
    };
    let bytes: Vec<u8> = vec![0, 1, 0xee, 5];
    let e = some_ip_value(&bytes, &def).unwrap_err();
    assert_eq!(e, Error::new(&bytes[2..], InnerError::UnknownEnumerant { ordinal: 0xee }));
    assert_eq!(e.offset_in(&bytes), 2);
}

#[test]
fn enum_ordinal_above_a_byte_is_never_found() {
    let def = SomeIPType::Enum { variants: vec![(0x100, name("wide")), (0x1ff, name("wider"))] };
    let bytes: Vec<u8> = vec![0x00];
    let e = some_ip_value(&bytes, &def).unwrap_err();
    assert_eq!(e.error, InnerError::UnknownEnumerant { ordinal: 0 });
    let bytes: Vec<u8> = vec![0xff];
    let e = some_ip_value(&bytes, &def).unwrap_err();
    assert_eq!(e.error, InnerError::UnknownEnumerant { ordinal: 0xff });
}

#[test]
fn enum_without_variants_knows_no_ordinal() {
    let def = SomeIPType::Enum { variants: vec![] };
    let bytes: Vec<u8> = vec![0];
    let e = some_ip_value(&bytes, &def).unwrap_err();
    assert_eq!(e.error, InnerError::UnknownEnumerant { ordinal: 0 });
}

#[test]
fn enum_on_empty_input() {
    let def = colours();
    let bytes: Vec<u8> = vec![];
    let e = some_ip_value(&bytes, &def).unwrap_err();
    assert_eq!(e, Error::new(&bytes[..], InnerError::InsufficientInput { needed: 1 }));
}

#[test]
fn enum_label_function_alone() {
    let variants = vec![(3u64, name("three")), (4, name("four")), (3, name("drei"))];
    assert_eq!(someip_enum_label(&variants, 3), Some(name("three")));
    assert_eq!(someip_enum_label(&variants, 4), Some(name("four")));
    assert_eq!(someip_enum_label(&variants, 5), None);
    assert_eq!(someip_enum_label(&variants, u64::MAX), None);
    assert_eq!(someip_enum_label(&vec![], 0), None);
}

#[test]
fn static_string_of_utf8() {
    let bytes: Vec<u8> = b"hello world".to_vec();
    for coding in [None, Some(StringCoding::Utf8)] {
        let def = SomeIPType::StaticString { length: 5, coding };
        let (rest, value) = some_ip_value(&bytes, &def).unwrap();
        assert_eq!(value, Value::String(name("hello")));
        assert_eq!(rest, b" world");
    }
}

#[test]
fn static_string_with_many_byte_characters() {
    let text = "gr\u{fc}\u{df}e \u{20ac} \u{1f600}";
    let bytes: Vec<u8> = text.as_bytes().to_vec();
    let def = SomeIPType::StaticString { length: bytes.len() as u32, coding: None };
    let (rest, value) = some_ip_value(&bytes, &def).unwrap();
    assert!(rest.is_empty());
    assert_eq!(value, Value::String(name(text)));
}

#[test]
fn static_string_of_no_bytes() {
    let def = SomeIPType::StaticString { length: 0, coding: None };
    let bytes: Vec<u8> = vec![0xff];
    let (rest, value) = some_ip_value(&bytes, &def).unwrap();
    assert_eq!(rest, &bytes[..]);
    assert_eq!(value, Value::String(String::new()));
}

#[test]
fn dynamic_string_of_each_width() {
    let cases: [(u8, Vec<u8>); 4] = [
        (8, vec![3]),
        (16, vec![0, 3]),
        (32, vec![0, 0, 0, 3]),
        (64, vec![0, 0, 0, 0, 0, 0, 0, 3]),
    ];
    for (width, prefix) in cases {
        let mut bytes = prefix.clone();
        bytes.extend_from_slice(b"abcdef");
        let def = SomeIPType::DynamicString {
            length_width: width,
            coding: Some(StringCoding::Utf8),
        };
        let (rest, value) = some_ip_value(&bytes, &def).unwrap();
        assert_eq!(value, Value::String(name("abc")));
        assert_eq!(rest, b"def");
    }
}

#[test]
fn string_cut_short() {
    let bytes: Vec<u8> = b"abc".to_vec();
    let def = SomeIPType::StaticString { length: 5, coding: None };
    let e = some_ip_value(&bytes, &def).unwrap_err();
    assert_eq!(e, Error::new(&bytes[..], InnerError::InsufficientInput { needed: 2 }));

    let bytes: Vec<u8> = vec![0, 9, b'a', b'b'];
    let def = SomeIPType::DynamicString { length_width: 16, coding: None };
    let e = some_ip_value(&bytes, &def).unwrap_err();
    assert_eq!(e, Error::new(&bytes[2..], InnerError::InsufficientInput { needed: 7 }));
    assert_eq!(e.offset_in(&bytes), 2);
}

#[test]
fn string_with_a_huge_length_fails_cleanly() {
    let bytes: Vec<u8> = vec![0xff, 0xff, 0xff, 0xff, 0xff, 0xff, 0xff, 0xff, b'a', b'b'];
    let def = SomeIPType::DynamicString { length_width: 64, coding: None };
    let e = some_ip_value(&bytes, &def).unwrap_err();
    assert_eq!(e, Error::new(&bytes[8..], InnerError::InsufficientInput { needed: u64::MAX - 2 }));
}

#[test]
fn invalid_utf8_is_invalid_text() {
    let bytes: Vec<u8> = vec![b'a', 0xff, b'b', b'c'];
    let def = SomeIPType::StaticString { length: 3, coding: Some(StringCoding::Utf8) };
    let e = some_ip_value(&bytes, &def).unwrap_err();
    assert_eq!(e, Error::new(&bytes[..], InnerError::InvalidText { valid_up_to: 1 }));

    let bytes: Vec<u8> = vec![0xe2, 0x82];
    let def = SomeIPType::StaticString { length: 2, coding: None };
    let e = some_ip_value(&bytes, &def).unwrap_err();
    assert_eq!(e.error, InnerError::InvalidText { valid_up_to: 0 });

    let bytes: Vec<u8> = vec![5, b'o', b'k', 0xc3, 0xa9, 0x80, b'z'];
    let def = SomeIPType::DynamicString { length_width: 8, coding: None };
    let e = some_ip_value(&bytes, &def).unwrap_err();
    assert_eq!(e, Error::new(&bytes[1..], InnerError::InvalidText { valid_up_to: 4 }));
    assert_eq!(e.offset_in(&bytes), 1);
}

#[test]
fn text_is_judged_on_its_own_bytes_only() {
    let bytes: Vec<u8> = vec![b'o', b'k', 0xff, 0xfe];
    let def = SomeIPType::StaticString { length: 2, coding: None };
    let (rest, value) = some_ip_value(&bytes, &def).unwrap();
    assert_eq!(value, Value::String(name("ok")));
    assert_eq!(rest, &bytes[2..]);
}

#[test]
fn utf16_is_an_unsupported_feature() {
    let bytes: Vec<u8> = vec![0, b'h', 0, b'i'];
    let def = SomeIPType::StaticString { length: 4, coding: Some(StringCoding::Utf16) };
    let e = some_ip_value(&bytes, &def).unwrap_err();
    assert_eq!(e, Error::new(&bytes[..], InnerError::UnsupportedFeature { what: Feature::Utf16 }));

    let bytes: Vec<u8> = vec![2, 0, b'h'];
    let def = SomeIPType::DynamicString { length_width: 8, coding: Some(StringCoding::Utf16) };
    let e = some_ip_value(&bytes, &def).unwrap_err();
    assert_eq!(
        e,
        Error::new(&bytes[1..], InnerError::UnsupportedFeature { what: Feature::Utf16 })
    );

    let bytes: Vec<u8> = vec![0];
    let e = some_ip_value(&bytes, &def).unwrap_err();
    assert_eq!(e.error, InnerError::UnsupportedFeature { what: Feature::Utf16 });
}

#[test]
fn utf16_string_cut_short_is_short_first() {
    let bytes: Vec<u8> = vec![0, b'h'];
    let def = SomeIPType::StaticString { length: 4, coding: Some(StringCoding::Utf16) };
    let e = some_ip_value(&bytes, &def).unwrap_err();
    assert_eq!(e.error, InnerError::InsufficientInput { needed: 2 });
}

#[test]
fn string_function_alone() {
    let bytes: Vec<u8> = b"xyz!".to_vec();
    let (rest, value) = someip_string(&bytes, 3, &None).unwrap();
    assert_eq!(value, Value::String(name("xyz")));
    assert_eq!(rest, b"!");
    let e = someip_string(&bytes, 5, &Some(StringCoding::Utf8)).unwrap_err();
    assert_eq!(e, Error::new(&bytes[..], InnerError::InsufficientInput { needed: 1 }));
    let e = someip_string(&bytes, 4, &Some(StringCoding::Utf16)).unwrap_err();
    assert_eq!(e.error, InnerError::UnsupportedFeature { what: Feature::Utf16 });
}

fn nested() -> SomeIPType {
    SomeIPType::Struct {
        fields: vec![
            (name("count"), SomeIPType::UInt8),
            (
                name("entries"),
                SomeIPType::DynamicArray {
                    length_width: 8,
                    element: Box::new(SomeIPType::Struct {
                        fields: vec![
                            (
                                name("label"),
                                SomeIPType::DynamicString { length_width: 8, coding: None },
                            ),
                            (
                                name("points"),
                                SomeIPType::StaticArray {
                                    length: 2,
                                    element: Box::new(SomeIPType::SInt16),
                                },
                            ),
                            (
                                name("kind"),
                                SomeIPType::Enum {
                                    variants: vec![(1, name("on")), (2, name("off"))],
                                },
                            ),
                        ],
                    }),
                },
            ),
            (name("crc"), SomeIPType::UInt32),
        ],
    }
}

fn nested_bytes() -> Vec<u8> {
    vec![
        9, // count
        2, // two entries
        2, b'h', b'i', 0x00, 0x01, 0xff, 0xff, 1, // first entry
        0, 0x12, 0x34, 0x80, 0x00, 2, // second entry, empty label
        0xde, 0xad, 0xbe, 0xef, // crc
        0x55, // not part of the value
    ]
}

#[test]
fn nested_composition() {
    let def = nested();
    let bytes = nested_bytes();
    let (rest, value) = some_ip_value(&bytes, &def).unwrap();
    assert_eq!(rest, &[0x55]);
    let entry = |label: &str, a: i64, b: i64, kind: &str| Value::Struct {
        fields: vec![
            (name("label"), Value::String(name(label))),
            (name("points"), Value::Array(vec![Value::Int(a), Value::Int(b)])),
            (name("kind"), Value::Enum(name(kind))),
        ],
    };
    assert_eq!(
        value,
        Value::Struct {
            fields: vec![
                (name("count"), Value::UInt(9)),
                (
                    name("entries"),
                    Value::Array(vec![entry("hi", 1, -1, "on"), entry("", 0x1234, -32768, "off")])
                ),
                (name("crc"), Value::UInt(0xdeadbeef)),
            ]
        }
    );
}

#[test]
fn nested_composition_cut_anywhere_is_insufficient_input() {
    let def = nested();
    let bytes = nested_bytes();
    let whole = bytes.len() - 1;
    for len in 0..whole {
        let e = some_ip_value(&bytes[..len], &def).unwrap_err();
        match e.error {
            InnerError::InsufficientInput { needed } => assert!(needed >= 1),
            other => panic!("cut at {}: {:?}", len, other),
        }
        assert!(e.offset_in(&bytes[..len]) <= len);
    }
    assert!(some_ip_value(&bytes[..whole], &def).is_ok());
}

#[test]
fn nested_error_keeps_its_place() {
    let def = nested();
    let mut bytes = nested_bytes();
    bytes[15] = 3; // the second entry's kind
    let e = some_ip_value(&bytes, &def).unwrap_err();
    assert_eq!(e, Error::new(&bytes[15..], InnerError::UnknownEnumerant { ordinal: 3 }));
    assert_eq!(e.offset_in(&bytes), 15);
}

#[test]
fn decoding_twice_gives_the_same() {
    let def = nested();
    let bytes = nested_bytes();
    let first = some_ip_value(&bytes, &def);
    let second = some_ip_value(&bytes, &def);
    assert_eq!(first, second);
    assert!(first.is_ok());
    let first = some_ip_value(&bytes[..7], &def);
    let second = some_ip_value(&bytes[..7], &def);
    assert_eq!(first, second);
    assert!(first.is_err());
    assert_eq!(def, nested());
}

#[test]
fn error_new_keeps_its_parts() {
    let bytes: Vec<u8> = vec![1, 2, 3];
    let e = Error::new(&bytes[1..], InnerError::MalformedLength { width: 9 });
    assert_eq!(e.input, &bytes[1..]);
    assert_eq!(e.error, InnerError::MalformedLength { width: 9 });
    assert_eq!(e.offset_in(&bytes), 1);
    assert_eq!(e.offset_in(&bytes[..1]), 0);
}
