use serialization::Serializer;

#[test]
fn serialize_bool() {
    for (value, expected) in &[(false, &[0][..]), (true, &[1][..])] {
        let mut serializer = Serializer::new();
        serializer.serialize_bool(*value);
        assert_eq!(*expected, serializer.into_bytes());
    }
}

#[test]
fn serialize_i8() {
    for (value, expected) in &[(42_i8, &[42][..]), (-42_i8, &[0xD6][..])] {
        let mut serializer = Serializer::new();
        serializer.serialize_i8(*value);
        assert_eq!(*expected, serializer.into_bytes());
    }
}

#[test]
fn serialize_i16() {
    for (value, expected) in &[
        (42_i16, &[0x2A][..]),
        (-42_i16, &[0x6A][..]),
        (4000_i16, &[0x9F, 0x20][..]),
        (-4000_i16, &[0xDF, 0x20][..]),
        (9001_i16, &[0x80, 0xC6, 0x29][..]),
        (-9001_i16, &[0xC0, 0xC6, 0x29][..]),
    ] {
        let mut serializer = Serializer::new();
        serializer.serialize_i16(*value);
        assert_eq!(*expected, serializer.into_bytes());
    }
}

#[test]
fn serialize_i32() {
    for (value, expected) in &[
        (42_i32, &[0x2A][..]),
        (-42_i32, &[0x6A][..]),
        (4000_i32, &[0x9F, 0x20][..]),
        (-4000_i32, &[0xDF, 0x20][..]),
        (9001_i32, &[0x80, 0xC6, 0x29][..]),
        (-9001_i32, &[0xC0, 0xC6, 0x29][..]),
        (70_000_i32, &[0x84, 0xA2, 0x70][..]),
        (-70_000_i32, &[0xC4, 0xA2, 0x70][..]),
        (2_000_000_i32, &[0x80, 0xFA, 0x89, 0x00][..]),
        (-2_000_000_i32, &[0xC0, 0xFA, 0x89, 0x00][..]),
        (2_000_000_000_i32, &[0x87, 0xB9, 0xD6, 0xA8, 0x00][..]),
        (-2_000_000_000_i32, &[0xC7, 0xB9, 0xD6, 0xA8, 0x00][..]),
    ] {
        let mut serializer = Serializer::new();
        serializer.serialize_i32(*value);
        assert_eq!(*expected, serializer.into_bytes());
    }
}

#[test]
fn serialize_i64() {
    for (value, expected) in &[
        (42_i64, &[0x2A][..]),
        (-42_i64, &[0x6A][..]),
        (4000_i64, &[0x9F, 0x20][..]),
        (-4000_i64, &[0xDF, 0x20][..]),
        (9001_i64, &[0x80, 0xC6, 0x29][..]),
        (-9001_i64, &[0xC0, 0xC6, 0x29][..]),
        (70_000_i64, &[0x84, 0xA2, 0x70][..]),
        (-70_000_i64, &[0xC4, 0xA2, 0x70][..]),
        (2_000_000_i64, &[0x80, 0xFA, 0x89, 0x00][..]),
        (-2_000_000_i64, &[0xC0, 0xFA, 0x89, 0x00][..]),
        (2_000_000_000_i64, &[0x87, 0xB9, 0xD6, 0xA8, 0x00][..]),
        (-2_000_000_000_i64, &[0xC7, 0xB9, 0xD6, 0xA8, 0x00][..]),
        (2_000_000_000_000_i64, &[0xBA, 0x9A, 0xCA, 0xA8, 0xC0, 0x00][..]),
        (-2_000_000_000_000_i64, &[0xFA, 0x9A, 0xCA, 0xA8, 0xC0, 0x00][..]),
    ] {
        let mut serializer = Serializer::new();
        serializer.serialize_i64(*value);
        assert_eq!(*expected, serializer.into_bytes());
    }
}

#[test]
fn serialize_u8() {
    for (value, expected) in &[(42_u8, &[42][..]), (255_u8, &[0xFF][..])] {
        let mut serializer = Serializer::new();
        serializer.serialize_u8(*value);
        assert_eq!(*expected, serializer.into_bytes());
    }
}

#[test]
fn serialize_u16() {
    for (value, expected) in &[
        (42_u16, &[42][..]),
        (255_u16, &[0x81, 0x7F][..]),
        (9001_u16, &[0xC6, 0x29][..]),
        (40000_u16, &[0x82, 0xB8, 0x40][..]),
    ] {
        let mut serializer = Serializer::new();
        serializer.serialize_u16(*value);
        assert_eq!(*expected, serializer.into_bytes());
    }
}

#[test]
fn serialize_u32() {
    for (value, expected) in &[
        (42_u32, &[42][..]),
        (255_u32, &[0x81, 0x7F][..]),
        (9001_u32, &[0xC6, 0x29][..]),
        (40000_u32, &[0x82, 0xB8, 0x40][..]),
        (30_000_000_u32, &[0x8E, 0xA7, 0x87, 0x00][..]),
        (4_000_000_000_u32, &[0x8E, 0xF3, 0xAC, 0xD0, 0x00][..]),
    ] {
        let mut serializer = Serializer::new();
        serializer.serialize_u32(*value);
        assert_eq!(*expected, serializer.into_bytes());
    }
}

#[test]
fn serialize_u64() {
    for (value, expected) in &[
        (42_u64, &[42][..]),
        (255_u64, &[0x81, 0x7F][..]),
        (9001_u64, &[0xC6, 0x29][..]),
        (40000_u64, &[0x82, 0xB8, 0x40][..]),
        (30_000_000_u64, &[0x8E, 0xA7, 0x87, 0x00][..]),
        (4_000_000_000_u64, &[0x8E, 0xF3, 0xAC, 0xD0, 0x00][..]),
        (
            90_000_000_000_000_u64,
            &[0x94, 0xBB, 0xAC, 0x90, 0x9E, 0xC0, 0x00][..],
        ),
    ] {
        let mut serializer = Serializer::new();
        serializer.serialize_u64(*value);
        assert_eq!(*expected, serializer.into_bytes());
    }
}

#[test]
fn serialize_f32() {
    for (value, expected) in &[
        (3.141_592_5_f32, &[0x40, 0x49, 0x0F, 0xDA][..]),
        (-10_f32, &[0xC1, 0x20, 0x00, 0x00][..]),
    ] {
        let mut serializer = Serializer::new();
        serializer.serialize_f32_bits(value.to_bits());
        assert_eq!(*expected, serializer.into_bytes());
    }
}

#[test]
fn serialize_f64() {
    for (value, expected) in &[
        (
            3.141_592_653_5_f64,
            &[0x40, 0x09, 0x21, 0xFB, 0x54, 0x41, 0x17, 0x44][..],
        ),
        (-10_f64, &[0xC0, 0x24, 0x00, 0x00, 0x00, 0x00, 0x00, 0x00][..]),
    ] {
        let mut serializer = Serializer::new();
        serializer.serialize_f64_bits(value.to_bits());
        assert_eq!(*expected, serializer.into_bytes());
    }
}

#[test]
fn serialize_char() {
    for (value, expected) in &[
        ('X', &[88][..]),
        ('\u{a3}', &[0xC2, 0xA3][..]),
        ('\u{20ac}', &[0xE2, 0x82, 0xAC][..]),
        ('\u{1f4a9}', &[0xF0, 0x9F, 0x92, 0xA9][..]),
    ] {
        let mut serializer = Serializer::new();
        serializer.serialize_char(*value);
        assert_eq!(*expected, serializer.into_bytes());
    }
}

#[test]
fn serialize_str() {
    for (value, expected) in &[
        (
            "Hello, World!",
            &[
                0x0D, 0x48, 0x65, 0x6c, 0x6c, 0x6f, 0x2c, 0x20, 0x57, 0x6f, 0x72, 0x6c, 0x64,
                0x21,
            ][..],
        ),
        (
            "A\u{2262}\u{391}.",
            &[0x07, 0x41, 0xe2, 0x89, 0xa2, 0xce, 0x91, 0x2e][..],
        ),
    ] {
        let mut serializer = Serializer::new();
        serializer.serialize_str(value);
        assert_eq!(*expected, serializer.into_bytes());
    }
}

#[test]
fn serialize_bytes() {
    for (value, expected) in &[
        (&[][..], &[0x00][..]),
        (&[0x00_u8][..], &[0x01, 0x00][..]),
        (&[0x12, 0x34, 0x56][..], &[0x03, 0x12, 0x34, 0x56][..]),
    ] {
        let mut serializer = Serializer::new();
        serializer.serialize_bytes(value);
        assert_eq!(*expected, serializer.into_bytes());
    }
}

#[test]
fn serialize_none() {
    let mut serializer = Serializer::new();
    serializer.serialize_none();
    assert_eq!(&[0x00][..], serializer.into_bytes());
}

#[test]
fn serialize_some() {
    let mut serializer = Serializer::new();
    serializer.serialize_some();
    serializer.serialize_u8(42);
    assert_eq!(&[0x01, 42][..], serializer.into_bytes());
}

#[test]
fn serialize_unit() {
    let mut serializer = Serializer::new();
    serializer.serialize_unit();
    assert_eq!(&[][..] as &[u8], serializer.into_bytes());
}

#[test]
fn serialize_unit_struct() {
    // A unit struct has no wire representation at all.
    let serializer = Serializer::new();
    assert_eq!(&[][..] as &[u8], serializer.into_bytes());
}

#[test]
fn serialize_unit_variant() {
    for (variant_index, expected) in &[(0_u32, &[0x00][..]), (1_u32, &[0x01][..])] {
        let mut serializer = Serializer::new();
        serializer.serialize_variant_index(*variant_index);
        assert_eq!(*expected, serializer.into_bytes());
    }
}

#[test]
fn serialize_newtype_struct() {
    // A newtype struct is encoded as its single field, with no framing.
    let mut serializer = Serializer::new();
    serializer.serialize_u8(42);
    assert_eq!(&[42][..], serializer.into_bytes());
}

#[test]
fn serialize_newtype_variant() {
    let mut serializer = Serializer::new();
    serializer.serialize_variant_index(1);
    serializer.serialize_u8(42);
    assert_eq!(&[1, 42][..], serializer.into_bytes());
}

#[test]
fn serialize_seq() {
    for (value, expected) in &[
        (&[][..], &[0x00][..]),
        (&['a'][..], &[1, 97][..]),
        (&['a', 'b', 'c'][..], &[3, 97, 98, 99][..]),
    ] {
        let mut serializer = Serializer::new();
        serializer.serialize_seq(Some(value.len())).unwrap();
        for element in value.iter() {
            serializer.serialize_char(*element);
        }
        assert_eq!(*expected, serializer.into_bytes());
    }
}

#[test]
fn serialize_tuple() {
    // Tuples have no length prefix: the arity is implicit.
    let mut serializer = Serializer::new();
    serializer.serialize_char('a');
    serializer.serialize_char('b');
    assert_eq!(&[97, 98][..], serializer.into_bytes());
}

#[test]
fn serialize_tuple_struct() {
    let mut serializer = Serializer::new();
    serializer.serialize_i32(2);
    serializer.serialize_i32(4);
    serializer.serialize_i32(6);
    assert_eq!(&[2, 4, 6][..], serializer.into_bytes());
}

#[test]
fn serialize_tuple_variant() {
    let mut serializer = Serializer::new();
    serializer.serialize_variant_index(1);
    serializer.serialize_i32(2);
    serializer.serialize_i32(4);
    serializer.serialize_i32(6);
    assert_eq!(&[1, 2, 4, 6][..], serializer.into_bytes());
}

#[test]
fn serialize_map() {
    // Map entries travel in iteration order, which the format does not
    // canonicalize; either order of the two entries is the same map.
    let mut serializer = Serializer::new();
    serializer.serialize_map(Some(2)).unwrap();
    serializer.serialize_str("foo");
    serializer.serialize_u8(42);
    serializer.serialize_str("baz");
    serializer.serialize_u8(16);
    let serialization = serializer.into_bytes();
    assert!(
        serialization == &[2, 3, 102, 111, 111, 42, 3, 98, 97, 122, 16][..]
            || serialization == &[2, 3, 98, 97, 122, 16, 3, 102, 111, 111, 42][..]
    );
}

#[test]
fn serialize_struct() {
    let mut serializer = Serializer::new();
    serializer.serialize_u8(16);
    serializer.serialize_u8(42);
    assert_eq!(&[16, 42][..], serializer.into_bytes());
}

#[test]
fn serialize_struct_variant() {
    let mut serializer = Serializer::new();
    serializer.serialize_variant_index(1);
    serializer.serialize_u8(16);
    serializer.serialize_u8(42);
    assert_eq!(&[1, 16, 42][..], serializer.into_bytes());
}
