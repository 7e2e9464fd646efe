use serialization::{Deserializer, Error};

#[test]
fn deserialize_bool() {
    for (expected, value) in &[(false, &[0][..]), (true, &[1][..])] {
        let mut deserializer = Deserializer::new(value);
        assert_eq!(Ok(*expected), deserializer.parse_bool());
    }
}

#[test]
fn deserialize_i8() {
    for (expected, value) in &[(42_i8, &[42][..]), (-42_i8, &[0xD6][..])] {
        let mut deserializer = Deserializer::new(value);
        assert_eq!(Ok(*expected), deserializer.parse_i8());
    }
}

#[test]
fn deserialize_i16() {
    for (expected, value) in &[
        (42_i16, &[0x2A][..]),
        (-42_i16, &[0x6A][..]),
        (4000_i16, &[0x9F, 0x20][..]),
        (-4000_i16, &[0xDF, 0x20][..]),
        (9001_i16, &[0x80, 0xC6, 0x29][..]),
        (-9001_i16, &[0xC0, 0xC6, 0x29][..]),
        (32767_i16, &[0x81, 0xFF, 0x7F][..]),
        (-32768_i16, &[0xC2, 0x80, 0x00][..]),
    ] {
        let mut deserializer = Deserializer::new(value);
        assert_eq!(Ok(*expected), deserializer.parse_i16());
    }
    let mut deserializer = Deserializer::new(&[0xA0, 0xC6, 0xC9][..]);
    assert!(matches!(deserializer.parse_i16(), Err(Error::IntegerOverflow)));
}

#[test]
fn deserialize_i32() {
    for (expected, value) in &[
        (42_i32, &[0x2A][..]),
        (-42_i32, &[0x6A][..]),
        (4000_i32, &[0x9F, 0x20][..]),
        (-4000_i32, &[0xDF, 0x20][..]),
        (9001_i32, &[0x80, 0xC6, 0x29][..]),
        (-9001_i32, &[0xC0, 0xC6, 0x29][..]),
        (70_000_i32, &[0x84, 0xA2, 0x70][..]),
        (-70_000_i32, &[0xC4, 0xA2, 0x70][..]),
        (2_000_000_i32, &[0x80, 0xFA, 0x89, 0x00][..]),
        (-2_000_000_i32, &[0xC0, 0xFA, 0x89, 0x00][..]),
        (2_000_000_000_i32, &[0x87, 0xB9, 0xD6, 0xA8, 0x00][..]),
        (-2_000_000_000_i32, &[0xC7, 0xB9, 0xD6, 0xA8, 0x00][..]),
    ] {
        let mut deserializer = Deserializer::new(value);
        assert_eq!(Ok(*expected), deserializer.parse_i32());
    }
}

#[test]
fn deserialize_i64() {
    for (expected, value) in &[
        (42_i64, &[0x2A][..]),
        (-42_i64, &[0x6A][..]),
        (4000_i64, &[0x9F, 0x20][..]),
        (-4000_i64, &[0xDF, 0x20][..]),
        (9001_i64, &[0x80, 0xC6, 0x29][..]),
        (-9001_i64, &[0xC0, 0xC6, 0x29][..]),
        (70_000_i64, &[0x84, 0xA2, 0x70][..]),
        (-70_000_i64, &[0xC4, 0xA2, 0x70][..]),
        (2_000_000_i64, &[0x80, 0xFA, 0x89, 0x00][..]),
        (-2_000_000_i64, &[0xC0, 0xFA, 0x89, 0x00][..]),
        (2_000_000_000_i64, &[0x87, 0xB9, 0xD6, 0xA8, 0x00][..]),
        (-2_000_000_000_i64, &[0xC7, 0xB9, 0xD6, 0xA8, 0x00][..]),
        (2_000_000_000_000_i64, &[0xBA, 0x9A, 0xCA, 0xA8, 0xC0, 0x00][..]),
        (-2_000_000_000_000_i64, &[0xFA, 0x9A, 0xCA, 0xA8, 0xC0, 0x00][..]),
        (
            i64::MAX,
            &[0x80, 0xFF, 0xFF, 0xFF, 0xFF, 0xFF, 0xFF, 0xFF, 0xFF, 0x7F][..],
        ),
        (
            i64::MIN,
            &[0xC1, 0x80, 0x80, 0x80, 0x80, 0x80, 0x80, 0x80, 0x80, 0x00][..],
        ),
    ] {
        let mut deserializer = Deserializer::new(value);
        assert_eq!(Ok(*expected), deserializer.parse_i64(None));
    }
    let mut deserializer = Deserializer::new(
        &[0xC1, 0x80, 0x80, 0x80, 0x80, 0x80, 0x80, 0x80, 0x80, 0x01][..],
    );
    assert!(matches!(deserializer.parse_i64(None), Err(Error::IntegerOverflow)));
}

#[test]
fn deserialize_u8() {
    for (expected, value) in &[(42_u8, &[42][..]), (255_u8, &[0xFF][..])] {
        let mut deserializer = Deserializer::new(value);
        assert_eq!(Ok(*expected), deserializer.parse_u8());
    }
}

#[test]
fn deserialize_u16() {
    for (expected, value) in &[
        (42_u16, &[42][..]),
        (255_u16, &[0x81, 0x7F][..]),
        (9001_u16, &[0xC6, 0x29][..]),
        (40000_u16, &[0x82, 0xB8, 0x40][..]),
    ] {
        let mut deserializer = Deserializer::new(value);
        assert_eq!(Ok(*expected), deserializer.parse_u16());
    }
    let mut deserializer = Deserializer::new(&[0xA0, 0xC6, 0xC9][..]);
    assert!(matches!(deserializer.parse_u16(), Err(Error::IntegerOverflow)));
}

#[test]
fn deserialize_u32() {
    for (expected, value) in &[
        (42_u32, &[42][..]),
        (255_u32, &[0x81, 0x7F][..]),
        (9001_u32, &[0xC6, 0x29][..]),
        (40000_u32, &[0x82, 0xB8, 0x40][..]),
        (30_000_000_u32, &[0x8E, 0xA7, 0x87, 0x00][..]),
        (4_000_000_000_u32, &[0x8E, 0xF3, 0xAC, 0xD0, 0x00][..]),
    ] {
        let mut deserializer = Deserializer::new(value);
        assert_eq!(Ok(*expected), deserializer.parse_u32());
    }
}

#[test]
fn deserialize_u64() {
    for (expected, value) in &[
        (42_u64, &[42][..]),
        (255_u64, &[0x81, 0x7F][..]),
        (9001_u64, &[0xC6, 0x29][..]),
        (40000_u64, &[0x82, 0xB8, 0x40][..]),
        (30_000_000_u64, &[0x8E, 0xA7, 0x87, 0x00][..]),
        (4_000_000_000_u64, &[0x8E, 0xF3, 0xAC, 0xD0, 0x00][..]),
        (
            u64::MAX,
            &[0x81, 0xFF, 0xFF, 0xFF, 0xFF, 0xFF, 0xFF, 0xFF, 0xFF, 0x7F][..],
        ),
    ] {
        let mut deserializer = Deserializer::new(value);
        assert_eq!(Ok(*expected), deserializer.parse_u64(None));
    }
    let mut deserializer = Deserializer::new(
        &[0x82, 0x80, 0x80, 0x80, 0x80, 0x80, 0x80, 0x80, 0x80, 0x00][..],
    );
    assert!(matches!(deserializer.parse_u64(None), Err(Error::IntegerOverflow)));
}

#[test]
fn deserialize_f32() {
    for (expected, value) in &[
        (3.141_592_5_f32, &[0x40, 0x49, 0x0F, 0xDA][..]),
        (-10_f32, &[0xC1, 0x20, 0x00, 0x00][..]),
    ] {
        let mut deserializer = Deserializer::new(value);
        let bits = deserializer.parse_f32_bits().unwrap();
        assert_eq!(*expected, f32::from_bits(bits));
    }
}

#[test]
fn deserialize_f64() {
    for (expected, value) in &[
        (
            3.141_592_653_5_f64,
            &[0x40, 0x09, 0x21, 0xFB, 0x54, 0x41, 0x17, 0x44][..],
        ),
        (-10_f64, &[0xC0, 0x24, 0x00, 0x00, 0x00, 0x00, 0x00, 0x00][..]),
    ] {
        let mut deserializer = Deserializer::new(value);
        let bits = deserializer.parse_f64_bits().unwrap();
        assert_eq!(*expected, f64::from_bits(bits));
    }
}

#[test]
fn deserialize_char() {
    for (expected, value) in &[
        ('X', &[88][..]),
        ('\u{a3}', &[0xC2, 0xA3][..]),
        ('\u{20ac}', &[0xE2, 0x82, 0xAC][..]),
        ('\u{1f4a9}', &[0xF0, 0x9F, 0x92, 0xA9][..]),
    ] {
        let mut deserializer = Deserializer::new(value);
        assert_eq!(Ok(*expected), deserializer.parse_char());
    }
}

#[test]
fn deserialize_str() {
    for (expected, value) in &[
        (
            "Hello, World!",
            &[
                0x0D, 0x48, 0x65, 0x6c, 0x6c, 0x6f, 0x2c, 0x20, 0x57, 0x6f, 0x72, 0x6c, 0x64,
                0x21,
            ][..],
        ),
        (
            "A\u{2262}\u{391}.",
            &[0x07, 0x41, 0xe2, 0x89, 0xa2, 0xce, 0x91, 0x2e][..],
        ),
    ] {
        let mut deserializer = Deserializer::new(value);
        let deserialization: &str = deserializer.parse_str().unwrap();
        assert_eq!(*expected, deserialization);
    }
}

#[test]
fn deserialize_string() {
    for (expected, value) in &[
        (
            "Hello, World!",
            &[
                0x0D, 0x48, 0x65, 0x6c, 0x6c, 0x6f, 0x2c, 0x20, 0x57, 0x6f, 0x72, 0x6c, 0x64,
                0x21,
            ][..],
        ),
        (
            "A\u{2262}\u{391}.",
            &[0x07, 0x41, 0xe2, 0x89, 0xa2, 0xce, 0x91, 0x2e][..],
        ),
    ] {
        let mut deserializer = Deserializer::new(value);
        let deserialization: String = deserializer.parse_str().unwrap().to_string();
        assert_eq!(*expected, deserialization);
    }
}

#[test]
fn deserialize_bytes() {
    for (expected, value) in &[
        (&[][..], &[0x00][..]),
        (&[0x00_u8][..], &[0x01, 0x00][..]),
        (&[0x12, 0x34, 0x56][..], &[0x03, 0x12, 0x34, 0x56][..]),
    ] {
        let mut deserializer = Deserializer::new(value);
        let deserialization: &[u8] = deserializer.parse_bytes().unwrap();
        assert_eq!(*expected, deserialization);
    }
}

#[test]
fn deserialize_none() {
    let mut deserializer = Deserializer::new(&[0x00][..]);
    assert_eq!(Ok(false), deserializer.parse_option());
}

#[test]
fn deserialize_some() {
    let mut deserializer = Deserializer::new(&[0x01, 42][..]);
    assert_eq!(Ok(true), deserializer.parse_option());
    assert_eq!(Ok(42_u8), deserializer.parse_u8());
}

#[test]
fn deserialize_unit() {
    // The unit value has no wire representation: nothing is consumed.
    let deserializer = Deserializer::new(&[][..] as &[u8]);
    assert_eq!(0, deserializer.remaining());
}

#[test]
fn deserialize_unit_struct() {
    // A unit struct has no wire representation: nothing is consumed.
    let deserializer = Deserializer::new(&[][..] as &[u8]);
    assert_eq!(0, deserializer.remaining());
}

#[test]
fn deserialize_newtype_struct() {
    // A newtype struct is decoded as its single field, with no framing.
    let mut deserializer = Deserializer::new(&[42][..]);
    assert_eq!(Ok(42_u8), deserializer.parse_u8());
}

#[test]
fn deserialize_seq() {
    for (expected, value) in &[
        (&[][..], &[0x00][..]),
        (&['a'][..], &[1, 97][..]),
        (&['a', 'b', 'c'][..], &[3, 97, 98, 99][..]),
    ] {
        let mut deserializer = Deserializer::new(value);
        let len = deserializer.parse_usize().unwrap();
        let mut deserialization: Vec<char> = Vec::new();
        for _ in 0..len {
            deserialization.push(deserializer.parse_char().unwrap());
        }
        assert_eq!(*expected, deserialization);
    }
}

#[test]
fn deserialize_tuple() {
    let mut deserializer = Deserializer::new(&[97, 98][..]);
    let deserialization = (
        deserializer.parse_char().unwrap(),
        deserializer.parse_char().unwrap(),
    );
    assert_eq!(('a', 'b'), deserialization);
}

#[test]
fn deserialize_tuple_struct() {
    let mut deserializer = Deserializer::new(&[2, 4, 6][..]);
    let deserialization = (
        deserializer.parse_i32().unwrap(),
        deserializer.parse_i32().unwrap(),
        deserializer.parse_i32().unwrap(),
    );
    assert_eq!((2, 4, 6), deserialization);
}

#[test]
fn deserialize_map() {
    let map: std::collections::HashMap<&str, u8> =
        [("foo", 42), ("baz", 16)].iter().copied().collect();
    let mut deserializer =
        Deserializer::new(&[2, 3, 102, 111, 111, 42, 3, 98, 97, 122, 16][..]);
    let len = deserializer.parse_usize().unwrap();
    let mut deserialization: std::collections::HashMap<&str, u8> =
        std::collections::HashMap::new();
    for _ in 0..len {
        let key = deserializer.parse_str().unwrap();
        let value = deserializer.parse_u8().unwrap();
        deserialization.insert(key, value);
    }
    assert_eq!(map, deserialization);
}

#[test]
fn deserialize_struct() {
    let mut deserializer = Deserializer::new(&[16, 42][..]);
    assert_eq!(Ok(16_u8), deserializer.parse_u8());
    assert_eq!(Ok(42_u8), deserializer.parse_u8());
}

#[test]
fn deserialize_unit_variant() {
    for (expected, value) in &[(0_usize, &[0x00][..]), (1_usize, &[0x01][..])] {
        let mut deserializer = Deserializer::new(value);
        assert_eq!(Ok(*expected), deserializer.parse_usize());
    }
}

#[test]
fn deserialize_newtype_variant() {
    let mut deserializer = Deserializer::new(&[1, 42][..]);
    assert_eq!(Ok(1_usize), deserializer.parse_usize());
    assert_eq!(Ok(42_u8), deserializer.parse_u8());
}

#[test]
fn deserialize_tuple_variant() {
    let mut deserializer = Deserializer::new(&[1, 2, 4, 6][..]);
    assert_eq!(Ok(1_usize), deserializer.parse_usize());
    assert_eq!(Ok(2_i32), deserializer.parse_i32());
    assert_eq!(Ok(4_i32), deserializer.parse_i32());
    assert_eq!(Ok(6_i32), deserializer.parse_i32());
}

#[test]
fn deserialize_struct_variant() {
    let mut deserializer = Deserializer::new(&[1, 16, 42][..]);
    assert_eq!(Ok(1_usize), deserializer.parse_usize());
    assert_eq!(Ok(16_u8), deserializer.parse_u8());
    assert_eq!(Ok(42_u8), deserializer.parse_u8());
}
