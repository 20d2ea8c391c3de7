use dynamic_schema::{decode, encode, DynamicValue, Schema};

// A small generator of pseudo-random numbers, so that runs repeat.
struct Lcg(u64);

impl Lcg {
    fn next(&mut self) -> u64 {
        self.0 = self.0.wrapping_mul(6364136223846793005).wrapping_add(1442695040888963407);
        self.0 >> 11
    }
}

fn decode_char(bytes: &[u8]) -> Option<char> {
    match decode(&Schema::Char, bytes) {
        Ok(DynamicValue::Char(c)) => Some(c),
        Ok(other) => panic!("a char schema gave {:?}", other),
        Err(_) => None,
    }
}

#[test]
fn every_char_encodes_as_bincode_does() {
    let mut code = 0u32;
    while code <= 0x10ffff {
        if let Some(c) = char::from_u32(code) {
            let expected = bincode::serialize(&c).unwrap();
            assert_eq!(encode(&DynamicValue::Char(c)).unwrap(), expected);
            assert_eq!(decode_char(&expected), Some(c));
        }
        // every scalar value near the edges of the encodings, every 13th elsewhere
        let near_edge = code < 0x1000
            || (0xd000..0xf000).contains(&code)
            || (0xff00..0x10100).contains(&code)
            || code >= 0x10ff00;
        code += if near_edge { 1 } else { 13 };
    }
}

#[test]
fn every_two_byte_input_decodes_to_a_char_as_bincode_does() {
    for first in 0u16..=255 {
        for second in 0u16..=255 {
            let bytes = [first as u8, second as u8];
            let expected = bincode::deserialize::<char>(&bytes).ok();
            assert_eq!(decode_char(&bytes), expected, "bytes {:?}", bytes);
        }
    }
}

#[test]
fn longer_inputs_decode_to_a_char_as_bincode_does() {
    let interesting = [0x00u8, 0x7f, 0x80, 0x8f, 0x90, 0x9f, 0xa0, 0xbf, 0xc0, 0xff];
    for first in 0xe0u16..=0xff {
        for second in interesting {
            for third in interesting {
                for fourth in interesting {
                    let bytes = [first as u8, second, third, fourth];
                    let expected = bincode::deserialize::<char>(&bytes).ok();
                    assert_eq!(decode_char(&bytes), expected, "bytes {:?}", bytes);
                    let expected = bincode::deserialize::<char>(&bytes[..3]).ok();
                    assert_eq!(decode_char(&bytes[..3]), expected, "bytes {:?}", &bytes[..3]);
                }
            }
        }
    }
}

#[test]
fn integers_encode_as_bincode_does() {
    let mut rng = Lcg(1);
    for _ in 0..2000 {
        let low = rng.next();
        let high = rng.next();
        let wide = ((high as u128) << 64 | low as u128) >> (rng.next() % 128);
        assert_eq!(encode(&DynamicValue::U128(wide)).unwrap(), bincode::serialize(&wide).unwrap());
        let v = wide as i128;
        assert_eq!(encode(&DynamicValue::I128(v)).unwrap(), bincode::serialize(&v).unwrap());
        assert_eq!(encode(&DynamicValue::I128(-v)).unwrap(), bincode::serialize(&(-v)).unwrap());
        let v = wide as i64;
        assert_eq!(encode(&DynamicValue::I64(v)).unwrap(), bincode::serialize(&v).unwrap());
        let v = wide as u64;
        assert_eq!(encode(&DynamicValue::U64(v)).unwrap(), bincode::serialize(&v).unwrap());
        let v = wide as i32;
        assert_eq!(encode(&DynamicValue::I32(v)).unwrap(), bincode::serialize(&v).unwrap());
        let v = wide as u32;
        assert_eq!(encode(&DynamicValue::U32(v)).unwrap(), bincode::serialize(&v).unwrap());
        let v = wide as i16;
        assert_eq!(encode(&DynamicValue::I16(v)).unwrap(), bincode::serialize(&v).unwrap());
        let v = wide as u16;
        assert_eq!(encode(&DynamicValue::U16(v)).unwrap(), bincode::serialize(&v).unwrap());
        let v = wide as i8;
        assert_eq!(encode(&DynamicValue::I8(v)).unwrap(), bincode::serialize(&v).unwrap());
        let v = wide as u8;
        assert_eq!(encode(&DynamicValue::U8(v)).unwrap(), bincode::serialize(&v).unwrap());
    }
}

type Record = ((u8, bool), char, String, i16, (u32, i64), u128);

fn record_schema() -> Schema {
    Schema::Tuple(vec![
        Schema::Tuple(vec![Schema::U8, Schema::Bool]),
        Schema::Char,
        Schema::String,
        Schema::I16,
        Schema::Tuple(vec![Schema::U32, Schema::I64]),
        Schema::U128,
    ])
}

fn record_value(r: &Record) -> DynamicValue {
    DynamicValue::Tuple(vec![
        DynamicValue::Tuple(vec![DynamicValue::U8(r.0 .0), DynamicValue::Bool(r.0 .1)]),
        DynamicValue::Char(r.1),
        DynamicValue::String(r.2.clone()),
        DynamicValue::I16(r.3),
        DynamicValue::Tuple(vec![DynamicValue::U32(r.4 .0), DynamicValue::I64(r.4 .1)]),
        DynamicValue::U128(r.5),
    ])
}

#[test]
fn arbitrary_bytes_decode_as_bincode_does() {
    let mut rng = Lcg(7);
    let mut accepted = 0;
    for round in 0..20000 {
        let len = (rng.next() % 48) as usize;
        let mut bytes: Vec<u8> = (0..len).map(|_| rng.next() as u8).collect();
        // steer many inputs past the first fields
        if round % 2 == 0 && len > 10 {
            bytes[1] = (rng.next() % 2) as u8;
            bytes[2] = b'a' + (rng.next() % 26) as u8;
            let text = (rng.next() % 6) as u8;
            bytes[3..11].copy_from_slice(&[text, 0, 0, 0, 0, 0, 0, 0]);
            for b in bytes.iter_mut().skip(11).take(text as usize) {
                *b = b'a' + (*b % 26);
            }
        }
        let expected = bincode::deserialize::<Record>(&bytes).ok();
        let got = decode(&record_schema(), &bytes).ok();
        assert_eq!(got, expected.as_ref().map(record_value), "bytes {:?}", bytes);
        if let Some(value) = got {
            accepted += 1;
            let written = encode(&value).unwrap();
            assert_eq!(written, bincode::serialize(&expected.unwrap()).unwrap());
            assert_eq!(written, &bytes[..written.len()]);
        }
    }
    assert!(accepted > 100, "only {} inputs were accepted", accepted);
}

#[test]
fn encoded_values_decode_to_themselves() {
    let mut rng = Lcg(99);
    for _ in 0..2000 {
        let text: String =
            (0..rng.next() % 5).filter_map(|_| char::from_u32((rng.next() % 0x3000) as u32)).collect();
        let record: Record = (
            (rng.next() as u8, rng.next() % 2 == 0),
            char::from_u32((rng.next() % 0xd800) as u32).unwrap(),
            text,
            rng.next() as i16,
            (rng.next() as u32, rng.next() as i64),
            (rng.next() as u128) << 64 | rng.next() as u128,
        );
        let value = record_value(&record);
        let mut bytes = encode(&value).unwrap();
        assert_eq!(bytes, bincode::serialize(&record).unwrap());
        let len = bytes.len();
        bytes.extend_from_slice(&[0xff, 0x00, 0x80]);
        assert_eq!(decode(&record_schema(), &bytes).ok(), Some(value));
        assert!(decode(&record_schema(), &bytes[..len - 1]).is_err());
    }
}
