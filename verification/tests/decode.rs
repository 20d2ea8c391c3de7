use dynamic_schema::{
    decode, deserialize_dynamic, encode, ByteSource, DynamicValue, EnumSchema, EnumVisitor,
    ErrorKind, Schema, SchemaDeserializer, SeqAccess, StructSchema, StructVisitor, TupleVisitor,
    TypeDescriptor,
};

fn decode_with(schema: Schema, bytes: &[u8]) -> Result<DynamicValue, ErrorKind> {
    let mut source = ByteSource::new(bytes);
    let result = deserialize_dynamic(schema.clone(), &mut source).map_err(|e| e.kind());
    assert_eq!(decode(&schema, bytes).map_err(|e| e.kind()), result);
    result
}

fn spoon_fork() -> EnumSchema {
    EnumSchema {
        name: "Cutlery".to_string(),
        variants: vec!["Spoon".to_string(), "Fork".to_string()],
    }
}

fn pair() -> StructSchema {
    StructSchema {
        name: "Pair".to_string(),
        fields: vec![("a".to_string(), Schema::I32), ("b".to_string(), Schema::I32)],
    }
}

#[test]
fn decode_pair_from_fixed_width_bytes() {
    let bytes = [99, 0, 0, 0, 0xb8, 0x5b, 0, 0];
    let value = decode_with(Schema::Struct(pair()), &bytes).unwrap();
    assert_eq!(
        value,
        DynamicValue::Struct {
            name: "Pair".to_string(),
            fields: vec![
                ("a".to_string(), DynamicValue::I32(99)),
                ("b".to_string(), DynamicValue::I32(23480)),
            ],
        }
    );
    let mut out = Vec::new();
    value.serialize(&mut out);
    assert_eq!(out, bytes);
}

#[test]
fn pair_round_trips_through_its_inferred_schema() {
    let desc = TypeDescriptor::Struct {
        name: "Pair".to_string(),
        fields: vec![
            ("a".to_string(), TypeDescriptor::I32),
            ("b".to_string(), TypeDescriptor::I32),
        ],
    };
    let schema = Schema::infer(&desc);
    assert_eq!(schema, Schema::Struct(pair()));
    let bytes = bincode::serialize(&(99i32, 23480i32)).unwrap();
    let value = decode(&schema, &bytes).unwrap();
    assert_eq!(encode(&value).unwrap(), bytes);
}

#[test]
fn decode_keeps_declared_field_order() {
    let schema = StructSchema {
        name: "Mixed".to_string(),
        fields: vec![
            ("z".to_string(), Schema::U8),
            ("a".to_string(), Schema::U16),
            ("m".to_string(), Schema::Bool),
        ],
    };
    let value = decode_with(Schema::Struct(schema), &[7, 1, 2, 1]).unwrap();
    assert_eq!(
        value,
        DynamicValue::Struct {
            name: "Mixed".to_string(),
            fields: vec![
                ("z".to_string(), DynamicValue::U8(7)),
                ("a".to_string(), DynamicValue::U16(0x0201)),
                ("m".to_string(), DynamicValue::Bool(true)),
            ],
        }
    );
}

#[test]
fn decode_signed_integers_in_twos_complement() {
    assert_eq!(decode_with(Schema::I8, &[0xff]), Ok(DynamicValue::I8(-1)));
    assert_eq!(decode_with(Schema::I8, &[0x80]), Ok(DynamicValue::I8(i8::MIN)));
    assert_eq!(decode_with(Schema::I8, &[0x7f]), Ok(DynamicValue::I8(i8::MAX)));
    assert_eq!(decode_with(Schema::I16, &[0xfe, 0xff]), Ok(DynamicValue::I16(-2)));
    assert_eq!(decode_with(Schema::I32, &[0, 0, 0, 0x80]), Ok(DynamicValue::I32(i32::MIN)));
    assert_eq!(decode_with(Schema::I64, &[0xff; 8]), Ok(DynamicValue::I64(-1)));
    let mut min = [0u8; 16];
    min[15] = 0x80;
    assert_eq!(decode_with(Schema::I128, &min), Ok(DynamicValue::I128(i128::MIN)));
    assert_eq!(decode_with(Schema::I128, &[0xff; 16]), Ok(DynamicValue::I128(-1)));
}

#[test]
fn decode_unsigned_integers_least_significant_byte_first() {
    assert_eq!(decode_with(Schema::U8, &[200]), Ok(DynamicValue::U8(200)));
    assert_eq!(decode_with(Schema::U16, &[0x34, 0x12]), Ok(DynamicValue::U16(0x1234)));
    assert_eq!(decode_with(Schema::U32, &[4, 3, 2, 1]), Ok(DynamicValue::U32(0x0102_0304)));
    assert_eq!(
        decode_with(Schema::U64, &[8, 7, 6, 5, 4, 3, 2, 1]),
        Ok(DynamicValue::U64(0x0102_0304_0506_0708))
    );
    assert_eq!(decode_with(Schema::U128, &[0xff; 16]), Ok(DynamicValue::U128(u128::MAX)));
}

#[test]
fn decode_floats_as_bits() {
    let bytes = bincode::serialize(&(-1.5f32, f64::INFINITY)).unwrap();
    let value = decode_with(Schema::Tuple(vec![Schema::F32, Schema::F64]), &bytes).unwrap();
    assert_eq!(
        value,
        DynamicValue::Tuple(vec![
            DynamicValue::F32((-1.5f32).to_bits()),
            DynamicValue::F64(f64::INFINITY.to_bits()),
        ])
    );
}

#[test]
fn decode_tolerates_trailing_bytes() {
    let bytes = [1, 0, 0xaa, 0xbb, 0xcc];
    let mut source = ByteSource::new(&bytes);
    let value = deserialize_dynamic(Schema::U16, &mut source).unwrap();
    assert_eq!(value, DynamicValue::U16(1));
    assert_eq!(source.position(), 2);
    assert_eq!(source.remaining_len(), 3);
    assert_eq!(source.peek(), Some(0xaa));
}

#[test]
fn decode_unit_shapes_take_no_bytes() {
    let mut source = ByteSource::new(&[5]);
    assert_eq!(deserialize_dynamic(Schema::Unit, &mut source).unwrap(), DynamicValue::Unit);
    assert_eq!(
        deserialize_dynamic(Schema::UnitStruct("Marker".to_string()), &mut source).unwrap(),
        DynamicValue::UnitStruct("Marker".to_string())
    );
    assert_eq!(
        deserialize_dynamic(Schema::Tuple(vec![]), &mut source).unwrap(),
        DynamicValue::Tuple(vec![])
    );
    assert_eq!(source.position(), 0);
}

#[test]
fn decode_newtype_struct_wraps_its_inner_value() {
    let schema = Schema::NewtypeStruct("Meters".to_string(), Box::new(Schema::U32));
    let bytes = bincode::serialize(&9999u32).unwrap();
    let value = decode_with(schema, &bytes).unwrap();
    assert_eq!(
        value,
        DynamicValue::NewtypeStruct("Meters".to_string(), Box::new(DynamicValue::U32(9999)))
    );
    let mut out = Vec::new();
    value.serialize(&mut out);
    assert_eq!(out, bytes);
}

#[test]
fn decode_chars_of_every_width() {
    for c in ['a', '\0', 'é', '€', '\u{ffff}', '😀', '\u{10ffff}', '\u{d7ff}', '\u{e000}'] {
        let bytes = bincode::serialize(&c).unwrap();
        let value = decode_with(Schema::Char, &bytes).unwrap();
        assert_eq!(value, DynamicValue::Char(c));
        let mut out = Vec::new();
        value.serialize(&mut out);
        assert_eq!(out, bytes);
    }
}

#[test]
fn decode_strings_as_bincode_writes_them() {
    for s in ["", "Binkus", "größer — 大きい 😀"] {
        let mut bytes = bincode::serialize(s).unwrap();
        bytes.extend_from_slice(&[1, 2, 3]);
        let mut source = ByteSource::new(&bytes);
        let value = deserialize_dynamic(Schema::String, &mut source).unwrap();
        assert_eq!(value, DynamicValue::String(s.to_string()));
        assert_eq!(source.position(), 8 + s.len());
        let mut out = Vec::new();
        value.serialize(&mut out);
        assert_eq!(out, &bytes[..8 + s.len()]);
    }
}

#[test]
fn decode_enum_selects_variant_by_position() {
    assert_eq!(
        decode_with(Schema::Enum(spoon_fork()), &[1, 0, 0, 0]),
        Ok(DynamicValue::Enum(spoon_fork(), 1))
    );
    assert_eq!(
        decode_with(Schema::Enum(spoon_fork()), &[0, 0, 0, 0]),
        Ok(DynamicValue::Enum(spoon_fork(), 0))
    );
}

#[test]
fn decode_enum_tag_of_no_variant_is_schema_mismatch() {
    assert_eq!(decode_with(Schema::Enum(spoon_fork()), &[2, 0, 0, 0]), Err(ErrorKind::SchemaMismatch));
    assert_eq!(
        decode_with(Schema::Enum(spoon_fork()), &[0, 0, 0, 1]),
        Err(ErrorKind::SchemaMismatch)
    );
}

#[test]
fn decode_short_input_is_protocol_error() {
    assert_eq!(decode_with(Schema::U8, &[]), Err(ErrorKind::ProtocolError));
    assert_eq!(decode_with(Schema::I32, &[1, 2, 3]), Err(ErrorKind::ProtocolError));
    assert_eq!(decode_with(Schema::U128, &[0; 15]), Err(ErrorKind::ProtocolError));
    assert_eq!(decode_with(Schema::Bool, &[]), Err(ErrorKind::ProtocolError));
    assert_eq!(decode_with(Schema::Char, &[]), Err(ErrorKind::ProtocolError));
    assert_eq!(decode_with(Schema::Enum(spoon_fork()), &[1, 0, 0]), Err(ErrorKind::ProtocolError));
    assert_eq!(decode_with(Schema::Struct(pair()), &[1, 0, 0, 0, 2, 0]), Err(ErrorKind::ProtocolError));
}

#[test]
fn decode_invalid_bool_is_protocol_error() {
    assert_eq!(decode_with(Schema::Bool, &[0]), Ok(DynamicValue::Bool(false)));
    assert_eq!(decode_with(Schema::Bool, &[1]), Ok(DynamicValue::Bool(true)));
    assert_eq!(decode_with(Schema::Bool, &[2]), Err(ErrorKind::ProtocolError));
    assert_eq!(decode_with(Schema::Bool, &[255]), Err(ErrorKind::ProtocolError));
}

#[test]
fn decode_invalid_char_is_protocol_error() {
    // a continuation byte first
    assert_eq!(decode_with(Schema::Char, &[0x80]), Err(ErrorKind::ProtocolError));
    // an overlong encoding of '/'
    assert_eq!(decode_with(Schema::Char, &[0xc0, 0xaf]), Err(ErrorKind::ProtocolError));
    // a surrogate
    assert_eq!(decode_with(Schema::Char, &[0xed, 0xa0, 0x80]), Err(ErrorKind::ProtocolError));
    // beyond the last scalar value
    assert_eq!(decode_with(Schema::Char, &[0xf4, 0x90, 0x80, 0x80]), Err(ErrorKind::ProtocolError));
    assert_eq!(decode_with(Schema::Char, &[0xf8, 0x80, 0x80, 0x80]), Err(ErrorKind::ProtocolError));
    // the encoding ends early
    assert_eq!(decode_with(Schema::Char, &[0xe2, 0x82]), Err(ErrorKind::ProtocolError));
    // the second byte is no continuation byte
    assert_eq!(decode_with(Schema::Char, &[0xc3, 0x41]), Err(ErrorKind::ProtocolError));
}

#[test]
fn decode_invalid_string_is_protocol_error() {
    // the length does not fit in what is left
    assert_eq!(
        decode_with(Schema::String, &[3, 0, 0, 0, 0, 0, 0, 0, b'a', b'b']),
        Err(ErrorKind::ProtocolError)
    );
    assert_eq!(decode_with(Schema::String, &[0xff; 8]), Err(ErrorKind::ProtocolError));
    // the length itself is cut off
    assert_eq!(decode_with(Schema::String, &[1, 0, 0]), Err(ErrorKind::ProtocolError));
    // the bytes are no UTF-8
    assert_eq!(
        decode_with(Schema::String, &[2, 0, 0, 0, 0, 0, 0, 0, 0xff, 0xfe]),
        Err(ErrorKind::ProtocolError)
    );
    // a valid string of the same length
    assert_eq!(
        decode_with(Schema::String, &[2, 0, 0, 0, 0, 0, 0, 0, 0xc3, 0xa9]),
        Ok(DynamicValue::String("é".to_string()))
    );
}

#[test]
fn nested_decode_without_schema_is_schema_not_provided() {
    let bytes = [1, 2, 3, 4];
    let mut source = ByteSource::new(&bytes);
    let r = SchemaDeserializer::deserialize(&mut source);
    assert_eq!(r.err().map(|e| e.kind()), Some(ErrorKind::SchemaNotProvided));
    assert_eq!(source.position(), 0);
}

#[test]
fn nested_decode_consumes_the_slot() {
    let bytes = [1, 2, 3, 4];
    let mut source = ByteSource::new(&bytes);
    SchemaDeserializer::set_schema(&mut source, Schema::U8);
    let SchemaDeserializer(first) = SchemaDeserializer::deserialize(&mut source).unwrap();
    assert_eq!(first, DynamicValue::U8(1));
    // the slot was emptied by the decode it was set for
    let second = SchemaDeserializer::deserialize(&mut source);
    assert_eq!(second.err().map(|e| e.kind()), Some(ErrorKind::SchemaNotProvided));
    // setting it twice keeps the last schema
    SchemaDeserializer::set_schema(&mut source, Schema::U32);
    SchemaDeserializer::set_schema(&mut source, Schema::U16);
    let SchemaDeserializer(third) = SchemaDeserializer::deserialize(&mut source).unwrap();
    assert_eq!(third, DynamicValue::U16(0x0302));
}

#[test]
fn aggregate_with_too_few_elements_is_schema_mismatch() {
    let bytes = [1, 0, 0, 0, 2, 0, 0, 0];
    let mut source = ByteSource::new(&bytes);
    let r = StructVisitor(pair()).visit_seq(SeqAccess { len: 1 }, &mut source);
    assert_eq!(r.err().map(|e| e.kind()), Some(ErrorKind::SchemaMismatch));

    let mut source = ByteSource::new(&bytes);
    let r = TupleVisitor(vec![Schema::U8, Schema::U8, Schema::U8])
        .visit_seq(SeqAccess { len: 2 }, &mut source);
    assert_eq!(r.err().map(|e| e.kind()), Some(ErrorKind::SchemaMismatch));

    let mut source = ByteSource::new(&bytes);
    let r = TupleVisitor(vec![Schema::U8]).visit_seq(SeqAccess { len: 0 }, &mut source);
    assert_eq!(r.err().map(|e| e.kind()), Some(ErrorKind::SchemaMismatch));
}

#[test]
fn aggregate_with_spare_elements_decodes_what_the_schema_lists() {
    let bytes = [1, 0, 0, 0, 2, 0, 0, 0, 3];
    let mut source = ByteSource::new(&bytes);
    let value = StructVisitor(pair()).visit_seq(SeqAccess { len: 5 }, &mut source).unwrap();
    assert_eq!(
        value,
        DynamicValue::Struct {
            name: "Pair".to_string(),
            fields: vec![
                ("a".to_string(), DynamicValue::I32(1)),
                ("b".to_string(), DynamicValue::I32(2)),
            ],
        }
    );
    assert_eq!(source.position(), 8);
}

#[test]
fn next_element_stops_at_the_arity() {
    let bytes = [9, 8];
    let mut source = ByteSource::new(&bytes);
    let mut access = SeqAccess { len: 1 };
    SchemaDeserializer::set_schema(&mut source, Schema::U8);
    let first = access.next_element(&mut source).unwrap();
    assert_eq!(first.map(|d| d.0), Some(DynamicValue::U8(9)));
    assert_eq!(access.len, 0);
    SchemaDeserializer::set_schema(&mut source, Schema::U8);
    let second = access.next_element(&mut source).unwrap();
    assert!(second.is_none());
    assert_eq!(source.position(), 1);
}

#[test]
fn next_element_without_schema_is_schema_not_provided() {
    let bytes = [9, 8];
    let mut source = ByteSource::new(&bytes);
    let mut access = SeqAccess { len: 2 };
    let r = access.next_element(&mut source);
    assert_eq!(r.err().map(|e| e.kind()), Some(ErrorKind::SchemaNotProvided));
    assert_eq!(access.len, 1);
}

#[test]
fn enum_visitor_reads_the_tag() {
    let bytes = [1, 0, 0, 0, 77];
    let mut source = ByteSource::new(&bytes);
    let value = EnumVisitor(spoon_fork()).visit_enum(&mut source).unwrap();
    assert_eq!(value, DynamicValue::Enum(spoon_fork(), 1));
    assert_eq!(source.position(), 4);
}

#[test]
fn decoded_values_are_well_formed() {
    let schema = Schema::Tuple(vec![Schema::Enum(spoon_fork()), Schema::String, Schema::Char]);
    let bytes = bincode::serialize(&(1u32, "x", 'y')).unwrap();
    let value = decode_with(schema, &bytes).unwrap();
    assert!(value.well_formed());
}
