use dynamic_schema::{DynamicValue, EnumSchema, ErrorKind};

fn encode(value: &DynamicValue) -> Vec<u8> {
    assert!(value.well_formed());
    let mut out = Vec::new();
    value.serialize(&mut out);
    out
}

fn spoon_fork() -> EnumSchema {
    EnumSchema {
        name: "Cutlery".to_string(),
        variants: vec!["Spoon".to_string(), "Fork".to_string()],
    }
}

#[test]
fn encode_integers_in_fixed_width() {
    assert_eq!(encode(&DynamicValue::I8(-1)), [0xff]);
    assert_eq!(encode(&DynamicValue::U8(7)), [7]);
    assert_eq!(encode(&DynamicValue::I16(-2)), [0xfe, 0xff]);
    assert_eq!(encode(&DynamicValue::U16(0x1234)), [0x34, 0x12]);
    assert_eq!(encode(&DynamicValue::I32(99)), [99, 0, 0, 0]);
    assert_eq!(encode(&DynamicValue::I32(23480)), [0xb8, 0x5b, 0, 0]);
    assert_eq!(encode(&DynamicValue::I32(i32::MIN)), [0, 0, 0, 0x80]);
    assert_eq!(encode(&DynamicValue::U32(u32::MAX)), [0xff; 4]);
    assert_eq!(encode(&DynamicValue::I64(-1)), [0xff; 8]);
    assert_eq!(encode(&DynamicValue::U64(1 << 56)), [0, 0, 0, 0, 0, 0, 0, 1]);
    assert_eq!(encode(&DynamicValue::I128(-1)), [0xff; 16]);
    let mut min = [0u8; 16];
    min[15] = 0x80;
    assert_eq!(encode(&DynamicValue::I128(i128::MIN)), min);
    assert_eq!(encode(&DynamicValue::I128(i128::MAX)), bincode::serialize(&i128::MAX).unwrap());
    assert_eq!(encode(&DynamicValue::U128(8)), bincode::serialize(&8u128).unwrap());
}

#[test]
fn encode_floats_from_their_bits() {
    assert_eq!(encode(&DynamicValue::F32(10f32.to_bits())), bincode::serialize(&10f32).unwrap());
    assert_eq!(encode(&DynamicValue::F64(90f64.to_bits())), bincode::serialize(&90f64).unwrap());
    assert_eq!(encode(&DynamicValue::F32(1f32.to_bits())), [0, 0, 0x80, 0x3f]);
}

#[test]
fn encode_bool_char_unit_and_string() {
    assert_eq!(encode(&DynamicValue::Bool(true)), [1]);
    assert_eq!(encode(&DynamicValue::Bool(false)), [0]);
    assert_eq!(encode(&DynamicValue::Char('a')), [b'a']);
    assert_eq!(encode(&DynamicValue::Char('é')), [0xc3, 0xa9]);
    assert_eq!(encode(&DynamicValue::Char('€')), [0xe2, 0x82, 0xac]);
    assert_eq!(encode(&DynamicValue::Char('😀')), [0xf0, 0x9f, 0x98, 0x80]);
    assert_eq!(encode(&DynamicValue::Unit), [0u8; 0]);
    assert_eq!(
        encode(&DynamicValue::String("hé".to_string())),
        [3, 0, 0, 0, 0, 0, 0, 0, b'h', 0xc3, 0xa9]
    );
    assert_eq!(encode(&DynamicValue::String(String::new())), [0; 8]);
}

#[test]
fn encode_enum_emits_the_position_of_the_variant() {
    assert_eq!(encode(&DynamicValue::Enum(spoon_fork(), 1)), [1, 0, 0, 0]);
    assert_eq!(encode(&DynamicValue::Enum(spoon_fork(), 0)), [0, 0, 0, 0]);
}

#[test]
fn encode_products_in_order_without_names() {
    let value = DynamicValue::Struct {
        name: "Outer".to_string(),
        fields: vec![
            ("first".to_string(), DynamicValue::U8(1)),
            (
                "second".to_string(),
                DynamicValue::TupleStruct(
                    "Inner".to_string(),
                    vec![DynamicValue::U16(2), DynamicValue::Tuple(vec![DynamicValue::U8(3)])],
                ),
            ),
            (
                "third".to_string(),
                DynamicValue::NewtypeStruct("Wrap".to_string(), Box::new(DynamicValue::Bool(true))),
            ),
            ("fourth".to_string(), DynamicValue::UnitStruct("Nothing".to_string())),
        ],
    };
    assert_eq!(encode(&value), [1, 2, 0, 3, 1]);
}

#[test]
fn encode_appends_to_what_the_sink_holds() {
    let mut out = vec![0xaa];
    DynamicValue::U16(1).serialize(&mut out);
    DynamicValue::Bool(true).serialize(&mut out);
    assert_eq!(out, [0xaa, 1, 0, 1]);
}

#[test]
fn enum_index_beyond_the_variants_is_not_well_formed() {
    assert!(!DynamicValue::Enum(spoon_fork(), 2).well_formed());
    assert!(DynamicValue::Enum(spoon_fork(), 1).well_formed());
    let nested = DynamicValue::Struct {
        name: "S".to_string(),
        fields: vec![
            ("ok".to_string(), DynamicValue::Enum(spoon_fork(), 0)),
            (
                "bad".to_string(),
                DynamicValue::Tuple(vec![DynamicValue::NewtypeStruct(
                    "N".to_string(),
                    Box::new(DynamicValue::Enum(spoon_fork(), 7)),
                )]),
            ),
        ],
    };
    assert!(!nested.well_formed());
    assert!(!DynamicValue::TupleStruct("T".to_string(), vec![DynamicValue::Enum(spoon_fork(), 2)])
        .well_formed());
}

#[test]
fn clone_gives_an_equal_value() {
    let value = DynamicValue::Struct {
        name: "S".to_string(),
        fields: vec![
            ("e".to_string(), DynamicValue::Enum(spoon_fork(), 1)),
            (
                "t".to_string(),
                DynamicValue::Tuple(vec![DynamicValue::I128(-5), DynamicValue::Char('x')]),
            ),
            ("s".to_string(), DynamicValue::String("text".to_string())),
        ],
    };
    assert_eq!(value.clone(), value);
}

#[test]
fn encode_entry_point_refuses_what_cannot_be_encoded() {
    assert_eq!(
        dynamic_schema::encode(&DynamicValue::Enum(spoon_fork(), 1)),
        Ok(vec![1, 0, 0, 0])
    );
    assert_eq!(
        dynamic_schema::encode(&DynamicValue::Enum(spoon_fork(), 2)).map_err(|e| e.kind()),
        Err(ErrorKind::SchemaMismatch)
    );
}
