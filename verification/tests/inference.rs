use dynamic_schema::{
    record_schema, ErrorKind, Schema, SchemaRecorder, SeqRecorder, StructSchema, TypeDescriptor,
};

fn pair() -> TypeDescriptor {
    TypeDescriptor::Struct {
        name: "Pair".to_string(),
        fields: vec![
            ("a".to_string(), TypeDescriptor::I32),
            ("b".to_string(), TypeDescriptor::I32),
        ],
    }
}

#[test]
fn infer_struct_schema() {
    assert_eq!(
        Schema::infer(&pair()),
        Schema::Struct(StructSchema {
            name: "Pair".to_string(),
            fields: vec![("a".to_string(), Schema::I32), ("b".to_string(), Schema::I32)],
        })
    );
}

#[test]
fn infer_every_scalar_kind() {
    let cases = vec![
        (TypeDescriptor::I8, Schema::I8),
        (TypeDescriptor::U8, Schema::U8),
        (TypeDescriptor::I16, Schema::I16),
        (TypeDescriptor::U16, Schema::U16),
        (TypeDescriptor::I32, Schema::I32),
        (TypeDescriptor::U32, Schema::U32),
        (TypeDescriptor::I64, Schema::I64),
        (TypeDescriptor::U64, Schema::U64),
        (TypeDescriptor::I128, Schema::I128),
        (TypeDescriptor::U128, Schema::U128),
        (TypeDescriptor::F32, Schema::F32),
        (TypeDescriptor::F64, Schema::F64),
        (TypeDescriptor::Bool, Schema::Bool),
        (TypeDescriptor::Char, Schema::Char),
        (TypeDescriptor::Unit, Schema::Unit),
        (TypeDescriptor::Str, Schema::String),
        (TypeDescriptor::String, Schema::String),
    ];
    for (desc, schema) in cases {
        assert_eq!(record_schema(&desc), Ok(schema));
    }
}

#[test]
fn infer_products() {
    let desc = TypeDescriptor::TupleStruct(
        "Outer".to_string(),
        vec![
            TypeDescriptor::Tuple(vec![TypeDescriptor::U8, TypeDescriptor::Str]),
            TypeDescriptor::NewtypeStruct("Wrap".to_string(), Box::new(pair())),
            TypeDescriptor::UnitStruct("Marker".to_string()),
            TypeDescriptor::Tuple(vec![]),
        ],
    );
    let expected = Schema::TupleStruct(
        "Outer".to_string(),
        vec![
            Schema::Tuple(vec![Schema::U8, Schema::String]),
            Schema::NewtypeStruct("Wrap".to_string(), Box::new(Schema::infer(&pair()))),
            Schema::UnitStruct("Marker".to_string()),
            Schema::Tuple(vec![]),
        ],
    );
    assert_eq!(record_schema(&desc), Ok(expected));
}

#[test]
fn infer_twice_gives_equal_schemas() {
    let desc = TypeDescriptor::Tuple(vec![pair(), TypeDescriptor::Char, pair()]);
    let first = Schema::infer(&desc);
    let second = Schema::infer(&desc);
    assert_eq!(first, second);
    assert_eq!(Schema::infer(&desc.clone()), first);
}

#[test]
fn infer_rejects_unsupported_shapes() {
    for desc in [
        TypeDescriptor::Sequence,
        TypeDescriptor::Mapping,
        TypeDescriptor::Optional,
        TypeDescriptor::Bytes,
        TypeDescriptor::ByteBuf,
        TypeDescriptor::Enum,
    ] {
        assert_eq!(record_schema(&desc).map_err(|e| e.kind()), Err(ErrorKind::UnsupportedShape));
    }
}

#[test]
fn infer_rejects_struct_with_a_list_field() {
    let desc = TypeDescriptor::Struct {
        name: "Holder".to_string(),
        fields: vec![
            ("id".to_string(), TypeDescriptor::U32),
            ("items".to_string(), TypeDescriptor::Sequence),
        ],
    };
    assert_eq!(record_schema(&desc).map_err(|e| e.kind()), Err(ErrorKind::UnsupportedShape));
}

#[test]
fn infer_rejects_unsupported_shapes_at_any_depth() {
    let desc = TypeDescriptor::Tuple(vec![
        TypeDescriptor::U8,
        TypeDescriptor::NewtypeStruct(
            "Wrap".to_string(),
            Box::new(TypeDescriptor::TupleStruct(
                "Deep".to_string(),
                vec![pair(), TypeDescriptor::Optional],
            )),
        ),
    ]);
    assert_eq!(record_schema(&desc).map_err(|e| e.kind()), Err(ErrorKind::UnsupportedShape));
}

#[test]
fn recorder_starts_empty_and_appends_in_order() {
    let mut rec = SchemaRecorder::new();
    assert!(rec.0.is_empty());
    rec.record(Schema::U8);
    rec.deserialize_unit_struct("Marker");
    assert_eq!(rec.0, vec![Schema::U8, Schema::UnitStruct("Marker".to_string())]);
    assert_eq!(rec.into_schema(), Schema::U8);
}

#[test]
fn failed_request_records_nothing() {
    let mut rec = SchemaRecorder::new();
    rec.record(Schema::Bool);
    let desc = TypeDescriptor::Tuple(vec![TypeDescriptor::U8, TypeDescriptor::Mapping]);
    assert!(desc.deserialize(&mut rec).is_err());
    assert_eq!(rec.0, vec![Schema::Bool]);
    assert!(pair().deserialize(&mut rec).is_ok());
    assert_eq!(rec.0, vec![Schema::Bool, Schema::infer(&pair())]);
}

#[test]
fn seq_recorder_gives_out_no_more_than_its_length() {
    let mut seq = SeqRecorder::new(2);
    assert_eq!(seq.len, 2);
    assert_eq!(seq.size_hint(), Some(2));
    assert!(seq.records.0.is_empty());
    assert_eq!(seq.next_element_seed(&TypeDescriptor::U8), Ok(Some(())));
    assert_eq!(seq.size_hint(), Some(1));
    assert_eq!(seq.next_element_seed(&TypeDescriptor::Str), Ok(Some(())));
    assert_eq!(seq.next_element_seed(&TypeDescriptor::Bool), Ok(None));
    assert_eq!(seq.size_hint(), Some(0));
    assert_eq!(seq.records.0, vec![Schema::U8, Schema::String]);
}

#[test]
fn seq_recorder_counts_a_failed_element() {
    let mut seq = SeqRecorder::new(2);
    let r = seq.next_element_seed(&TypeDescriptor::Sequence);
    assert_eq!(r.map_err(|e| e.kind()), Err(ErrorKind::UnsupportedShape));
    assert_eq!(seq.len, 1);
    assert!(seq.records.0.is_empty());
}

#[test]
fn seq_recorder_advance_counts_down() {
    let mut seq = SeqRecorder::new(1);
    assert!(seq.advance());
    assert!(!seq.advance());
    assert_eq!(seq.len, 0);
}

#[test]
fn struct_node_pairs_names_with_records_as_far_as_both_reach() {
    let names = vec!["a".to_string(), "b".to_string(), "c".to_string()];

    let mut seq = SeqRecorder::new(3);
    seq.records.record(Schema::U8);
    seq.records.record(Schema::U16);
    let mut rec = SchemaRecorder::new();
    rec.deserialize_struct("S", &names, seq);
    assert_eq!(
        rec.0,
        vec![Schema::Struct(StructSchema {
            name: "S".to_string(),
            fields: vec![("a".to_string(), Schema::U8), ("b".to_string(), Schema::U16)],
        })]
    );

    let mut seq = SeqRecorder::new(3);
    seq.records.record(Schema::U8);
    let mut rec = SchemaRecorder::new();
    rec.deserialize_struct("S", &names[..0].to_vec(), seq);
    assert_eq!(
        rec.0,
        vec![Schema::Struct(StructSchema { name: "S".to_string(), fields: vec![] })]
    );
}

#[test]
fn product_nodes_take_what_the_provider_recorded() {
    let mut rec = SchemaRecorder::new();

    let mut seq = SeqRecorder::new(2);
    seq.records.record(Schema::Char);
    seq.records.record(Schema::Bool);
    rec.deserialize_tuple(seq);

    let mut seq = SeqRecorder::new(1);
    seq.records.record(Schema::I64);
    rec.deserialize_tuple_struct("T", seq);

    let mut seq = SeqRecorder::new(1);
    seq.records.record(Schema::F32);
    seq.records.record(Schema::F64);
    rec.deserialize_newtype_struct("N", seq);

    assert_eq!(
        rec.0,
        vec![
            Schema::Tuple(vec![Schema::Char, Schema::Bool]),
            Schema::TupleStruct("T".to_string(), vec![Schema::I64]),
            Schema::NewtypeStruct("N".to_string(), Box::new(Schema::F32)),
        ]
    );
}

#[test]
fn schema_clone_gives_an_equal_schema() {
    let schema = Schema::infer(&TypeDescriptor::Tuple(vec![
        pair(),
        TypeDescriptor::NewtypeStruct("N".to_string(), Box::new(TypeDescriptor::Str)),
    ]));
    assert_eq!(schema.clone(), schema);
}
