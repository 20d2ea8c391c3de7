//! What decoding and encoding owe each other: encoding a decoded value gives
//! back the bytes it was decoded from.

use crate::deserialize::{
    decode_char, decode_elements, decode_signed, decode_string, decode_unsigned, first_char,
    lemma_decode_conforms, lemma_decode_elements_in_bounds, lemma_decode_in_bounds, scalar,
    spec_decode,
};
use crate::error::ErrorKind;
use crate::schema::{EnumSchemaView, SchemaView, StructSchemaView};
use crate::serialize::{encode_elements, spec_encode};
use crate::value::{all_conform, all_well_formed, ValueView};
use crate::wire::{
    le_bytes, le_value, lemma_le_bytes_len, lemma_le_bytes_of_value, lemma_le_value_bound,
    lemma_le_value_of_bytes, lemma_radix_values, lemma_signed_unsigned, radix, signed_of,
    unsigned_of,
};
use vstd::prelude::*;
use vstd::utf8::{
    decode_first_scalar, encode_scalar, encode_utf8, length_of_first_scalar,
    pop_first_scalar, take_first_scalar, valid_first_scalar, valid_utf8,
};

verus! {

/// Writing an unsigned integer that was read gives back the bytes read.
pub proof fn lemma_unsigned_round_trip(input: Seq<u8>, width: nat)
    ensures
        decode_unsigned(input, width) matches Ok((u, n)) ==> n == width && le_bytes(u, width)
            == input.subrange(0, width as int) && u < radix(width),
{
    if input.len() >= width {
        let bytes = input.subrange(0, width as int);
        lemma_le_bytes_of_value(bytes);
        lemma_le_value_bound(bytes);
    }
}

/// Writing a signed integer that was read gives back the bytes read.
pub proof fn lemma_signed_round_trip(input: Seq<u8>, width: nat)
    ensures
        decode_unsigned(input, width) matches Ok((u, n)) ==> le_bytes(
            unsigned_of(signed_of(u, width), width),
            width,
        ) == input.subrange(0, width as int),
{
    if input.len() >= width {
        lemma_unsigned_round_trip(input, width);
        lemma_signed_unsigned(le_value(input.subrange(0, width as int)), width);
    }
}

/// Writing a character that was read gives back the bytes read.
pub proof fn lemma_char_round_trip(input: Seq<u8>)
    ensures
        decode_char(input) matches Ok((c, n)) ==> n <= input.len() && encode_scalar(c as u32)
            == input.subrange(0, n as int),
{
    if valid_first_scalar(input) {
        let n = length_of_first_scalar(input);
        let bytes = input.subrange(0, n);
        assert(forall|i: int| 0 <= i < n ==> bytes[i] == input[i]);
        assert(valid_first_scalar(bytes));
        assert(length_of_first_scalar(bytes) == n);
        assert(pop_first_scalar(bytes) =~= Seq::<u8>::empty());
        assert(valid_utf8(bytes)) by {
            reveal_with_fuel(valid_utf8, 2);
        }
        vstd::utf8::decode_utf8_first_scalar(bytes);
        assert(decode_first_scalar(bytes) == decode_first_scalar(input));
        assert(take_first_scalar(bytes) =~= bytes);
        let c = first_char(input);
        assert((c as int) as u32 == c as u32);
    }
}

/// Writing a string that was read gives back the bytes read.
pub proof fn lemma_string_round_trip(input: Seq<u8>)
    ensures
        decode_string(input) matches Ok((s, n)) ==> n <= input.len() && le_bytes(
            encode_utf8(s).len(),
            8,
        ) + encode_utf8(s) == input.subrange(0, n as int),
{
    match decode_string(input) {
        Ok((s, n)) => {
            lemma_unsigned_round_trip(input, 8);
            let len = le_value(input.subrange(0, 8));
            let body = input.subrange(8, 8 + len as int);
            vstd::utf8::decode_utf8_encode_utf8(body);
            assert(le_bytes(len, 8) + body =~= input.subrange(0, n as int));
        },
        Err(_) => {},
    }
}

/// Encoding a decoded value gives back exactly the bytes that the decode
/// consumed: for every schema and every input that decodes under it, the
/// encoding of the value is the consumed prefix of the input. Where the
/// decode consumes the whole input, the encoding is the input.
pub proof fn lemma_round_trip(schema: SchemaView, input: Seq<u8>)
    ensures
        spec_decode(schema, input) matches Ok((value, n)) ==> n <= input.len() && spec_encode(
            value,
        ) == input.subrange(0, n as int),
    decreases schema,
{
    lemma_radix_values();
    match schema {
        SchemaView::I8 => {
            lemma_signed_round_trip(input, 1);
        },
        SchemaView::U8 => {
            lemma_unsigned_round_trip(input, 1);
        },
        SchemaView::I16 => {
            lemma_signed_round_trip(input, 2);
        },
        SchemaView::U16 => {
            lemma_unsigned_round_trip(input, 2);
        },
        SchemaView::I32 => {
            lemma_signed_round_trip(input, 4);
        },
        SchemaView::U32 => {
            lemma_unsigned_round_trip(input, 4);
        },
        SchemaView::I64 => {
            lemma_signed_round_trip(input, 8);
        },
        SchemaView::U64 => {
            lemma_unsigned_round_trip(input, 8);
        },
        SchemaView::I128 => {
            lemma_signed_round_trip(input, 16);
        },
        SchemaView::U128 => {
            lemma_unsigned_round_trip(input, 16);
        },
        SchemaView::F32 => {
            lemma_unsigned_round_trip(input, 4);
        },
        SchemaView::F64 => {
            lemma_unsigned_round_trip(input, 8);
        },
        SchemaView::Bool => {
            if input.len() >= 1 {
                assert(seq![input[0]] =~= input.subrange(0, 1));
            }
        },
        SchemaView::Char => {
            lemma_char_round_trip(input);
        },
        SchemaView::Unit => {
            assert(input.subrange(0, 0) =~= Seq::<u8>::empty());
        },
        SchemaView::String => {
            lemma_string_round_trip(input);
        },
        SchemaView::Struct(s) => {
            lemma_elements_round_trip(s.field_schemas, s.field_schemas.len(), input);
        },
        SchemaView::Tuple(elements) => {
            lemma_elements_round_trip(elements, elements.len(), input);
        },
        SchemaView::TupleStruct(_, elements) => {
            lemma_elements_round_trip(elements, elements.len(), input);
        },
        SchemaView::NewtypeStruct(_, inner) => {
            lemma_round_trip(*inner, input);
        },
        SchemaView::UnitStruct(_) => {
            assert(input.subrange(0, 0) =~= Seq::<u8>::empty());
        },
        SchemaView::Enum(e) => {
            lemma_unsigned_round_trip(input, 4);
        },
    }
}

/// Encoding decoded elements gives back exactly the bytes that their decode
/// consumed.
pub proof fn lemma_elements_round_trip(schemas: Seq<SchemaView>, arity: nat, input: Seq<u8>)
    ensures
        decode_elements(schemas, arity, input) matches Ok((values, n)) ==> n <= input.len()
            && encode_elements(values) == input.subrange(0, n as int),
    decreases schemas,
{
    if schemas.len() == 0 {
        assert(input.subrange(0, 0) =~= Seq::<u8>::empty());
    } else {
        lemma_elements_round_trip(schemas.drop_last(), arity, input);
        match decode_elements(schemas.drop_last(), arity, input) {
            Ok((front, n)) => {
                let rest = input.subrange(n as int, input.len() as int);
                lemma_round_trip(schemas.last(), rest);
                match spec_decode(schemas.last(), rest) {
                    Ok((value, m)) => {
                        let values = front.push(value);
                        assert(values.drop_last() =~= front);
                        assert(values.last() == value);
                        assert(input.subrange(0, n as int) + rest.subrange(0, m as int)
                            =~= input.subrange(0, (n + m) as int));
                    },
                    Err(_) => {},
                }
            },
            Err(_) => {},
        }
    }
}

/// How many bytes the first `k` elements take.
pub open spec fn element_offset(
    schemas: Seq<SchemaView>,
    arity: nat,
    input: Seq<u8>,
    k: int,
) -> nat {
    match decode_elements(schemas.subrange(0, k), arity, input) {
        Ok((_, n)) => n,
        Err(_) => 0,
    }
}

/// Elements are decoded in the order of their schemas, each from the byte
/// at which the one before it ended: the value at position `k` is the
/// decode of the schema at position `k`, read at the offset of element `k`.
pub proof fn lemma_elements_in_order(
    schemas: Seq<SchemaView>,
    arity: nat,
    input: Seq<u8>,
    k: int,
)
    requires
        0 <= k < schemas.len(),
        decode_elements(schemas, arity, input) is Ok,
    ensures
        ({
            let (values, n) = decode_elements(schemas, arity, input)->Ok_0;
            let offset = element_offset(schemas, arity, input, k);
            &&& values.len() == schemas.len()
            &&& offset <= n <= input.len()
            &&& spec_decode(schemas[k], input.subrange(offset as int, input.len() as int))
                matches Ok((value, m))
            &&& value == values[k]
            &&& offset + m <= n
        }),
    decreases schemas.len(),
{
    lemma_decode_elements_in_bounds(schemas, arity, input);
    let front = schemas.drop_last();
    lemma_decode_elements_in_bounds(front, arity, input);
    if k == schemas.len() - 1 {
        assert(schemas.subrange(0, k) =~= front);
        let (_, n) = decode_elements(front, arity, input)->Ok_0;
        lemma_decode_in_bounds(schemas.last(), input.subrange(n as int, input.len() as int));
    } else {
        assert(front.subrange(0, k) =~= schemas.subrange(0, k));
        lemma_elements_in_order(front, arity, input, k);
        let (_, n) = decode_elements(front, arity, input)->Ok_0;
        lemma_decode_in_bounds(schemas.last(), input.subrange(n as int, input.len() as int));
    }
}

/// Decoding a struct keeps the declared order: the value carries the
/// struct's name and its field names in the schema's order, and the value of
/// each field is the decode of that field's schema, read where the field
/// before it ended.
pub proof fn lemma_struct_order_preserved(s: StructSchemaView, input: Seq<u8>, k: int)
    requires
        0 <= k < s.field_schemas.len(),
        spec_decode(SchemaView::Struct(s), input) is Ok,
    ensures
        ({
            let (value, n) = spec_decode(SchemaView::Struct(s), input)->Ok_0;
            let offset = element_offset(s.field_schemas, s.field_schemas.len(), input, k);
            &&& value matches ValueView::Struct { name, field_names, field_values }
            &&& name == s.name
            &&& field_names == s.field_names
            &&& field_values.len() == s.field_schemas.len()
            &&& spec_decode(s.field_schemas[k], input.subrange(offset as int, input.len() as int))
                matches Ok((field, _))
            &&& field == field_values[k]
        }),
{
    lemma_elements_in_order(s.field_schemas, s.field_schemas.len(), input, k);
}

/// Decoding a tuple keeps the declared order: the element at each position
/// is the decode of the schema at that position, read where the element
/// before it ended.
pub proof fn lemma_tuple_order_preserved(elements: Seq<SchemaView>, input: Seq<u8>, k: int)
    requires
        0 <= k < elements.len(),
        spec_decode(SchemaView::Tuple(elements), input) is Ok,
    ensures
        ({
            let (value, n) = spec_decode(SchemaView::Tuple(elements), input)->Ok_0;
            let offset = element_offset(elements, elements.len(), input, k);
            &&& value matches ValueView::Tuple(values)
            &&& values.len() == elements.len()
            &&& spec_decode(elements[k], input.subrange(offset as int, input.len() as int))
                matches Ok((element, _))
            &&& element == values[k]
        }),
{
    lemma_elements_in_order(elements, elements.len(), input, k);
}

/// Each scalar kind decodes to the variant of its own kind, and encoding
/// that value gives back the bytes it was decoded from.
pub proof fn lemma_scalar_round_trip(schema: SchemaView, input: Seq<u8>)
    requires
        scalar(schema),
    ensures
        spec_decode(schema, input) matches Ok((value, n)) ==> {
            &&& value.conforms(schema)
            &&& n <= input.len()
            &&& spec_encode(value) == input.subrange(0, n as int)
        },
{
    lemma_decode_conforms(schema, input);
    lemma_round_trip(schema, input);
}

/// A struct that holds another struct as a field round-trips, and the
/// inner struct round-trips within it: the outer value encodes to the bytes
/// it was decoded from, the field's value is a struct of the inner schema's
/// shape, and its encoding is the part of the input that it was decoded
/// from.
pub proof fn lemma_nested_struct_round_trip(
    outer: StructSchemaView,
    inner: StructSchemaView,
    input: Seq<u8>,
    k: int,
)
    requires
        0 <= k < outer.field_schemas.len(),
        outer.field_schemas[k] == SchemaView::Struct(inner),
        spec_decode(SchemaView::Struct(outer), input) is Ok,
    ensures
        ({
            let (value, n) = spec_decode(SchemaView::Struct(outer), input)->Ok_0;
            let offset = element_offset(outer.field_schemas, outer.field_schemas.len(), input, k);
            &&& spec_encode(value) == input.subrange(0, n as int)
            &&& value matches ValueView::Struct { field_values, .. }
            &&& field_values.len() == outer.field_schemas.len()
            &&& field_values[k] matches ValueView::Struct { name, field_names, .. }
            &&& name == inner.name
            &&& field_names == inner.field_names
            &&& field_values[k].conforms(SchemaView::Struct(inner))
            &&& offset + spec_encode(field_values[k]).len() <= n
            &&& spec_encode(field_values[k]) == input.subrange(
                offset as int,
                (offset + spec_encode(field_values[k]).len()) as int,
            )
        }),
{
    let schemas = outer.field_schemas;
    lemma_round_trip(SchemaView::Struct(outer), input);
    lemma_elements_in_order(schemas, schemas.len(), input, k);
    let offset = element_offset(schemas, schemas.len(), input, k);
    let rest = input.subrange(offset as int, input.len() as int);
    lemma_round_trip(schemas[k], rest);
    lemma_decode_conforms(schemas[k], rest);
    let (field, m) = spec_decode(schemas[k], rest)->Ok_0;
    assert(rest.subrange(0, m as int) =~= input.subrange(offset as int, (offset + m) as int));
}

/// An enum of unit variants is encoded by the position of the variant: for
/// every variant that the schema lists, the 4 bytes of its position decode
/// to the enum value that chooses it, whatever bytes follow, and that value
/// encodes to the same 4 bytes.
pub proof fn lemma_unit_enum_round_trip(e: EnumSchemaView, index: int, rest: Seq<u8>)
    requires
        0 <= index < e.variants.len(),
        index <= u32::MAX,
    ensures
        spec_decode(SchemaView::Enum(e), le_bytes(index as nat, 4) + rest) == Ok::<
            (ValueView, nat),
            ErrorKind,
        >((ValueView::Enum(e, index), 4)),
        spec_encode(ValueView::Enum(e, index)) == le_bytes(index as nat, 4),
{
    lemma_radix_values();
    let tag = le_bytes(index as nat, 4);
    lemma_le_bytes_len(index as nat, 4);
    lemma_le_value_of_bytes(index as nat, 4);
    assert((tag + rest).subrange(0, 4) =~= tag);
}

/// A tag that is the position of no variant is refused: the decode fails
/// with `SchemaMismatch`.
pub proof fn lemma_unit_enum_tag_out_of_range(e: EnumSchemaView, index: int, rest: Seq<u8>)
    requires
        e.variants.len() <= index <= u32::MAX,
    ensures
        spec_decode(SchemaView::Enum(e), le_bytes(index as nat, 4) + rest) == Err::<
            (ValueView, nat),
            ErrorKind,
        >(ErrorKind::SchemaMismatch),
{
    lemma_radix_values();
    let tag = le_bytes(index as nat, 4);
    lemma_le_bytes_len(index as nat, 4);
    lemma_le_value_of_bytes(index as nat, 4);
    assert((tag + rest).subrange(0, 4) =~= tag);
}

/// Reading the bytes of an unsigned integer that fits gives it back,
/// whatever bytes follow.
pub proof fn lemma_unsigned_decodes(value: nat, width: nat, rest: Seq<u8>)
    requires
        value < radix(width),
    ensures
        decode_unsigned(le_bytes(value, width) + rest, width) == Ok::<(nat, nat), ErrorKind>(
            (value, width),
        ),
        le_bytes(value, width).len() == width,
{
    let bytes = le_bytes(value, width);
    lemma_le_bytes_len(value, width);
    lemma_le_value_of_bytes(value, width);
    assert((bytes + rest).subrange(0, width as int) =~= bytes);
}

/// Reading the bytes of a signed integer that fits gives it back, whatever
/// bytes follow.
pub proof fn lemma_signed_decodes(value: int, width: nat, rest: Seq<u8>)
    requires
        -(radix(width) as int) <= 2 * value < radix(width),
    ensures
        decode_signed(le_bytes(unsigned_of(value, width), width) + rest, width) == Ok::<
            (int, nat),
            ErrorKind,
        >((value, width)),
        le_bytes(unsigned_of(value, width), width).len() == width,
{
    crate::wire::lemma_unsigned_signed(value, width);
    lemma_unsigned_decodes(unsigned_of(value, width), width, rest);
}

/// Reading the bytes of a character gives it back, whatever bytes follow.
pub proof fn lemma_char_decodes(scalar: int, rest: Seq<u8>)
    requires
        0 <= scalar <= 0xD7FF || 0xE000 <= scalar <= 0x10FFFF,
    ensures
        decode_char(encode_scalar(scalar as u32) + rest) == Ok::<(int, nat), ErrorKind>(
            (scalar, encode_scalar(scalar as u32).len()),
        ),
{
    let c = scalar as char;
    let chars = seq![c];
    let bytes = encode_scalar(scalar as u32);
    assert(c as u32 == scalar as u32);
    assert(chars.drop_first() =~= Seq::<char>::empty());
    assert(encode_utf8(chars) =~= bytes) by {
        reveal_with_fuel(encode_utf8, 2);
    }
    vstd::utf8::encode_utf8_first_scalar(chars);
    let input = bytes + rest;
    assert(forall|i: int| 0 <= i < bytes.len() ==> input[i] == bytes[i]);
    assert(valid_first_scalar(input));
    assert(decode_first_scalar(input) == decode_first_scalar(bytes));
    assert(length_of_first_scalar(input) == length_of_first_scalar(bytes));
}

/// Reading the bytes of a string gives it back, whatever bytes follow.
pub proof fn lemma_string_decodes(s: Seq<char>, rest: Seq<u8>)
    requires
        encode_utf8(s).len() <= u64::MAX,
    ensures
        decode_string(le_bytes(encode_utf8(s).len(), 8) + encode_utf8(s) + rest) == Ok::<
            (Seq<char>, nat),
            ErrorKind,
        >((s, (8 + encode_utf8(s).len()) as nat)),
        le_bytes(encode_utf8(s).len(), 8).len() == 8,
{
    lemma_radix_values();
    let body = encode_utf8(s);
    let len = body.len();
    let prefix = le_bytes(len, 8);
    let input = prefix + body + rest;
    lemma_unsigned_decodes(len, 8, body + rest);
    assert(prefix + (body + rest) =~= input);
    assert(input.subrange(8, 8 + len as int) =~= body);
    vstd::utf8::encode_utf8_valid_utf8(s);
    vstd::utf8::encode_utf8_decode_utf8(s);
}

/// Decoding undoes encoding: a value that has the shape of a schema and can
/// be encoded decodes, under that schema, from its own bytes to itself,
/// whatever bytes follow, and the decode consumes exactly those bytes.
pub proof fn lemma_encode_decode(schema: SchemaView, value: ValueView, rest: Seq<u8>)
    requires
        value.conforms(schema),
        value.well_formed(),
    ensures
        spec_decode(schema, spec_encode(value) + rest) == Ok::<(ValueView, nat), ErrorKind>(
            (value, spec_encode(value).len()),
        ),
    decreases value,
{
    lemma_radix_values();
    let bytes = spec_encode(value);
    match value {
        ValueView::I8(v) => {
            lemma_signed_decodes(v, 1, rest);
        },
        ValueView::U8(v) => {
            lemma_unsigned_decodes(v as nat, 1, rest);
        },
        ValueView::I16(v) => {
            lemma_signed_decodes(v, 2, rest);
        },
        ValueView::U16(v) => {
            lemma_unsigned_decodes(v as nat, 2, rest);
        },
        ValueView::I32(v) => {
            lemma_signed_decodes(v, 4, rest);
        },
        ValueView::U32(v) => {
            lemma_unsigned_decodes(v as nat, 4, rest);
        },
        ValueView::I64(v) => {
            lemma_signed_decodes(v, 8, rest);
        },
        ValueView::U64(v) => {
            lemma_unsigned_decodes(v as nat, 8, rest);
        },
        ValueView::I128(v) => {
            lemma_signed_decodes(v, 16, rest);
        },
        ValueView::U128(v) => {
            lemma_unsigned_decodes(v as nat, 16, rest);
        },
        ValueView::F32(v) => {
            lemma_unsigned_decodes(v as nat, 4, rest);
        },
        ValueView::F64(v) => {
            lemma_unsigned_decodes(v as nat, 8, rest);
        },
        ValueView::Bool(v) => {
            assert((bytes + rest)[0] == bytes[0]);
        },
        ValueView::Char(v) => {
            lemma_char_decodes(v, rest);
        },
        ValueView::Unit => {
            assert(bytes + rest =~= rest);
        },
        ValueView::String(s) => {
            lemma_string_decodes(s, rest);
        },
        ValueView::TupleStruct(_, elements) => {
            let schemas = schema->TupleStruct_1;
            lemma_elements_encode_decode(schemas, schemas.len(), elements, rest);
        },
        ValueView::NewtypeStruct(_, inner) => {
            lemma_encode_decode(*schema->NewtypeStruct_1, *inner, rest);
        },
        ValueView::Struct { field_values, .. } => {
            let schemas = schema->Struct_0.field_schemas;
            lemma_elements_encode_decode(schemas, schemas.len(), field_values, rest);
        },
        ValueView::Tuple(elements) => {
            let schemas = schema->Tuple_0;
            lemma_elements_encode_decode(schemas, schemas.len(), elements, rest);
        },
        ValueView::UnitStruct(_) => {
            assert(bytes + rest =~= rest);
        },
        ValueView::Enum(_, index) => {
            lemma_unsigned_decodes(index as nat, 4, rest);
        },
    }
}

/// Decoding undoes the encoding of elements, out of an aggregate that holds
/// at least as many elements as there are schemas.
pub proof fn lemma_elements_encode_decode(
    schemas: Seq<SchemaView>,
    arity: nat,
    values: Seq<ValueView>,
    rest: Seq<u8>,
)
    requires
        all_conform(values, schemas),
        all_well_formed(values),
        schemas.len() <= arity,
    ensures
        decode_elements(schemas, arity, encode_elements(values) + rest) == Ok::<
            (Seq<ValueView>, nat),
            ErrorKind,
        >((values, encode_elements(values).len())),
    decreases values,
{
    if values.len() == 0 {
        assert(values =~= Seq::<ValueView>::empty());
    } else {
        let front = values.drop_last();
        let last = values.last();
        let input = encode_elements(values) + rest;
        let tail = spec_encode(last) + rest;
        assert(encode_elements(front) + tail =~= input);
        assert(all_conform(front, schemas.drop_last())) by {
            assert forall|i: int| 0 <= i < front.len() implies (#[trigger] front[i]).conforms(
                schemas.drop_last()[i],
            ) by {
                assert(values[i].conforms(schemas[i]));
            }
        }
        assert(all_well_formed(front)) by {
            assert forall|i: int| 0 <= i < front.len() implies (#[trigger] front[i]).well_formed(
            ) by {
                assert(values[i].well_formed());
            }
        }
        lemma_elements_encode_decode(schemas.drop_last(), arity, front, tail);
        let n = encode_elements(front).len();
        assert(input.subrange(n as int, input.len() as int) =~= tail);
        assert(values[values.len() - 1].conforms(schemas[values.len() - 1]));
        assert(values[values.len() - 1].well_formed());
        lemma_encode_decode(schemas.last(), last, rest);
        assert(front.push(last) =~= values);
    }
}

} // verus!
