//! The schema-guided decoder: from a schema and bytes in fixed-width framing
//! to a dynamic value of exactly the schema's shape.

use crate::error::{ErrorKind, GenericError};
use crate::schema::{
    lemma_max_height_bounds, max_height, schemas_view, EnumSchema, Schema, SchemaView,
    StructSchema, TupleSchema,
};
use crate::value::{
    all_conform, all_well_formed, field_values_view, lemma_field_values_view_push,
    lemma_values_view_push, value_names_view, values_view, DynamicValue, ValueView,
};
use crate::wire::{
    le_value, lemma_le_value_bound, lemma_radix_values, lemma_signed_unsigned, radix, signed_of,
    ByteSource,
};
use vstd::prelude::*;
use vstd::string::StrSliceExecFns;
use vstd::utf8::{
    decode_first_scalar, decode_utf8, length_of_first_scalar, valid_first_scalar, valid_utf8,
};

verus! {

/// What decoding gives: the value and the number of bytes it took, or the
/// kind of the failure.
pub type Decoded<T> = Result<(T, nat), ErrorKind>;

/// A little-endian unsigned integer of `width` bytes at the start of `input`.
pub open spec fn decode_unsigned(input: Seq<u8>, width: nat) -> Decoded<nat> {
    if input.len() < width {
        Err(ErrorKind::ProtocolError)
    } else {
        Ok((le_value(input.subrange(0, width as int)), width))
    }
}

/// A two's complement integer of `width` bytes at the start of `input`.
pub open spec fn decode_signed(input: Seq<u8>, width: nat) -> Decoded<int> {
    match decode_unsigned(input, width) {
        Ok((u, n)) => Ok((signed_of(u, width), n)),
        Err(e) => Err(e),
    }
}

/// A boolean: one byte, 0 or 1.
pub open spec fn decode_bool(input: Seq<u8>) -> Decoded<bool> {
    if input.len() < 1 {
        Err(ErrorKind::ProtocolError)
    } else if input[0] == 0 {
        Ok((false, 1))
    } else if input[0] == 1 {
        Ok((true, 1))
    } else {
        Err(ErrorKind::ProtocolError)
    }
}

/// The character that the UTF-8 encoding at the start of `input` spells.
pub open spec fn first_char(input: Seq<u8>) -> char {
    decode_first_scalar(input) as char
}

/// A character, as its Unicode scalar value: the UTF-8 encoding of one
/// scalar value.
pub open spec fn decode_char(input: Seq<u8>) -> Decoded<int> {
    if valid_first_scalar(input) {
        Ok((first_char(input) as int, length_of_first_scalar(input) as nat))
    } else {
        Err(ErrorKind::ProtocolError)
    }
}

/// A string: its length in bytes as an unsigned integer of 8 bytes, then
/// that many bytes of UTF-8.
pub open spec fn decode_string(input: Seq<u8>) -> Decoded<Seq<char>> {
    match decode_unsigned(input, 8) {
        Err(e) => Err(e),
        Ok((len, _)) => {
            if len > input.len() - 8 {
                Err(ErrorKind::ProtocolError)
            } else if !valid_utf8(input.subrange(8, 8 + len as int)) {
                Err(ErrorKind::ProtocolError)
            } else {
                Ok((decode_utf8(input.subrange(8, 8 + len as int)), 8 + len))
            }
        },
    }
}

/// The position of an enum's variant: an unsigned integer of 4 bytes that
/// must be the position of one of the `variants` listed variants.
pub open spec fn decode_variant(input: Seq<u8>, variants: nat) -> Decoded<int> {
    match decode_unsigned(input, 4) {
        Err(e) => Err(e),
        Ok((tag, n)) => {
            if tag < variants {
                Ok((tag as int, n))
            } else {
                Err(ErrorKind::SchemaMismatch)
            }
        },
    }
}

/// The value that `schema` reads from the start of `input`.
///
/// Scalars are read in fixed-width framing. The fields or elements of a
/// product follow each other without separators, in the schema's order. A
/// unit and a unit struct take no bytes. Bytes after the value are ignored.
pub open spec fn spec_decode(schema: SchemaView, input: Seq<u8>) -> Decoded<ValueView>
    decreases schema,
{
    match schema {
        SchemaView::I8 => match decode_signed(input, 1) {
            Ok((v, n)) => Ok((ValueView::I8(v), n)),
            Err(e) => Err(e),
        },
        SchemaView::U8 => match decode_unsigned(input, 1) {
            Ok((v, n)) => Ok((ValueView::U8(v as int), n)),
            Err(e) => Err(e),
        },
        SchemaView::I16 => match decode_signed(input, 2) {
            Ok((v, n)) => Ok((ValueView::I16(v), n)),
            Err(e) => Err(e),
        },
        SchemaView::U16 => match decode_unsigned(input, 2) {
            Ok((v, n)) => Ok((ValueView::U16(v as int), n)),
            Err(e) => Err(e),
        },
        SchemaView::I32 => match decode_signed(input, 4) {
            Ok((v, n)) => Ok((ValueView::I32(v), n)),
            Err(e) => Err(e),
        },
        SchemaView::U32 => match decode_unsigned(input, 4) {
            Ok((v, n)) => Ok((ValueView::U32(v as int), n)),
            Err(e) => Err(e),
        },
        SchemaView::I64 => match decode_signed(input, 8) {
            Ok((v, n)) => Ok((ValueView::I64(v), n)),
            Err(e) => Err(e),
        },
        SchemaView::U64 => match decode_unsigned(input, 8) {
            Ok((v, n)) => Ok((ValueView::U64(v as int), n)),
            Err(e) => Err(e),
        },
        SchemaView::I128 => match decode_signed(input, 16) {
            Ok((v, n)) => Ok((ValueView::I128(v), n)),
            Err(e) => Err(e),
        },
        SchemaView::U128 => match decode_unsigned(input, 16) {
            Ok((v, n)) => Ok((ValueView::U128(v as int), n)),
            Err(e) => Err(e),
        },
        SchemaView::F32 => match decode_unsigned(input, 4) {
            Ok((v, n)) => Ok((ValueView::F32(v as int), n)),
            Err(e) => Err(e),
        },
        SchemaView::F64 => match decode_unsigned(input, 8) {
            Ok((v, n)) => Ok((ValueView::F64(v as int), n)),
            Err(e) => Err(e),
        },
        SchemaView::Bool => match decode_bool(input) {
            Ok((v, n)) => Ok((ValueView::Bool(v), n)),
            Err(e) => Err(e),
        },
        SchemaView::Char => match decode_char(input) {
            Ok((v, n)) => Ok((ValueView::Char(v), n)),
            Err(e) => Err(e),
        },
        SchemaView::Unit => Ok((ValueView::Unit, 0)),
        SchemaView::String => match decode_string(input) {
            Ok((v, n)) => Ok((ValueView::String(v), n)),
            Err(e) => Err(e),
        },
        SchemaView::Struct(s) => match decode_elements(
            s.field_schemas,
            s.field_schemas.len(),
            input,
        ) {
            Ok((values, n)) => Ok(
                (
                    ValueView::Struct {
                        name: s.name,
                        field_names: s.field_names,
                        field_values: values,
                    },
                    n,
                ),
            ),
            Err(e) => Err(e),
        },
        SchemaView::Tuple(elements) => match decode_elements(elements, elements.len(), input) {
            Ok((values, n)) => Ok((ValueView::Tuple(values), n)),
            Err(e) => Err(e),
        },
        SchemaView::TupleStruct(name, elements) => match decode_elements(
            elements,
            elements.len(),
            input,
        ) {
            Ok((values, n)) => Ok((ValueView::TupleStruct(name, values), n)),
            Err(e) => Err(e),
        },
        SchemaView::NewtypeStruct(name, inner) => match spec_decode(*inner, input) {
            Ok((value, n)) => Ok((ValueView::NewtypeStruct(name, Box::new(value)), n)),
            Err(e) => Err(e),
        },
        SchemaView::UnitStruct(name) => Ok((ValueView::UnitStruct(name), 0)),
        SchemaView::Enum(e) => match decode_variant(input, e.variants.len()) {
            Ok((index, n)) => Ok((ValueView::Enum(e, index), n)),
            Err(e) => Err(e),
        },
    }
}

/// The values that `schemas` read one after the other from the start of
/// `input`, out of an aggregate that holds `arity` elements. Asking for more
/// elements than the aggregate holds is a `SchemaMismatch`.
pub open spec fn decode_elements(schemas: Seq<SchemaView>, arity: nat, input: Seq<u8>) -> Decoded<
    Seq<ValueView>,
>
    decreases schemas,
{
    if schemas.len() == 0 {
        Ok((Seq::empty(), 0))
    } else {
        match decode_elements(schemas.drop_last(), arity, input) {
            Err(e) => Err(e),
            Ok((values, n)) => {
                if schemas.len() > arity {
                    Err(ErrorKind::SchemaMismatch)
                } else {
                    let rest = input.subrange(n as int, input.len() as int);
                    match spec_decode(schemas.last(), rest) {
                        Err(e) => Err(e),
                        Ok((value, m)) => Ok((values.push(value), n + m)),
                    }
                }
            },
        }
    }
}

/// Whether `width` is the size in bytes of one of the integer types.
pub open spec fn integer_width(width: nat) -> bool {
    width == 1 || width == 2 || width == 4 || width == 8 || width == 16
}

/// Reads a two's complement integer of `width` bytes.
pub fn read_signed(deser: &mut ByteSource, width: usize) -> (r: Result<i128, GenericError>)
    requires
        integer_width(width as nat),
    ensures
        final(deser).input() == old(deser).input(),
        final(deser).expected() == old(deser).expected(),
        match decode_signed(old(deser).remaining(), width as nat) {
            Ok((value, n)) => {
                &&& r matches Ok(v)
                &&& v == value
                &&& -(radix(width as nat) as int) <= 2 * v < radix(width as nat)
                &&& final(deser).consumed() == old(deser).consumed() + n
            },
            Err(kind) => r matches Err(e) && e.kind == kind,
        },
{
    let u = deser.read_unsigned(width)?;
    proof {
        lemma_radix_values();
    }
    let half: u128 = if width == 1 {
        0x80
    } else if width == 2 {
        0x8000
    } else if width == 4 {
        0x8000_0000
    } else if width == 8 {
        0x8000_0000_0000_0000
    } else {
        0x8000_0000_0000_0000_0000_0000_0000_0000
    };
    if u < half {
        Ok(u as i128)
    } else if width == 16 {
        Ok((u - half) as i128 + i128::MIN)
    } else {
        Ok((u - half) as i128 - half as i128)
    }
}

/// Reads a boolean.
pub fn read_bool(deser: &mut ByteSource) -> (r: Result<bool, GenericError>)
    ensures
        final(deser).input() == old(deser).input(),
        final(deser).expected() == old(deser).expected(),
        match decode_bool(old(deser).remaining()) {
            Ok((value, n)) => {
                &&& r == Ok::<bool, GenericError>(value)
                &&& final(deser).consumed() == old(deser).consumed() + n
            },
            Err(kind) => r matches Err(e) && e.kind == kind,
        },
{
    let byte = deser.read_unsigned(1)?;
    proof {
        let input = old(deser).remaining();
        reveal_with_fuel(le_value, 2);
        assert(input.subrange(0, 1).drop_first() =~= Seq::<u8>::empty());
        assert(input.subrange(0, 1)[0] == input[0]);
    }
    if byte == 0 {
        Ok(false)
    } else if byte == 1 {
        Ok(true)
    } else {
        Err(GenericError::new(ErrorKind::ProtocolError))
    }
}

/// Reads a character.
pub fn read_char(deser: &mut ByteSource) -> (r: Result<char, GenericError>)
    ensures
        final(deser).input() == old(deser).input(),
        final(deser).expected() == old(deser).expected(),
        match decode_char(old(deser).remaining()) {
            Ok((value, n)) => {
                &&& r matches Ok(c)
                &&& c as int == value
                &&& final(deser).consumed() == old(deser).consumed() + n
            },
            Err(kind) => r matches Err(e) && e.kind == kind,
        },
{
    let ghost input = deser.remaining();
    let first = match deser.peek() {
        Some(byte) => byte,
        None => {
            return Err(GenericError::new(ErrorKind::ProtocolError));
        },
    };
    let width: usize = if first <= 0x7f {
        1
    } else if 0xc0 <= first && first <= 0xdf {
        2
    } else if 0xe0 <= first && first <= 0xef {
        3
    } else if 0xf0 <= first && first <= 0xf7 {
        4
    } else {
        return Err(GenericError::new(ErrorKind::ProtocolError));
    };
    let bytes = deser.read_bytes(width)?;
    proof {
        assert(forall|i: int| 0 <= i < width ==> bytes@[i] == input[i]);
        assert(vstd::utf8::pop_first_scalar(bytes@) =~= Seq::<u8>::empty()) by {
            assert(length_of_first_scalar(bytes@) == width);
        }
        assert(valid_utf8(Seq::<u8>::empty()));
        assert(valid_utf8(bytes@) <==> valid_first_scalar(bytes@)) by {
            reveal_with_fuel(valid_utf8, 2);
        }
        assert(valid_first_scalar(bytes@) <==> valid_first_scalar(input));
    }
    match core::str::from_utf8(bytes) {
        Ok(text) => {
            proof {
                vstd::utf8::encode_utf8_decode_utf8(text@);
                assert(text@ == decode_utf8(bytes@));
                reveal_with_fuel(decode_utf8, 2);
                assert(decode_utf8(Seq::<u8>::empty()) =~= Seq::<char>::empty());
                assert(text@ =~= seq![decode_first_scalar(bytes@) as char]);
                assert(decode_first_scalar(bytes@) == decode_first_scalar(input));
            }
            Ok(text.get_char(0))
        },
        Err(_) => Err(GenericError::new(ErrorKind::ProtocolError)),
    }
}

/// Reads a string.
pub fn read_string(deser: &mut ByteSource) -> (r: Result<String, GenericError>)
    ensures
        final(deser).input() == old(deser).input(),
        final(deser).expected() == old(deser).expected(),
        match decode_string(old(deser).remaining()) {
            Ok((value, n)) => {
                &&& r matches Ok(s)
                &&& s@ == value
                &&& final(deser).consumed() == old(deser).consumed() + n
            },
            Err(kind) => r matches Err(e) && e.kind == kind,
        },
{
    let ghost input = deser.remaining();
    let len = deser.read_unsigned(8)?;
    if len > deser.remaining_len() as u128 {
        return Err(GenericError::new(ErrorKind::ProtocolError));
    }
    let bytes = deser.read_bytes(len as usize)?;
    proof {
        assert(bytes@ =~= input.subrange(8, 8 + len as int));
    }
    match core::str::from_utf8(bytes) {
        Ok(text) => {
            proof {
                vstd::utf8::encode_utf8_decode_utf8(text@);
            }
            Ok(text.to_owned())
        },
        Err(_) => Err(GenericError::new(ErrorKind::ProtocolError)),
    }
}

/// Reads the position of an enum's variant, out of `variants` variants.
pub fn read_variant(deser: &mut ByteSource, variants: usize) -> (r: Result<u32, GenericError>)
    ensures
        final(deser).input() == old(deser).input(),
        final(deser).expected() == old(deser).expected(),
        match decode_variant(old(deser).remaining(), variants as nat) {
            Ok((value, n)) => {
                &&& r matches Ok(index)
                &&& index as int == value
                &&& final(deser).consumed() == old(deser).consumed() + n
            },
            Err(kind) => r matches Err(e) && e.kind == kind,
        },
{
    let tag = deser.read_unsigned(4)?;
    proof {
        lemma_radix_values();
    }
    if tag < variants as u128 {
        Ok(tag as u32)
    } else {
        Err(GenericError::new(ErrorKind::SchemaMismatch))
    }
}

/// Whether decoding under `schema` hands a schema to a nested decode, and
/// so leaves the slot of the source empty.
pub open spec fn hands_off(schema: SchemaView) -> bool {
    match schema {
        SchemaView::Struct(s) => s.field_schemas.len() > 0,
        SchemaView::Tuple(elements) => elements.len() > 0,
        SchemaView::TupleStruct(_, elements) => elements.len() > 0,
        SchemaView::NewtypeStruct(_, _) => true,
        _ => false,
    }
}

/// What a decode under `schema` owes: the source keeps its bytes, and either
/// the value of [`spec_decode`] is returned and its bytes are consumed, or
/// the error of [`spec_decode`] is returned.
pub open spec fn decoded(
    schema: SchemaView,
    before: ByteSource,
    after: ByteSource,
    r: Result<DynamicValue, GenericError>,
) -> bool {
    &&& after.input() == before.input()
    &&& match spec_decode(schema, before.remaining()) {
        Ok((value, n)) => {
            &&& r matches Ok(v)
            &&& v@ == value
            &&& after.consumed() == before.consumed() + n
            &&& after.expected() == if hands_off(schema) {
                None
            } else {
                before.expected()
            }
        },
        Err(kind) => r matches Err(e) && e.kind == kind,
    }
}

/// The height of the schema that waits in the slot; 0 for an empty slot.
pub open spec fn slot_height(deser: ByteSource) -> nat {
    match deser.expected() {
        Some(schema) => schema.height(),
        None => 0,
    }
}

/// Decoding a value never reads past the end of the input.
pub proof fn lemma_decode_in_bounds(schema: SchemaView, input: Seq<u8>)
    ensures
        spec_decode(schema, input) matches Ok((_, n)) ==> n <= input.len(),
    decreases schema,
{
    match schema {
        SchemaView::Struct(s) => {
            lemma_decode_elements_in_bounds(s.field_schemas, s.field_schemas.len(), input);
        },
        SchemaView::Tuple(elements) => {
            lemma_decode_elements_in_bounds(elements, elements.len(), input);
        },
        SchemaView::TupleStruct(_, elements) => {
            lemma_decode_elements_in_bounds(elements, elements.len(), input);
        },
        SchemaView::NewtypeStruct(_, inner) => {
            lemma_decode_in_bounds(*inner, input);
        },
        _ => {},
    }
}

/// Decoding elements never reads past the end of the input, and gives one
/// value for each schema.
pub proof fn lemma_decode_elements_in_bounds(schemas: Seq<SchemaView>, arity: nat, input: Seq<u8>)
    ensures
        decode_elements(schemas, arity, input) matches Ok((values, n)) ==> n <= input.len()
            && values.len() == schemas.len(),
    decreases schemas,
{
    if schemas.len() > 0 {
        lemma_decode_elements_in_bounds(schemas.drop_last(), arity, input);
        match decode_elements(schemas.drop_last(), arity, input) {
            Ok((_, n)) => {
                let rest = input.subrange(n as int, input.len() as int);
                lemma_decode_in_bounds(schemas.last(), rest);
            },
            Err(_) => {},
        }
    }
}

/// A failure among the first `k` elements is the failure of the whole.
pub proof fn lemma_decode_elements_fails(
    schemas: Seq<SchemaView>,
    arity: nat,
    input: Seq<u8>,
    k: int,
)
    requires
        0 <= k <= schemas.len(),
        decode_elements(schemas.subrange(0, k), arity, input) is Err,
    ensures
        decode_elements(schemas, arity, input) == decode_elements(
            schemas.subrange(0, k),
            arity,
            input,
        ),
    decreases schemas.len() - k,
{
    if k == schemas.len() {
        assert(schemas.subrange(0, k) =~= schemas);
    } else {
        assert(schemas.drop_last().subrange(0, k) =~= schemas.subrange(0, k));
        lemma_decode_elements_fails(schemas.drop_last(), arity, input, k);
    }
}

/// How the decode of `k + 1` elements follows from the decode of `k`.
pub proof fn lemma_decode_elements_step(
    schemas: Seq<SchemaView>,
    arity: nat,
    input: Seq<u8>,
    k: int,
)
    requires
        0 <= k < schemas.len(),
    ensures
        decode_elements(schemas.subrange(0, k + 1), arity, input) == match decode_elements(
            schemas.subrange(0, k),
            arity,
            input,
        ) {
            Err(e) => Err(e),
            Ok((values, n)) => {
                if k + 1 > arity {
                    Err(ErrorKind::SchemaMismatch)
                } else {
                    match spec_decode(schemas[k], input.subrange(n as int, input.len() as int)) {
                        Err(e) => Err(e),
                        Ok((value, m)) => Ok((values.push(value), n + m)),
                    }
                }
            },
        },
{
    let next = schemas.subrange(0, k + 1);
    assert(next.drop_last() =~= schemas.subrange(0, k));
    assert(next.last() == schemas[k]);
}

/// Decoding one element out of an aggregate of one is decoding the value.
pub proof fn lemma_decode_single(inner: SchemaView, input: Seq<u8>)
    ensures
        decode_elements(seq![inner], 1, input) == match spec_decode(inner, input) {
            Ok((value, n)) => Ok::<(Seq<ValueView>, nat), ErrorKind>((seq![value], n)),
            Err(e) => Err(e),
        },
        max_height(seq![inner]) == inner.height(),
{
    let schemas = seq![inner];
    assert(schemas.drop_last() =~= Seq::<SchemaView>::empty());
    assert(schemas.last() == inner);
    assert(input.subrange(0, input.len() as int) =~= input);
    assert(decode_elements(schemas.drop_last(), 1, input) == Ok::<
        (Seq<ValueView>, nat),
        ErrorKind,
    >((Seq::empty(), 0)));
    assert(max_height(schemas.drop_last()) == 0);
    match spec_decode(inner, input) {
        Ok((value, n)) => {
            assert(Seq::<ValueView>::empty().push(value) =~= seq![value]);
        },
        Err(_) => {},
    }
}

/// Whether the schema is that of a scalar: a number, a boolean, a
/// character, a string or the unit.
pub open spec fn scalar(schema: SchemaView) -> bool {
    match schema {
        SchemaView::Struct(_) => false,
        SchemaView::Tuple(_) => false,
        SchemaView::TupleStruct(_, _) => false,
        SchemaView::NewtypeStruct(_, _) => false,
        SchemaView::UnitStruct(_) => false,
        SchemaView::Enum(_) => false,
        _ => true,
    }
}

/// A decoded value has exactly the shape of the schema it was decoded
/// under, node for node and in the schema's order, and can be encoded.
pub proof fn lemma_decode_conforms(schema: SchemaView, input: Seq<u8>)
    ensures
        spec_decode(schema, input) matches Ok((value, _)) ==> value.conforms(schema)
            && value.well_formed(),
    decreases schema,
{
    lemma_radix_values();
    match schema {
        SchemaView::Struct(s) => {
            lemma_decode_elements_conform(s.field_schemas, s.field_schemas.len(), input);
        },
        SchemaView::Tuple(elements) => {
            lemma_decode_elements_conform(elements, elements.len(), input);
        },
        SchemaView::TupleStruct(_, elements) => {
            lemma_decode_elements_conform(elements, elements.len(), input);
        },
        SchemaView::NewtypeStruct(_, inner) => {
            lemma_decode_conforms(*inner, input);
        },
        SchemaView::I8 => {
            lemma_decode_integer_fits(input, 1);
        },
        SchemaView::U8 => {
            lemma_decode_integer_fits(input, 1);
        },
        SchemaView::I16 => {
            lemma_decode_integer_fits(input, 2);
        },
        SchemaView::U16 => {
            lemma_decode_integer_fits(input, 2);
        },
        SchemaView::I32 => {
            lemma_decode_integer_fits(input, 4);
        },
        SchemaView::U32 => {
            lemma_decode_integer_fits(input, 4);
        },
        SchemaView::F32 => {
            lemma_decode_integer_fits(input, 4);
        },
        SchemaView::I64 => {
            lemma_decode_integer_fits(input, 8);
        },
        SchemaView::U64 => {
            lemma_decode_integer_fits(input, 8);
        },
        SchemaView::F64 => {
            lemma_decode_integer_fits(input, 8);
        },
        SchemaView::I128 => {
            lemma_decode_integer_fits(input, 16);
        },
        SchemaView::U128 => {
            lemma_decode_integer_fits(input, 16);
        },
        SchemaView::Enum(_) => {
            lemma_decode_integer_fits(input, 4);
        },
        SchemaView::String => {
            lemma_decode_integer_fits(input, 8);
            match decode_string(input) {
                Ok((s, n)) => {
                    let len = le_value(input.subrange(0, 8));
                    vstd::utf8::decode_utf8_encode_utf8(input.subrange(8, 8 + len as int));
                },
                Err(_) => {},
            }
        },
        _ => {},
    }
}

/// An integer of `width` bytes fits the unsigned and the signed type of
/// that width.
pub proof fn lemma_decode_integer_fits(input: Seq<u8>, width: nat)
    ensures
        decode_unsigned(input, width) matches Ok((u, _)) ==> u < radix(width),
        decode_signed(input, width) matches Ok((v, _)) ==> -(radix(width) as int) <= 2 * v
            < radix(width),
{
    if input.len() >= width {
        let bytes = input.subrange(0, width as int);
        lemma_le_value_bound(bytes);
        lemma_signed_unsigned(le_value(bytes), width);
    }
}

/// Decoded elements match their schemas position by position, and can be
/// encoded.
pub proof fn lemma_decode_elements_conform(schemas: Seq<SchemaView>, arity: nat, input: Seq<u8>)
    ensures
        decode_elements(schemas, arity, input) matches Ok((values, _)) ==> all_conform(
            values,
            schemas,
        ) && all_well_formed(values),
    decreases schemas,
{
    if schemas.len() > 0 {
        lemma_decode_elements_conform(schemas.drop_last(), arity, input);
        match decode_elements(schemas.drop_last(), arity, input) {
            Ok((_, n)) => {
                lemma_decode_conforms(schemas.last(), input.subrange(n as int, input.len() as int));
            },
            Err(_) => {},
        }
    }
}

/// The elements that an open aggregate of the source still holds.
pub struct SeqAccess {
    pub len: usize,
}

/// The result of a nested decode: the value that was built for the schema
/// that waited in the slot of the source.
pub struct SchemaDeserializer(pub DynamicValue);

/// Builds a struct from the elements of an aggregate.
pub struct StructVisitor(pub StructSchema);

/// Builds a tuple from the elements of an aggregate.
pub struct TupleVisitor(pub TupleSchema);

/// Builds an enum value from the tag of a variant.
pub struct EnumVisitor(pub EnumSchema);

impl SchemaDeserializer {
    /// Sets the schema that the next nested decode from `deser` must produce.
    pub fn set_schema(deser: &mut ByteSource, schema: Schema)
        ensures
            final(deser).expected() == Some(schema@),
            final(deser).input() == old(deser).input(),
            final(deser).consumed() == old(deser).consumed(),
    {
        deser.expect(schema);
    }

    /// Decodes a value of the schema that waits in the slot of `deser`, and
    /// empties the slot. Fails with `SchemaNotProvided`, reading nothing,
    /// where the slot is empty.
    pub fn deserialize(deser: &mut ByteSource) -> (r: Result<SchemaDeserializer, GenericError>)
        ensures
            final(deser).input() == old(deser).input(),
            match old(deser).expected() {
                None => {
                    &&& r matches Err(e)
                    &&& e.kind == ErrorKind::SchemaNotProvided
                    &&& final(deser).consumed() == old(deser).consumed()
                    &&& final(deser).expected() is None
                },
                Some(schema) => match spec_decode(schema, old(deser).remaining()) {
                    Ok((value, n)) => {
                        &&& r matches Ok(d)
                        &&& d.0@ == value
                        &&& value.conforms(schema)
                        &&& value.well_formed()
                        &&& final(deser).consumed() == old(deser).consumed() + n
                        &&& final(deser).expected() is None
                    },
                    Err(kind) => r matches Err(e) && e.kind == kind,
                },
            },
        decreases slot_height(*old(deser)), 1nat,
    {
        let schema = match deser.take_expected() {
            Some(schema) => schema,
            None => {
                return Err(GenericError::new(ErrorKind::SchemaNotProvided));
            },
        };
        match deserialize_dynamic(schema, deser) {
            Ok(value) => Ok(SchemaDeserializer(value)),
            Err(e) => Err(e),
        }
    }
}

impl SeqAccess {
    /// The next element of the aggregate, decoded under the schema that
    /// waits in the slot of `deser`; `None`, reading nothing, where the
    /// aggregate holds no more elements.
    pub fn next_element(&mut self, deser: &mut ByteSource) -> (r: Result<
        Option<SchemaDeserializer>,
        GenericError,
    >)
        ensures
            final(deser).input() == old(deser).input(),
            old(self).len == 0 ==> {
                &&& r matches Ok(None)
                &&& final(self).len == 0
                &&& final(deser).consumed() == old(deser).consumed()
                &&& final(deser).expected() == old(deser).expected()
            },
            old(self).len > 0 ==> {
                &&& final(self).len == old(self).len - 1
                &&& match old(deser).expected() {
                    None => {
                        &&& r matches Err(e)
                        &&& e.kind == ErrorKind::SchemaNotProvided
                    },
                    Some(schema) => match spec_decode(schema, old(deser).remaining()) {
                        Ok((value, n)) => {
                            &&& r matches Ok(Some(d))
                            &&& d.0@ == value
                            &&& final(deser).consumed() == old(deser).consumed() + n
                            &&& final(deser).expected() is None
                        },
                        Err(kind) => r matches Err(e) && e.kind == kind,
                    },
                }
            },
        decreases slot_height(*old(deser)), 2nat,
    {
        if self.len > 0 {
            self.len -= 1;
            let value = SchemaDeserializer::deserialize(deser)?;
            Ok(Some(value))
        } else {
            Ok(None)
        }
    }
}

impl TupleVisitor {
    /// Decodes one element for each schema of the tuple, in order, out of
    /// an aggregate that holds `seq.len` elements.
    pub fn visit_seq(self, seq: SeqAccess, deser: &mut ByteSource) -> (r: Result<
        DynamicValue,
        GenericError,
    >)
        ensures
            final(deser).input() == old(deser).input(),
            match decode_elements(
                schemas_view(self.0@),
                seq.len as nat,
                old(deser).remaining(),
            ) {
                Ok((values, n)) => {
                    &&& r matches Ok(v)
                    &&& v@ == ValueView::Tuple(values)
                    &&& final(deser).consumed() == old(deser).consumed() + n
                    &&& final(deser).expected() == if self.0@.len() > 0 {
                        None
                    } else {
                        old(deser).expected()
                    }
                },
                Err(kind) => r matches Err(e) && e.kind == kind,
            },
        decreases max_height(schemas_view(self.0@)), 3nat,
    {
        let mut access = seq;
        let ghost schemas = schemas_view(self.0@);
        let ghost arity = seq.len as nat;
        let ghost input = deser.remaining();
        let ghost start = deser.consumed();
        let begin = deser.position();
        let mut fields: Vec<DynamicValue> = Vec::new();
        let mut i: usize = 0;
        proof {
            assert(schemas.subrange(0, 0) =~= Seq::<SchemaView>::empty());
            assert(values_view(fields@) =~= Seq::<ValueView>::empty());
        }
        while i < self.0.len()
            invariant
                i <= self.0.len(),
                schemas == schemas_view(self.0@),
                input == old(deser).remaining(),
                start == old(deser).consumed(),
                deser.input() == old(deser).input(),
                start <= deser.consumed() <= deser.input().len(),
                fields.len() == i,
                i <= arity,
                arity == seq.len as nat,
                access.len == arity - i,
                decode_elements(schemas.subrange(0, i as int), arity, input) == Ok::<
                    (Seq<ValueView>, nat),
                    ErrorKind,
                >((values_view(fields@), (deser.consumed() - start) as nat)),
                deser.expected() == if i > 0 {
                    None
                } else {
                    old(deser).expected()
                },
            decreases self.0.len() - i,
        {
            let ghost done = values_view(fields@);
            let ghost used = (deser.consumed() - start) as nat;
            proof {
                lemma_decode_elements_step(schemas, arity, input, i as int);
                assert(deser.remaining() =~= input.subrange(used as int, input.len() as int));
                lemma_max_height_bounds(schemas, i as int);
                lemma_decode_in_bounds(schemas[i as int], deser.remaining());
            }
            SchemaDeserializer::set_schema(deser, self.0[i].clone());
            let element = match access.next_element(deser) {
                Ok(element) => element,
                Err(e) => {
                    proof {
                        lemma_decode_elements_fails(schemas, arity, input, i + 1);
                    }
                    return Err(e);
                },
            };
            let value = match element {
                Some(SchemaDeserializer(value)) => value,
                None => {
                    proof {
                        lemma_decode_elements_fails(schemas, arity, input, i + 1);
                    }
                    return Err(GenericError::new(ErrorKind::SchemaMismatch));
                },
            };
            proof {
                lemma_values_view_push(fields@, value);
            }
            fields.push(value);
            i += 1;
        }
        proof {
            assert(schemas.subrange(0, i as int) =~= schemas);
        }
        Ok(DynamicValue::Tuple(fields))
    }
}

impl StructVisitor {
    /// Decodes one element for each field of the struct, in order, out of
    /// an aggregate that holds `seq.len` elements, and names each value
    /// after its field.
    pub fn visit_seq(self, seq: SeqAccess, deser: &mut ByteSource) -> (r: Result<
        DynamicValue,
        GenericError,
    >)
        ensures
            final(deser).input() == old(deser).input(),
            match decode_elements(self.0@.field_schemas, seq.len as nat, old(deser).remaining()) {
                Ok((values, n)) => {
                    &&& r matches Ok(v)
                    &&& v@ == (ValueView::Struct {
                        name: self.0@.name,
                        field_names: self.0@.field_names,
                        field_values: values,
                    })
                    &&& final(deser).consumed() == old(deser).consumed() + n
                    &&& final(deser).expected() == if self.0.fields@.len() > 0 {
                        None
                    } else {
                        old(deser).expected()
                    }
                },
                Err(kind) => r matches Err(e) && e.kind == kind,
            },
        decreases max_height(self.0@.field_schemas), 3nat,
    {
        let mut access = seq;
        let ghost schemas = self.0@.field_schemas;
        let ghost names = self.0@.field_names;
        let ghost arity = seq.len as nat;
        let ghost input = deser.remaining();
        let ghost start = deser.consumed();
        let begin = deser.position();
        let mut fields: Vec<(String, DynamicValue)> = Vec::new();
        let mut i: usize = 0;
        proof {
            assert(schemas.subrange(0, 0) =~= Seq::<SchemaView>::empty());
            assert(field_values_view(fields@) =~= Seq::<ValueView>::empty());
            assert(value_names_view(fields@) =~= names.subrange(0, 0));
        }
        while i < self.0.fields.len()
            invariant
                i <= self.0.fields.len(),
                schemas == self.0@.field_schemas,
                names == self.0@.field_names,
                schemas.len() == self.0.fields@.len(),
                names.len() == self.0.fields@.len(),
                input == old(deser).remaining(),
                start == old(deser).consumed(),
                deser.input() == old(deser).input(),
                start <= deser.consumed() <= deser.input().len(),
                fields.len() == i,
                i <= arity,
                arity == seq.len as nat,
                access.len == arity - i,
                value_names_view(fields@) == names.subrange(0, i as int),
                decode_elements(schemas.subrange(0, i as int), arity, input) == Ok::<
                    (Seq<ValueView>, nat),
                    ErrorKind,
                >((field_values_view(fields@), (deser.consumed() - start) as nat)),
                deser.expected() == if i > 0 {
                    None
                } else {
                    old(deser).expected()
                },
            decreases self.0.fields.len() - i,
        {
            let ghost used = (deser.consumed() - start) as nat;
            proof {
                lemma_decode_elements_step(schemas, arity, input, i as int);
                assert(deser.remaining() =~= input.subrange(used as int, input.len() as int));
                lemma_max_height_bounds(schemas, i as int);
                lemma_decode_in_bounds(schemas[i as int], deser.remaining());
            }
            SchemaDeserializer::set_schema(deser, self.0.fields[i].1.clone());
            let element = match access.next_element(deser) {
                Ok(element) => element,
                Err(e) => {
                    proof {
                        lemma_decode_elements_fails(schemas, arity, input, i + 1);
                    }
                    return Err(e);
                },
            };
            let value = match element {
                Some(SchemaDeserializer(value)) => value,
                None => {
                    proof {
                        lemma_decode_elements_fails(schemas, arity, input, i + 1);
                    }
                    return Err(GenericError::new(ErrorKind::SchemaMismatch));
                },
            };
            let name = self.0.fields[i].0.clone();
            proof {
                lemma_field_values_view_push(fields@, name, value);
                assert(names.subrange(0, i + 1) =~= names.subrange(0, i as int).push(name@));
            }
            fields.push((name, value));
            i += 1;
        }
        proof {
            assert(schemas.subrange(0, i as int) =~= schemas);
            assert(names.subrange(0, i as int) =~= names);
        }
        Ok(DynamicValue::Struct { name: self.0.name, fields })
    }
}

impl EnumVisitor {
    /// Reads the tag of a variant and builds the enum value that chooses
    /// the variant at that position. Fails with `SchemaMismatch` where the
    /// tag is the position of no variant of the schema.
    pub fn visit_enum(self, deser: &mut ByteSource) -> (r: Result<DynamicValue, GenericError>)
        ensures
            final(deser).input() == old(deser).input(),
            final(deser).expected() == old(deser).expected(),
            match decode_variant(old(deser).remaining(), self.0@.variants.len()) {
                Ok((index, n)) => {
                    &&& r matches Ok(v)
                    &&& v@ == ValueView::Enum(self.0@, index)
                    &&& final(deser).consumed() == old(deser).consumed() + n
                },
                Err(kind) => r matches Err(e) && e.kind == kind,
            },
    {
        let index = read_variant(deser, self.0.variants.len())?;
        Ok(DynamicValue::Enum(self.0, index))
    }
}

/// Decodes a scalar in fixed-width framing.
pub fn deserialize_scalar(schema: &Schema, deser: &mut ByteSource) -> (r: Result<
    DynamicValue,
    GenericError,
>)
    requires
        scalar(schema@),
    ensures
        decoded(schema@, *old(deser), *final(deser), r),
{
    proof {
        lemma_radix_values();
    }
    match schema {
        Schema::U8 => Ok(DynamicValue::U8(deser.read_unsigned(1)? as u8)),
        Schema::I8 => Ok(DynamicValue::I8(read_signed(deser, 1)? as i8)),
        Schema::U16 => Ok(DynamicValue::U16(deser.read_unsigned(2)? as u16)),
        Schema::I16 => Ok(DynamicValue::I16(read_signed(deser, 2)? as i16)),
        Schema::U32 => Ok(DynamicValue::U32(deser.read_unsigned(4)? as u32)),
        Schema::I32 => Ok(DynamicValue::I32(read_signed(deser, 4)? as i32)),
        Schema::U64 => Ok(DynamicValue::U64(deser.read_unsigned(8)? as u64)),
        Schema::I64 => Ok(DynamicValue::I64(read_signed(deser, 8)? as i64)),
        Schema::U128 => Ok(DynamicValue::U128(deser.read_unsigned(16)?)),
        Schema::I128 => Ok(DynamicValue::I128(read_signed(deser, 16)?)),
        Schema::F32 => Ok(DynamicValue::F32(deser.read_unsigned(4)? as u32)),
        Schema::F64 => Ok(DynamicValue::F64(deser.read_unsigned(8)? as u64)),
        Schema::Bool => Ok(DynamicValue::Bool(read_bool(deser)?)),
        Schema::Char => Ok(DynamicValue::Char(read_char(deser)?)),
        Schema::Unit => Ok(DynamicValue::Unit),
        Schema::String => Ok(DynamicValue::String(read_string(deser)?)),
        _ => vstd::pervasive::unreached(),
    }
}

/// Builds a [`DynamicValue`] of the shape of `schema` from the bytes that
/// `deser` has not read yet, and consumes exactly the bytes of that value.
///
/// The result is the value of [`spec_decode`], or its error: a
/// `ProtocolError` where the bytes end early or are no valid encoding of a
/// scalar, a `SchemaMismatch` where the tag of an enum names no variant. A
/// value that is returned has exactly the shape of the schema and can be
/// encoded again. After an error the traversal is over: where the source
/// then stands is not stated.
pub fn deserialize_dynamic(schema: Schema, deser: &mut ByteSource) -> (r: Result<
    DynamicValue,
    GenericError,
>)
    ensures
        decoded(schema@, *old(deser), *final(deser), r),
        r matches Ok(value) ==> value@.conforms(schema@) && value@.well_formed(),
    decreases schema@.height(), 0nat,
{
    proof {
        lemma_decode_conforms(schema@, deser.remaining());
    }
    match schema {
        Schema::Struct(schema) => {
            let seq = SeqAccess { len: schema.fields.len() };
            StructVisitor(schema).visit_seq(seq, deser)
        },
        Schema::NewtypeStruct(name, schema) => {
            proof {
                lemma_decode_single(schema@, deser.remaining());
            }
            let elements: Vec<Schema> = vec![*schema];
            proof {
                assert(schemas_view(elements@) =~= seq![schema@]);
            }
            let struct_ = TupleVisitor(elements).visit_seq(SeqAccess { len: 1 }, deser)?;
            match struct_ {
                DynamicValue::Tuple(mut tuple) => {
                    proof {
                        assert(values_view(tuple@).len() == 1);
                        assert(values_view(tuple@)[0] == tuple@[0]@);
                    }
                    let value = tuple.remove(0);
                    Ok(DynamicValue::NewtypeStruct(name, Box::new(value)))
                },
                _ => vstd::pervasive::unreached(),
            }
        },
        Schema::Tuple(schema) => {
            let seq = SeqAccess { len: schema.len() };
            TupleVisitor(schema).visit_seq(seq, deser)
        },
        Schema::TupleStruct(name, schema) => {
            let seq = SeqAccess { len: schema.len() };
            let tuple = TupleVisitor(schema).visit_seq(seq, deser)?;
            match tuple {
                DynamicValue::Tuple(tuple) => Ok(DynamicValue::TupleStruct(name, tuple)),
                _ => vstd::pervasive::unreached(),
            }
        },
        Schema::UnitStruct(name) => Ok(DynamicValue::UnitStruct(name)),
        Schema::Enum(schema) => EnumVisitor(schema).visit_enum(deser),
        scalar => deserialize_scalar(&scalar, deser),
    }
}

} // verus!
