//! The dynamic value model: decoded data whose shape mirrors a schema.

use crate::schema::{EnumSchema, EnumSchemaView, SchemaView};
use vstd::prelude::*;

verus! {

/// A decoded value that can be inspected and changed at run time.
///
/// The variants mirror those of [`crate::schema::Schema`] one to one. The two
/// floating-point variants hold the IEEE 754 bit pattern of the number, which
/// is what the fixed-width framing carries.
#[derive(Debug, PartialEq, Eq)]
pub enum DynamicValue {
    I8(i8),
    U8(u8),
    I16(i16),
    U16(u16),
    I32(i32),
    U32(u32),
    I64(i64),
    U64(u64),
    I128(i128),
    U128(u128),
    /// The bits of a 32-bit float.
    F32(u32),
    /// The bits of a 64-bit float.
    F64(u64),
    Bool(bool),
    Char(char),
    Unit,
    String(String),
    TupleStruct(String, Vec<DynamicValue>),
    NewtypeStruct(String, Box<DynamicValue>),
    Struct { name: String, fields: Vec<(String, DynamicValue)> },
    Tuple(Vec<DynamicValue>),
    UnitStruct(String),
    /// The schema of the enum and the position of the chosen variant.
    Enum(EnumSchema, u32),
}

/// The mathematical model of a [`DynamicValue`]. Numbers are modelled as
/// mathematical integers, a character as its Unicode scalar value, and a
/// struct as its name and two sequences of the same length, the field names
/// and the field values.
pub enum ValueView {
    I8(int),
    U8(int),
    I16(int),
    U16(int),
    I32(int),
    U32(int),
    I64(int),
    U64(int),
    I128(int),
    U128(int),
    /// The bits of a 32-bit float, as a number.
    F32(int),
    /// The bits of a 64-bit float, as a number.
    F64(int),
    Bool(bool),
    /// The Unicode scalar value of the character.
    Char(int),
    Unit,
    String(Seq<char>),
    TupleStruct(Seq<char>, Seq<ValueView>),
    NewtypeStruct(Seq<char>, Box<ValueView>),
    Struct { name: Seq<char>, field_names: Seq<Seq<char>>, field_values: Seq<ValueView> },
    Tuple(Seq<ValueView>),
    UnitStruct(Seq<char>),
    /// The schema of the enum and the position of the chosen variant.
    Enum(EnumSchemaView, int),
}

/// The models of a sequence of values.
pub open spec fn values_view(values: Seq<DynamicValue>) -> Seq<ValueView>
    decreases values,
{
    Seq::new(
        values.len(),
        |i: int|
            if 0 <= i < values.len() {
                values[i]@
            } else {
                ValueView::Unit
            },
    )
}

/// The names of a sequence of named values.
pub open spec fn value_names_view(fields: Seq<(String, DynamicValue)>) -> Seq<Seq<char>> {
    Seq::new(fields.len(), |i: int| fields[i].0@)
}

/// The values of a sequence of named values.
pub open spec fn field_values_view(fields: Seq<(String, DynamicValue)>) -> Seq<ValueView>
    decreases fields,
{
    Seq::new(
        fields.len(),
        |i: int|
            if 0 <= i < fields.len() {
                fields[i].1@
            } else {
                ValueView::Unit
            },
    )
}

impl View for DynamicValue {
    type V = ValueView;

    open spec fn view(&self) -> ValueView
        decreases self,
    {
        match self {
            DynamicValue::I8(v) => ValueView::I8(*v as int),
            DynamicValue::U8(v) => ValueView::U8(*v as int),
            DynamicValue::I16(v) => ValueView::I16(*v as int),
            DynamicValue::U16(v) => ValueView::U16(*v as int),
            DynamicValue::I32(v) => ValueView::I32(*v as int),
            DynamicValue::U32(v) => ValueView::U32(*v as int),
            DynamicValue::I64(v) => ValueView::I64(*v as int),
            DynamicValue::U64(v) => ValueView::U64(*v as int),
            DynamicValue::I128(v) => ValueView::I128(*v as int),
            DynamicValue::U128(v) => ValueView::U128(*v as int),
            DynamicValue::F32(v) => ValueView::F32(*v as int),
            DynamicValue::F64(v) => ValueView::F64(*v as int),
            DynamicValue::Bool(v) => ValueView::Bool(*v),
            DynamicValue::Char(v) => ValueView::Char(*v as int),
            DynamicValue::Unit => ValueView::Unit,
            DynamicValue::String(s) => ValueView::String(s@),
            DynamicValue::TupleStruct(name, elements) => ValueView::TupleStruct(
                name@,
                values_view(elements@),
            ),
            DynamicValue::NewtypeStruct(name, inner) => ValueView::NewtypeStruct(
                name@,
                Box::new((**inner)@),
            ),
            DynamicValue::Struct { name, fields } => ValueView::Struct {
                name: name@,
                field_names: value_names_view(fields@),
                field_values: field_values_view(fields@),
            },
            DynamicValue::Tuple(elements) => ValueView::Tuple(values_view(elements@)),
            DynamicValue::UnitStruct(name) => ValueView::UnitStruct(name@),
            DynamicValue::Enum(schema, index) => ValueView::Enum(schema@, *index as int),
        }
    }
}

impl ValueView {
    /// Whether the value is the model of some [`DynamicValue`] that can be
    /// encoded: every number fits its type, every character is a Unicode
    /// scalar value, the length in bytes of every string fits in 8 bytes,
    /// and every enum node chooses one of the variants that its schema
    /// lists.
    pub open spec fn well_formed(self) -> bool
        decreases self,
    {
        match self {
            ValueView::I8(v) => i8::MIN <= v <= i8::MAX,
            ValueView::U8(v) => 0 <= v <= u8::MAX,
            ValueView::I16(v) => i16::MIN <= v <= i16::MAX,
            ValueView::U16(v) => 0 <= v <= u16::MAX,
            ValueView::I32(v) => i32::MIN <= v <= i32::MAX,
            ValueView::U32(v) => 0 <= v <= u32::MAX,
            ValueView::I64(v) => i64::MIN <= v <= i64::MAX,
            ValueView::U64(v) => 0 <= v <= u64::MAX,
            ValueView::I128(v) => i128::MIN <= v <= i128::MAX,
            ValueView::U128(v) => 0 <= v <= u128::MAX,
            ValueView::F32(v) => 0 <= v <= u32::MAX,
            ValueView::F64(v) => 0 <= v <= u64::MAX,
            ValueView::Bool(_) => true,
            ValueView::Char(v) => 0 <= v <= 0xD7FF || 0xE000 <= v <= 0x10FFFF,
            ValueView::Unit => true,
            ValueView::String(s) => vstd::utf8::encode_utf8(s).len() <= u64::MAX,
            ValueView::TupleStruct(_, elements) => all_well_formed(elements),
            ValueView::NewtypeStruct(_, inner) => inner.well_formed(),
            ValueView::Struct { field_values, .. } => all_well_formed(field_values),
            ValueView::Tuple(elements) => all_well_formed(elements),
            ValueView::UnitStruct(_) => true,
            ValueView::Enum(schema, index) => 0 <= index < schema.variants.len() && index
                <= u32::MAX,
        }
    }

    /// Whether the value has exactly the shape that the schema describes,
    /// node for node: the same kind, the same names, and the same number of
    /// fields or elements in the same order.
    pub open spec fn conforms(self, schema: SchemaView) -> bool
        decreases self,
    {
        match self {
            ValueView::I8(_) => schema is I8,
            ValueView::U8(_) => schema is U8,
            ValueView::I16(_) => schema is I16,
            ValueView::U16(_) => schema is U16,
            ValueView::I32(_) => schema is I32,
            ValueView::U32(_) => schema is U32,
            ValueView::I64(_) => schema is I64,
            ValueView::U64(_) => schema is U64,
            ValueView::I128(_) => schema is I128,
            ValueView::U128(_) => schema is U128,
            ValueView::F32(_) => schema is F32,
            ValueView::F64(_) => schema is F64,
            ValueView::Bool(_) => schema is Bool,
            ValueView::Char(_) => schema is Char,
            ValueView::Unit => schema is Unit,
            ValueView::String(_) => schema is String,
            ValueView::TupleStruct(name, elements) => {
                &&& schema matches SchemaView::TupleStruct(schema_name, schemas)
                &&& name == schema_name
                &&& all_conform(elements, schemas)
            },
            ValueView::NewtypeStruct(name, inner) => {
                &&& schema matches SchemaView::NewtypeStruct(schema_name, inner_schema)
                &&& name == schema_name
                &&& inner.conforms(*inner_schema)
            },
            ValueView::Struct { name, field_names, field_values } => {
                &&& schema matches SchemaView::Struct(s)
                &&& name == s.name
                &&& field_names == s.field_names
                &&& all_conform(field_values, s.field_schemas)
            },
            ValueView::Tuple(elements) => {
                &&& schema matches SchemaView::Tuple(schemas)
                &&& all_conform(elements, schemas)
            },
            ValueView::UnitStruct(name) => {
                &&& schema matches SchemaView::UnitStruct(schema_name)
                &&& name == schema_name
            },
            ValueView::Enum(e, index) => {
                &&& schema matches SchemaView::Enum(s)
                &&& e == s
                &&& 0 <= index < s.variants.len()
            },
        }
    }
}

/// Whether every value of the sequence can be encoded.
pub open spec fn all_well_formed(values: Seq<ValueView>) -> bool
    decreases values,
{
    forall|i: int| 0 <= i < values.len() ==> (#[trigger] values[i]).well_formed()
}

/// Whether the values match the schemas position by position.
pub open spec fn all_conform(values: Seq<ValueView>, schemas: Seq<SchemaView>) -> bool
    decreases values,
{
    &&& values.len() == schemas.len()
    &&& forall|i: int| 0 <= i < values.len() ==> (#[trigger] values[i]).conforms(schemas[i])
}

/// The models of a sequence with one more value at its end.
pub proof fn lemma_values_view_push(values: Seq<DynamicValue>, value: DynamicValue)
    ensures
        values_view(values.push(value)) == values_view(values).push(value@),
{
    assert(values_view(values.push(value)) =~= values_view(values).push(value@));
}

/// The models of a sequence of named values with one more at its end.
pub proof fn lemma_field_values_view_push(
    fields: Seq<(String, DynamicValue)>,
    name: String,
    value: DynamicValue,
)
    ensures
        field_values_view(fields.push((name, value))) == field_values_view(fields).push(value@),
        value_names_view(fields.push((name, value))) == value_names_view(fields).push(name@),
{
    assert(field_values_view(fields.push((name, value))) =~= field_values_view(fields).push(
        value@,
    ));
    assert(value_names_view(fields.push((name, value))) =~= value_names_view(fields).push(name@));
}

/// A copy of a list of values.
pub fn clone_values(values: &Vec<DynamicValue>) -> (r: Vec<DynamicValue>)
    ensures
        values_view(r@) == values_view(values@),
    decreases values,
{
    let mut out: Vec<DynamicValue> = Vec::new();
    let mut i: usize = 0;
    while i < values.len()
        invariant
            i <= values.len(),
            out.len() == i,
            forall|j: int| 0 <= j < i ==> out[j]@ == values[j]@,
        decreases values.len() - i,
    {
        proof {
            assert(decreases_to!(*values => values[i as int]));
        }
        out.push(values[i].clone());
        i += 1;
    }
    assert(values_view(out@) =~= values_view(values@));
    out
}

impl Clone for DynamicValue {
    fn clone(&self) -> (r: Self)
        ensures
            r@ == self@,
        decreases self,
    {
        match self {
            DynamicValue::I8(v) => DynamicValue::I8(*v),
            DynamicValue::U8(v) => DynamicValue::U8(*v),
            DynamicValue::I16(v) => DynamicValue::I16(*v),
            DynamicValue::U16(v) => DynamicValue::U16(*v),
            DynamicValue::I32(v) => DynamicValue::I32(*v),
            DynamicValue::U32(v) => DynamicValue::U32(*v),
            DynamicValue::I64(v) => DynamicValue::I64(*v),
            DynamicValue::U64(v) => DynamicValue::U64(*v),
            DynamicValue::I128(v) => DynamicValue::I128(*v),
            DynamicValue::U128(v) => DynamicValue::U128(*v),
            DynamicValue::F32(v) => DynamicValue::F32(*v),
            DynamicValue::F64(v) => DynamicValue::F64(*v),
            DynamicValue::Bool(v) => DynamicValue::Bool(*v),
            DynamicValue::Char(v) => DynamicValue::Char(*v),
            DynamicValue::Unit => DynamicValue::Unit,
            DynamicValue::String(s) => DynamicValue::String(s.clone()),
            DynamicValue::TupleStruct(name, elements) => DynamicValue::TupleStruct(
                name.clone(),
                clone_values(elements),
            ),
            DynamicValue::NewtypeStruct(name, inner) => DynamicValue::NewtypeStruct(
                name.clone(),
                Box::new((**inner).clone()),
            ),
            DynamicValue::Struct { name, fields } => {
                let mut out: Vec<(String, DynamicValue)> = Vec::new();
                let mut i: usize = 0;
                while i < fields.len()
                    invariant
                        i <= fields.len(),
                        out.len() == i,
                        *self matches DynamicValue::Struct { fields: f, .. } && f == fields,
                        forall|j: int| 0 <= j < i ==> (#[trigger] out[j]).0@ == fields[j].0@,
                        forall|j: int| 0 <= j < i ==> (#[trigger] out[j]).1@ == fields[j].1@,
                    decreases fields.len() - i,
                {
                    proof {
                        assert(decreases_to!(*self => self->Struct_fields));
                        assert(decreases_to!(self->Struct_fields => self->Struct_fields[i as int]));
                        assert(decreases_to!(self->Struct_fields[i as int] => self->Struct_fields[i
                            as int].1));
                    }
                    out.push((fields[i].0.clone(), fields[i].1.clone()));
                    i += 1;
                }
                proof {
                    assert(value_names_view(out@) =~= value_names_view(fields@));
                    assert(field_values_view(out@) =~= field_values_view(fields@));
                }
                DynamicValue::Struct { name: name.clone(), fields: out }
            },
            DynamicValue::Tuple(elements) => DynamicValue::Tuple(clone_values(elements)),
            DynamicValue::UnitStruct(name) => DynamicValue::UnitStruct(name.clone()),
            DynamicValue::Enum(schema, index) => DynamicValue::Enum(schema.clone(), *index),
        }
    }
}

} // verus!
