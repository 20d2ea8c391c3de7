//! The encoder: from a dynamic value back to bytes in fixed-width framing.

use crate::value::{all_well_formed, field_values_view, values_view, DynamicValue, ValueView};
use crate::wire::{le_bytes, lemma_radix_values, unsigned_of, write_unsigned};
use vstd::prelude::*;
use vstd::utf8::{encode_scalar, encode_utf8};

verus! {

/// The bytes of a value in fixed-width framing.
///
/// A number takes as many bytes as its type, least significant byte first,
/// negative numbers in two's complement; a boolean one byte, 0 or 1; a
/// character its UTF-8 encoding; a string its length in bytes as an unsigned
/// integer of 8 bytes and then its UTF-8 encoding; an enum the position of
/// its variant as an unsigned integer of 4 bytes. The fields or elements of
/// a product follow each other in order. A unit and a unit struct take no
/// bytes, and no name is written.
pub open spec fn spec_encode(value: ValueView) -> Seq<u8>
    decreases value,
{
    match value {
        ValueView::I8(v) => le_bytes(unsigned_of(v, 1), 1),
        ValueView::U8(v) => le_bytes(v as nat, 1),
        ValueView::I16(v) => le_bytes(unsigned_of(v, 2), 2),
        ValueView::U16(v) => le_bytes(v as nat, 2),
        ValueView::I32(v) => le_bytes(unsigned_of(v, 4), 4),
        ValueView::U32(v) => le_bytes(v as nat, 4),
        ValueView::I64(v) => le_bytes(unsigned_of(v, 8), 8),
        ValueView::U64(v) => le_bytes(v as nat, 8),
        ValueView::I128(v) => le_bytes(unsigned_of(v, 16), 16),
        ValueView::U128(v) => le_bytes(v as nat, 16),
        ValueView::F32(v) => le_bytes(v as nat, 4),
        ValueView::F64(v) => le_bytes(v as nat, 8),
        ValueView::Bool(v) => if v {
            seq![1u8]
        } else {
            seq![0u8]
        },
        ValueView::Char(v) => encode_scalar(v as u32),
        ValueView::Unit => Seq::empty(),
        ValueView::String(s) => le_bytes(encode_utf8(s).len(), 8) + encode_utf8(s),
        ValueView::TupleStruct(_, elements) => encode_elements(elements),
        ValueView::NewtypeStruct(_, inner) => spec_encode(*inner),
        ValueView::Struct { field_values, .. } => encode_elements(field_values),
        ValueView::Tuple(elements) => encode_elements(elements),
        ValueView::UnitStruct(_) => Seq::empty(),
        ValueView::Enum(_, index) => le_bytes(index as nat, 4),
    }
}

/// The bytes of the values, one after the other.
pub open spec fn encode_elements(values: Seq<ValueView>) -> Seq<u8>
    decreases values,
{
    if values.len() == 0 {
        Seq::empty()
    } else {
        encode_elements(values.drop_last()) + spec_encode(values.last())
    }
}

/// Appends the UTF-8 encoding of a character.
pub fn write_char(out: &mut Vec<u8>, c: char)
    ensures
        final(out)@ == old(out)@ + encode_scalar(c as u32),
{
    let scalar = c as u32;
    let ghost before = out@;
    if scalar <= 0x7F {
        out.push((scalar & 0x7F) as u8);
        assert(out@ =~= before + encode_scalar(scalar));
    } else if scalar <= 0x7FF {
        out.push(0xC0 | ((scalar >> 6) & 0x1F) as u8);
        out.push(0x80 | (scalar & 0x3F) as u8);
        assert(out@ =~= before + encode_scalar(scalar));
    } else if scalar <= 0xFFFF {
        out.push(0xE0 | ((scalar >> 12) & 0x0F) as u8);
        out.push(0x80 | ((scalar >> 6) & 0x3F) as u8);
        out.push(0x80 | (scalar & 0x3F) as u8);
        assert(out@ =~= before + encode_scalar(scalar));
    } else {
        out.push(0xF0 | ((scalar >> 18) & 0x7) as u8);
        out.push(0x80 | ((scalar >> 12) & 0x3F) as u8);
        out.push(0x80 | ((scalar >> 6) & 0x3F) as u8);
        out.push(0x80 | (scalar & 0x3F) as u8);
        assert(out@ =~= before + encode_scalar(scalar));
    }
}

/// Appends the length of a string and its UTF-8 encoding.
pub fn write_string(out: &mut Vec<u8>, s: &str)
    ensures
        final(out)@ == old(out)@ + (le_bytes(encode_utf8(s@).len(), 8) + encode_utf8(s@)),
{
    let ghost before = out@;
    let bytes = s.as_bytes();
    write_unsigned(out, bytes.len() as u128, 8);
    out.extend_from_slice(bytes);
    assert(out@ =~= before + (le_bytes(encode_utf8(s@).len(), 8) + encode_utf8(s@)));
}

/// Appends a two's complement integer of `width` bytes.
pub fn write_signed(out: &mut Vec<u8>, value: i128, width: usize)
    requires
        crate::deserialize::integer_width(width as nat),
        -(crate::wire::radix(width as nat) as int) <= 2 * value < crate::wire::radix(
            width as nat,
        ),
    ensures
        final(out)@ == old(out)@ + le_bytes(unsigned_of(value as int, width as nat), width as nat),
{
    proof {
        lemma_radix_values();
    }
    let half: u128 = if width == 1 {
        0x80
    } else if width == 2 {
        0x8000
    } else if width == 4 {
        0x8000_0000
    } else if width == 8 {
        0x8000_0000_0000_0000
    } else {
        0x8000_0000_0000_0000_0000_0000_0000_0000
    };
    let unsigned: u128 = if value >= 0 {
        value as u128
    } else if width == 16 {
        (value - i128::MIN) as u128 + half
    } else {
        (value + half as i128) as u128 + half
    };
    write_unsigned(out, unsigned, width);
}

/// The bytes of the first `count + 1` values are those of the first `count`
/// and then those of the next.
pub proof fn lemma_encode_elements_step(values: Seq<ValueView>, count: int)
    requires
        0 <= count < values.len(),
    ensures
        encode_elements(values.subrange(0, count + 1)) == encode_elements(
            values.subrange(0, count),
        ) + spec_encode(values[count]),
{
    let next = values.subrange(0, count + 1);
    assert(next.drop_last() =~= values.subrange(0, count));
    assert(next.last() == values[count]);
}

impl DynamicValue {
    /// Whether the value can be encoded: whether every enum node chooses a
    /// variant that its schema lists.
    pub fn well_formed(&self) -> (b: bool)
        ensures
            b == self@.well_formed(),
        decreases self,
    {
        match self {
            DynamicValue::TupleStruct(_, elements) => Self::elements_well_formed(elements),
            DynamicValue::NewtypeStruct(_, inner) => inner.well_formed(),
            DynamicValue::Struct { fields, .. } => {
                let mut i: usize = 0;
                while i < fields.len()
                    invariant
                        i <= fields.len(),
                        *self matches DynamicValue::Struct { fields: f, .. } && f == fields,
                        forall|j: int|
                            0 <= j < i ==> (#[trigger] field_values_view(
                                fields@,
                            )[j]).well_formed(),
                    decreases fields.len() - i,
                {
                    proof {
                        assert(decreases_to!(*self => self->Struct_fields));
                        assert(decreases_to!(self->Struct_fields => self->Struct_fields[i as int]));
                        assert(decreases_to!(self->Struct_fields[i as int] => self->Struct_fields[i
                            as int].1));
                    }
                    if !fields[i].1.well_formed() {
                        proof {
                            let values = field_values_view(fields@);
                            assert(self@ matches ValueView::Struct { field_values, .. }
                                && field_values == values);
                            assert(!values[i as int].well_formed());
                            assert(!all_well_formed(values));
                        }
                        return false;
                    }
                    i += 1;
                }
                proof {
                    let values = field_values_view(fields@);
                    assert(self@ matches ValueView::Struct { field_values, .. } && field_values
                        == values);
                    assert(all_well_formed(values));
                }
                true
            },
            DynamicValue::Tuple(elements) => Self::elements_well_formed(elements),
            DynamicValue::Enum(schema, index) => (*index as u64) < (schema.variants.len() as u64),
            DynamicValue::String(s) => {
                // The bytes of a string in memory are counted by a `usize`.
                let bytes = s.as_str().as_bytes();
                bytes.len() <= usize::MAX
            },
            _ => true,
        }
    }

    /// Whether every value of the list can be encoded.
    pub fn elements_well_formed(values: &Vec<DynamicValue>) -> (b: bool)
        ensures
            b == all_well_formed(values_view(values@)),
        decreases values,
    {
        let mut i: usize = 0;
        while i < values.len()
            invariant
                i <= values.len(),
                forall|j: int| 0 <= j < i ==> (#[trigger] values_view(values@)[j]).well_formed(),
            decreases values.len() - i,
        {
            proof {
                assert(decreases_to!(*values => values[i as int]));
            }
            if !values[i].well_formed() {
                proof {
                    assert(!values_view(values@)[i as int].well_formed());
                }
                return false;
            }
            i += 1;
        }
        true
    }

    /// Appends the bytes of the value to `serializer`, in the same
    /// fixed-width framing that the decoder reads.
    pub fn serialize(&self, serializer: &mut Vec<u8>)
        requires
            self@.well_formed(),
        ensures
            final(serializer)@ == old(serializer)@ + spec_encode(self@),
        decreases self,
    {
        let ghost before = serializer@;
        proof {
            lemma_radix_values();
        }
        match self {
            DynamicValue::Struct { name, fields } => {
                let ghost values = field_values_view(fields@);
                let mut i: usize = 0;
                proof {
                    assert(values.subrange(0, 0) =~= Seq::<ValueView>::empty());
                    assert(serializer@ =~= before + encode_elements(values.subrange(0, 0)));
                }
                while i < fields.len()
                    invariant
                        i <= fields.len(),
                        *self matches DynamicValue::Struct { fields: f, .. } && f == fields,
                        values == field_values_view(fields@),
                        all_well_formed(values),
                        serializer@ == before + encode_elements(values.subrange(0, i as int)),
                    decreases fields.len() - i,
                {
                    proof {
                        assert(decreases_to!(*self => self->Struct_fields));
                        assert(decreases_to!(self->Struct_fields => self->Struct_fields[i as int]));
                        assert(decreases_to!(self->Struct_fields[i as int] => self->Struct_fields[i
                            as int].1));
                        assert(values[i as int].well_formed());
                        lemma_encode_elements_step(values, i as int);
                    }
                    let ghost sofar = serializer@;
                    fields[i].1.serialize(serializer);
                    proof {
                        assert(serializer@ =~= before + encode_elements(
                            values.subrange(0, i + 1),
                        ));
                    }
                    i += 1;
                }
                proof {
                    assert(values.subrange(0, i as int) =~= values);
                }
            },
            DynamicValue::Tuple(fields) => {
                Self::serialize_elements(fields, serializer);
            },
            DynamicValue::NewtypeStruct(name, value) => {
                value.serialize(serializer);
            },
            DynamicValue::TupleStruct(name, tuple) => {
                Self::serialize_elements(tuple, serializer);
            },
            DynamicValue::UnitStruct(name) => {
                assert(serializer@ =~= before + Seq::<u8>::empty());
            },
            DynamicValue::Enum(schema, idx) => {
                write_unsigned(serializer, *idx as u128, 4);
            },
            DynamicValue::String(s) => {
                write_string(serializer, s.as_str());
            },
            DynamicValue::I8(v) => write_signed(serializer, *v as i128, 1),
            DynamicValue::U8(v) => write_unsigned(serializer, *v as u128, 1),
            DynamicValue::I16(v) => write_signed(serializer, *v as i128, 2),
            DynamicValue::U16(v) => write_unsigned(serializer, *v as u128, 2),
            DynamicValue::I32(v) => write_signed(serializer, *v as i128, 4),
            DynamicValue::U32(v) => write_unsigned(serializer, *v as u128, 4),
            DynamicValue::I64(v) => write_signed(serializer, *v as i128, 8),
            DynamicValue::U64(v) => write_unsigned(serializer, *v as u128, 8),
            DynamicValue::I128(v) => write_signed(serializer, *v, 16),
            DynamicValue::U128(v) => write_unsigned(serializer, *v, 16),
            DynamicValue::Char(v) => write_char(serializer, *v),
            DynamicValue::F32(v) => write_unsigned(serializer, *v as u128, 4),
            DynamicValue::F64(v) => write_unsigned(serializer, *v as u128, 8),
            DynamicValue::Bool(v) => {
                serializer.push(if *v {
                    1
                } else {
                    0
                });
                assert(serializer@ =~= before + spec_encode(self@));
            },
            DynamicValue::Unit => {
                assert(serializer@ =~= before + Seq::<u8>::empty());
            },
        }
    }

    /// Appends the bytes of each value of the list, in order.
    pub fn serialize_elements(values: &Vec<DynamicValue>, serializer: &mut Vec<u8>)
        requires
            all_well_formed(values_view(values@)),
        ensures
            final(serializer)@ == old(serializer)@ + encode_elements(values_view(values@)),
        decreases values,
    {
        let ghost before = serializer@;
        let ghost views = values_view(values@);
        let mut i: usize = 0;
        proof {
            assert(views.subrange(0, 0) =~= Seq::<ValueView>::empty());
            assert(serializer@ =~= before + encode_elements(views.subrange(0, 0)));
        }
        while i < values.len()
            invariant
                i <= values.len(),
                views == values_view(values@),
                all_well_formed(views),
                serializer@ == before + encode_elements(views.subrange(0, i as int)),
            decreases values.len() - i,
        {
            proof {
                assert(decreases_to!(*values => values[i as int]));
                assert(views[i as int].well_formed());
                lemma_encode_elements_step(views, i as int);
            }
            values[i].serialize(serializer);
            proof {
                assert(serializer@ =~= before + encode_elements(views.subrange(0, i + 1)));
            }
            i += 1;
        }
        proof {
            assert(views.subrange(0, i as int) =~= views);
        }
    }
}

} // verus!
