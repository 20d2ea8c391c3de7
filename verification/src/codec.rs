//! The entry points on byte buffers: decode a value under a schema, and
//! encode a value.

use crate::deserialize::{deserialize_dynamic, spec_decode};
use crate::error::{ErrorKind, GenericError};
use crate::roundtrip::lemma_round_trip;
use crate::schema::Schema;
use crate::serialize::spec_encode;
use crate::value::DynamicValue;
use crate::wire::ByteSource;
use vstd::prelude::*;

verus! {

/// Decodes a value of the shape of `schema` from the start of `bytes`, in
/// fixed-width framing. Bytes after the value are ignored.
///
/// Succeeds exactly where [`spec_decode`] does, with its value, and fails
/// with its error otherwise. The value has exactly the shape of the schema,
/// and encoding it gives back the bytes it was decoded from.
pub fn decode(schema: &Schema, bytes: &[u8]) -> (r: Result<DynamicValue, GenericError>)
    ensures
        match spec_decode(schema@, bytes@) {
            Ok((value, n)) => {
                &&& r matches Ok(v)
                &&& v@ == value
                &&& value.conforms(schema@)
                &&& value.well_formed()
                &&& n <= bytes@.len()
                &&& spec_encode(value) == bytes@.subrange(0, n as int)
            },
            Err(kind) => r matches Err(e) && e.kind == kind,
        },
{
    let mut source = ByteSource::new(bytes);
    proof {
        assert(source.remaining() =~= bytes@);
        lemma_round_trip(schema@, bytes@);
    }
    deserialize_dynamic(schema.clone(), &mut source)
}

/// Encodes a value in fixed-width framing.
///
/// Gives the bytes of [`spec_encode`] for every value that can be encoded,
/// and fails with `SchemaMismatch` for a value in which an enum node
/// chooses a variant that its schema does not list.
pub fn encode(value: &DynamicValue) -> (r: Result<Vec<u8>, GenericError>)
    ensures
        match r {
            Ok(bytes) => value@.well_formed() && bytes@ == spec_encode(value@),
            Err(e) => !value@.well_formed() && e.kind == ErrorKind::SchemaMismatch,
        },
{
    if !value.well_formed() {
        return Err(GenericError::new(ErrorKind::SchemaMismatch));
    }
    let mut bytes: Vec<u8> = Vec::new();
    value.serialize(&mut bytes);
    assert(bytes@ =~= spec_encode(value@));
    Ok(bytes)
}

} // verus!
