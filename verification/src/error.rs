//! The failures of schema inference, decoding and encoding.

use vstd::prelude::*;

verus! {

/// What went wrong. Every failure ends the traversal in which it occurs:
/// there is no recovery and no partial result.
#[derive(Debug, Clone, Copy, PartialEq, Eq, Hash, Structural)]
pub enum ErrorKind {
    /// The shape is one that schemas do not model: a sequence, a map, an
    /// optional value, a raw byte buffer, or any enum met during inference.
    UnsupportedShape,
    /// A nested decode fired while the expected-schema slot was empty.
    SchemaNotProvided,
    /// The bytes declare a shape that the schema does not predict.
    SchemaMismatch,
    /// The byte source itself failed: it ran out of bytes, or the bytes are
    /// no valid encoding of the scalar asked for.
    ProtocolError,
}

/// The error type of this library.
#[derive(Debug, Clone, Copy, PartialEq, Eq, Hash, Structural)]
pub struct GenericError {
    pub kind: ErrorKind,
}

impl GenericError {
    /// An error of the given kind.
    pub fn new(kind: ErrorKind) -> (e: GenericError)
        ensures
            e.kind == kind,
    {
        GenericError { kind }
    }

    /// The kind of this error.
    pub fn kind(&self) -> (k: ErrorKind)
        ensures
            k == self.kind,
    {
        self.kind
    }
}

} // verus!
