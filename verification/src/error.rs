//! Errors of the codec.  Every failure is returned, never raised: each error
//! carries its kind and the key at which it arose.

use vstd::prelude::*;

verus! {

/// The kind of a codec failure.
#[derive(Clone, Copy, Debug, PartialEq, Eq, Structural)]
pub enum ErrorKind {
    /// A required position was absent.
    MissingField,
    /// The stored attribute value had the wrong variant for the requested
    /// shape, or a numeric or character string failed to parse.
    InvalidType,
    /// The root value was not an aggregate (struct, tuple, map, or sum type).
    MissingAggregateRoot,
    /// A composite value was used as a map key.
    UnsupportedKeyType,
    /// A shape not representable in the requested direction, such as a byte
    /// string as a map key.
    UnsupportedShape,
}

/// A codec failure: its kind, and the key at which it arose (empty at the
/// root).
#[derive(Debug)]
pub struct Error {
    /// What went wrong.
    pub kind: ErrorKind,
    /// The key at which it went wrong; empty at the root.
    pub key: String,
}

impl Error {
    /// An error of kind `kind` at key `key`.
    pub fn new(kind: ErrorKind, key: String) -> (r: Error)
        ensures
            r.kind == kind,
            r.key@ == key@,
    {
        Error { kind, key }
    }

    /// An error of kind `kind` at the root.
    pub fn at_root(kind: ErrorKind) -> (r: Error)
        ensures
            r.kind == kind,
            r.key@ == Seq::<char>::empty(),
    {
        let key = String::new();
        Error { kind, key }
    }
}

} // verus!
