//! Failure kinds shared by the indexer and the loader.

use vstd::prelude::*;

verus! {

/// The reasons a read of a TDMS file can fail.
///
/// The indexer aborts only on truncation outside a segment boundary,
/// string-decoding failures, unknown type codes and the carry-over
/// consistency violation; the loader surfaces every kind.
#[derive(Clone, Copy, Debug, PartialEq, Eq, Structural)]
pub enum TdmsErrorKind {
    /// A read ran past the end of the data, or a declared size or offset
    /// does not fit the machine's arithmetic.
    Io,
    /// A length-prefixed string was not valid UTF-8.
    FromUtf8,
    /// A segment requested the carry-over raw-data descriptor for an
    /// object that has never been seen with one.
    NoPreviousObject,
    /// The fixed-size query was made on the variable-length string type.
    StringSizeNotDefined,
    /// A raw type code outside the registry.
    RawDataTypeNotFound,
    /// A load was requested for a path that is not in the index.
    ChannelNotFound,
    /// A load was requested for an object that carries no raw type.
    ObjectHasNoRawData,
    /// Loading this raw type is not offered.
    NotImplemented,
    /// The civil-time conversion found no local time for the instant.
    MalformedTimestamp,
    /// The civil-time conversion found two local times for the instant.
    AmbiguousTimestamp,
}

/// An error of this library: a tagged kind.
#[derive(Clone, Copy, Debug, PartialEq, Eq, Structural)]
pub struct TdmsError {
    pub kind: TdmsErrorKind,
}

impl TdmsError {
    /// Wrap a kind.
    pub fn new(kind: TdmsErrorKind) -> (r: TdmsError)
        ensures
            r.kind == kind,
    {
        TdmsError { kind }
    }
}

} // verus!
