//! Failure kinds of the connector and of the batched I/O engine.

use vstd::prelude::*;

verus! {

/// One failure kind per distinct failure path; no failure is reported as a
/// bare boolean.
///
/// `OpenFailed`, `StatFailed` arise while a backing file is opened and sized,
/// which happens outside this library; they abort construction entirely.
/// The remaining kinds are produced here: `MappingFailed` and `OutOfBounds`
/// at construction, `OutOfBounds`, `ReadOnlyViolation` and `ShortIo` per
/// batch element.
#[derive(Clone, Copy, Debug, PartialEq, Eq, Structural)]
pub enum MemError {
    /// The backing file could not be opened.
    OpenFailed,
    /// The length of the backing file could not be determined.
    StatFailed,
    /// The image could not be established (it is empty).
    MappingFailed,
    /// An address or address range is not covered by the remap table.
    OutOfBounds,
    /// A write was attempted on a read-only instance.
    ReadOnlyViolation,
    /// A translated range runs past the end of the backing image.
    ShortIo,
}

impl MemError {
    /// A human-readable cause, for diagnostics.
    pub fn describe(&self) -> (r: String)
        ensures
            r@ == self.spec_describe(),
    {
        match self {
            MemError::OpenFailed => "open failed".to_owned(),
            MemError::StatFailed => "stat failed".to_owned(),
            MemError::MappingFailed => "mapping failed".to_owned(),
            MemError::OutOfBounds => "address out of bounds".to_owned(),
            MemError::ReadOnlyViolation => "write to read-only memory".to_owned(),
            MemError::ShortIo => "short read or write".to_owned(),
        }
    }

    /// The text `describe` returns for each kind.
    pub open spec fn spec_describe(&self) -> Seq<char> {
        match self {
            MemError::OpenFailed => "open failed"@,
            MemError::StatFailed => "stat failed"@,
            MemError::MappingFailed => "mapping failed"@,
            MemError::OutOfBounds => "address out of bounds"@,
            MemError::ReadOnlyViolation => "write to read-only memory"@,
            MemError::ShortIo => "short read or write"@,
        }
    }
}

} // verus!
