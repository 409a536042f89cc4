//! Errors reported by the codec.

use vstd::prelude::*;

verus! {

/// Why an encode or a decode call was refused.
#[derive(Clone, Copy, Debug, PartialEq, Eq, Structural)]
pub enum SnapshotError {
    /// Encode only: a value of the state does not fit the width of its wire field.
    RangeOverflow,
    /// Decode only: the bytes break the wire schema (truncated or ill-formed
    /// record, missing required field, key of the wrong length, duplicate key,
    /// numeric field outside its domain).
    MalformedSnapshot,
    /// Decode only: the record is well formed but breaks an invariant that
    /// relates several of its fields.
    InvariantViolation,
    /// Decode only: the record declares a schema version newer than this codec.
    UnsupportedVersion,
}

impl SnapshotError {
    /// A short description of the error.
    pub fn message(&self) -> (text: &'static str)
        ensures
            text@ == error_text(*self),
    {
        match self {
            SnapshotError::RangeOverflow => "value out of representable range",
            SnapshotError::MalformedSnapshot => "malformed snapshot",
            SnapshotError::InvariantViolation => "snapshot violates a ledger invariant",
            SnapshotError::UnsupportedVersion => "unsupported snapshot version",
        }
    }
}

/// The text that [`SnapshotError::message`] returns for each error.
pub open spec fn error_text(e: SnapshotError) -> Seq<char> {
    match e {
        SnapshotError::RangeOverflow => "value out of representable range"@,
        SnapshotError::MalformedSnapshot => "malformed snapshot"@,
        SnapshotError::InvariantViolation => "snapshot violates a ledger invariant"@,
        SnapshotError::UnsupportedVersion => "unsupported snapshot version"@,
    }
}

} // verus!
