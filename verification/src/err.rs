//! Error taxonomy shared by every fallible operation of the crate.
//!
//! Callers are expected to match on the kind of the error; the numeric fields
//! carry the offending bounds and lengths for diagnostics.

use vstd::prelude::*;

verus! {

/// The reason a conversion, resolution or split was refused.
#[derive(Debug)]
pub enum Error {
    /// A handle or segment conversion (or a merge) failed its
    /// reference-count or region-identity check.
    ConversionFailed { from_type: String, to_type: String, reason: String },
    /// A byte position cannot be resolved against the given outer length:
    /// an absolute position beyond the end, or a relative magnitude larger
    /// than the length.
    InvalidBytePos { pos: i64, outer_len: usize },
    /// A range was built from two same-sign positions with start after end.
    InvalidByteRangeOrdering { start: i64, end: i64 },
    /// A range failed to resolve against the given outer length, or resolved
    /// to an empty or inverted span.
    InvalidByteRange { start: i64, end: i64, outer_len: usize },
    /// A view-set cannot be used with the given outer length: the length is
    /// below the view-set's minimum, or a contained range failed resolution.
    InvalidIoVec { start: i64, end: i64, outer_len: usize },
    /// A mutable split was attempted on ranges that overlap at this length.
    OverlappingIoVec { outer_len: usize },
}

impl Error {
    /// A conversion failure between the named handle or segment kinds, with
    /// the reason the reference-count or identity check gave.
    pub(crate) fn conversion_failed(from_type: &str, to_type: &str, reason: &str) -> (e: Error)
        ensures
            e is ConversionFailed,
    {
        Error::ConversionFailed {
            from_type: to_owned_string(from_type),
            to_type: to_owned_string(to_type),
            reason: to_owned_string(reason),
        }
    }
}

/// Relies on alloc's `str::to_string`: the returned `String` holds exactly
/// this slice's characters.
#[verifier::external_body]
fn to_owned_string(s: &str) -> (r: String)
    ensures
        r@ == s@,
{
    s.to_string()
}

} // verus!
