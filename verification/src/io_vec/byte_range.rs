//! Ranges of byte positions.

use vstd::prelude::*;

use crate::err::Error;

use super::BytePos;

verus! {

/// A pair of byte positions naming a half-open span of a region.
///
/// Two same-sign bounds must satisfy `start <= end` at construction; a pair
/// of mixed-sign bounds cannot be ordered without a length and is accepted
/// unchecked.
#[derive(Debug, Clone, Copy, PartialEq, Eq, Structural)]
pub struct ByteRange {
    pub start: BytePos,
    pub end: BytePos,
}

impl ByteRange {
    /// Whether both bounds carry the same sign; only then can the pair be
    /// ordered without knowing a length.
    pub open spec fn spec_same_sign(&self) -> bool {
        self.start.spec_is_absolute() == self.end.spec_is_absolute()
    }

    /// The construction invariant: same-sign bounds are ordered.
    pub open spec fn spec_ordered(&self) -> bool {
        self.spec_same_sign() ==> self.start.0 <= self.end.0
    }

    /// Whether both bounds are absolute offsets.
    pub open spec fn spec_is_absolute(&self) -> bool {
        self.start.spec_is_absolute() && self.end.spec_is_absolute()
    }

    /// Whether both bounds are relative to the end.
    pub open spec fn spec_fully_relative(&self) -> bool {
        self.start.spec_is_relative() && self.end.spec_is_relative()
    }

    /// Whether the range starts at an absolute offset but ends relative to
    /// the end: the one mixed shape the length-independent analysis can
    /// still place between the absolute and the relative runs.
    pub open spec fn spec_is_mixed(&self) -> bool {
        self.start.spec_is_absolute() && self.end.spec_is_relative()
    }

    /// The length-independent order on ranges: lexicographic on the bounds'
    /// ordering keys.
    pub open spec fn spec_le(&self, other: &ByteRange) -> bool {
        self.start.spec_key() < other.start.spec_key() || (self.start.spec_key()
            == other.start.spec_key() && self.end.spec_key() <= other.end.spec_key())
    }

    /// Whether both bounds resolve against `outer_len` and the resolved span
    /// is non-empty.
    pub open spec fn spec_resolvable(&self, outer_len: usize) -> bool {
        &&& self.start.spec_resolvable(outer_len)
        &&& self.end.spec_resolvable(outer_len)
        &&& self.start.spec_resolved(outer_len) < self.end.spec_resolved(outer_len)
    }

    /// Whether resolving either bound against `outer_len` stays within what a
    /// signed 64-bit position can carry.
    pub open spec fn spec_representable(&self, outer_len: usize) -> bool {
        self.start.spec_representable(outer_len) && self.end.spec_representable(outer_len)
    }

    /// The smallest region length this range can resolve against: an
    /// absolute start `v` needs `v + 1` bytes, an absolute end `v` needs `v`,
    /// and a relative bound of magnitude `m` needs `m`.
    pub open spec fn spec_min_outer_len(&self) -> int {
        let start_min = if self.start.0 >= 0 {
            self.start.0 + 1
        } else {
            self.start.spec_magnitude()
        };
        let end_min = if self.end.0 >= 0 {
            self.end.0 as int
        } else {
            self.end.spec_magnitude()
        };
        if start_min >= end_min {
            start_min
        } else {
            end_min
        }
    }

    /// Build a range from two positions.
    ///
    /// Fails exactly when the bounds share a sign and start lies after end
    /// under the length-independent order.
    pub fn new(start: BytePos, end: BytePos) -> (r: Result<Self, Error>)
        ensures
            start.spec_is_absolute() == end.spec_is_absolute() && start.0 > end.0 ==> r == Err::<
                ByteRange,
                Error,
            >(Error::InvalidByteRangeOrdering { start: start.0, end: end.0 }),
            !(start.spec_is_absolute() == end.spec_is_absolute() && start.0 > end.0) ==> r == Ok::<
                ByteRange,
                Error,
            >((ByteRange { start, end })),
            r matches Ok(rg) ==> rg.spec_ordered(),
    {
        if start.is_absolute() == end.is_absolute() && start.0 > end.0 {
            Err(Error::InvalidByteRangeOrdering { start: start.0, end: end.0 })
        } else {
            Ok(ByteRange { start, end })
        }
    }

    /// Build a range from two signed positions.
    pub fn new_i64(start: i64, end: i64) -> (r: Result<Self, Error>)
        ensures
            (start >= 0) == (end >= 0) && start > end ==> r == Err::<ByteRange, Error>(
                Error::InvalidByteRangeOrdering { start, end },
            ),
            !((start >= 0) == (end >= 0) && start > end) ==> r == Ok::<ByteRange, Error>(
                (ByteRange { start: BytePos(start), end: BytePos(end) }),
            ),
    {
        Self::new(BytePos(start), BytePos(end))
    }

    /// Build an always-absolute range from two unsigned offsets.
    pub fn new_usize(start: usize, end: usize) -> (r: Result<Self, Error>)
        requires
            start <= i64::MAX,
            end <= i64::MAX,
        ensures
            start > end ==> r == Err::<ByteRange, Error>(
                Error::InvalidByteRangeOrdering { start: start as i64, end: end as i64 },
            ),
            start <= end ==> r == Ok::<ByteRange, Error>(
                (ByteRange { start: BytePos(start as i64), end: BytePos(end as i64) }),
            ),
    {
        Self::new(BytePos(start as i64), BytePos(end as i64))
    }

    /// Whether both bounds are absolute offsets.
    #[verifier::when_used_as_spec(spec_is_absolute)]
    pub fn is_absolute(&self) -> (r: bool)
        ensures
            r == self.spec_is_absolute(),
    {
        self.start.is_absolute() && self.end.is_absolute()
    }

    /// The length-independent order on ranges.
    pub(crate) fn le(&self, other: &ByteRange) -> (r: bool)
        ensures
            r == self.spec_le(other),
    {
        let sk = self.start.order_key();
        let ok = other.start.order_key();
        if sk < ok {
            true
        } else if sk == ok {
            self.end.order_key() <= other.end.order_key()
        } else {
            false
        }
    }

    /// Resolve both bounds against `outer_len`.
    ///
    /// Fails exactly when a bound does not resolve or the resolved span is
    /// empty or inverted.
    pub fn absolute_start_end(&self, outer_len: usize) -> (r: Result<(BytePos, BytePos), Error>)
        requires
            self.spec_representable(outer_len),
        ensures
            self.spec_resolvable(outer_len) ==> (r matches Ok((s, e)) && s.0
                == self.start.spec_resolved(outer_len) && e.0 == self.end.spec_resolved(outer_len)),
            !self.spec_resolvable(outer_len) ==> r == Err::<(BytePos, BytePos), Error>(
                Error::InvalidByteRange { start: self.start.0, end: self.end.0, outer_len },
            ),
    {
        let rs = self.start.to_absolute(outer_len);
        let re = self.end.to_absolute(outer_len);
        match (rs, re) {
            (Ok(abs_start), Ok(abs_end)) => {
                if abs_start.0 < abs_end.0 {
                    Ok((abs_start, abs_end))
                } else {
                    Err(Error::InvalidByteRange { start: self.start.0, end: self.end.0, outer_len })
                }
            },
            _ => Err(Error::InvalidByteRange { start: self.start.0, end: self.end.0, outer_len }),
        }
    }

    /// Resolve this range to a fully absolute range against `outer_len`.
    pub fn to_absolute(&self, outer_len: usize) -> (r: Result<Self, Error>)
        requires
            self.spec_representable(outer_len),
        ensures
            self.spec_resolvable(outer_len) ==> (r matches Ok(rg) && rg.start.0
                == self.start.spec_resolved(outer_len) && rg.end.0 == self.end.spec_resolved(
                outer_len,
            )),
            !self.spec_resolvable(outer_len) ==> r == Err::<ByteRange, Error>(
                Error::InvalidByteRange { start: self.start.0, end: self.end.0, outer_len },
            ),
    {
        match self.absolute_start_end(outer_len) {
            Ok((start, end)) => Ok(ByteRange { start, end }),
            Err(e) => Err(e),
        }
    }

    /// The length of the resolved span.
    pub fn len(&self, outer_len: usize) -> (r: Result<usize, Error>)
        requires
            self.spec_representable(outer_len),
        ensures
            self.spec_resolvable(outer_len) ==> (r matches Ok(n) && n == self.end.spec_resolved(
                outer_len,
            ) - self.start.spec_resolved(outer_len)),
            !self.spec_resolvable(outer_len) ==> r == Err::<usize, Error>(
                Error::InvalidByteRange { start: self.start.0, end: self.end.0, outer_len },
            ),
    {
        match self.absolute_start_end(outer_len) {
            Ok((abs_start, abs_end)) => Ok((abs_end.0 - abs_start.0) as usize),
            Err(e) => Err(e),
        }
    }

    /// The smallest region length this range can resolve against.
    pub fn min_outer_len(&self) -> (r: u64)
        ensures
            r == self.spec_min_outer_len(),
    {
        let start_min_outer_len: u64 = if self.start.is_absolute() {
            self.start.0 as u64 + 1
        } else {
            self.start.magnitude()
        };
        let end_min_outer_len: u64 = if self.end.is_absolute() {
            self.end.0 as u64
        } else {
            self.end.magnitude()
        };
        if start_min_outer_len >= end_min_outer_len {
            start_min_outer_len
        } else {
            end_min_outer_len
        }
    }

    /// Resolve this range to an offset and a length inside a region of
    /// length `outer_len`.
    pub fn to_offset_len(&self, outer_len: usize) -> (r: Result<(usize, usize), Error>)
        requires
            self.spec_representable(outer_len),
        ensures
            self.spec_resolvable(outer_len) ==> (r matches Ok((off, len)) && off
                == self.start.spec_resolved(outer_len) && len == self.end.spec_resolved(outer_len)
                - self.start.spec_resolved(outer_len)),
            !self.spec_resolvable(outer_len) ==> r == Err::<(usize, usize), Error>(
                Error::InvalidByteRange { start: self.start.0, end: self.end.0, outer_len },
            ),
    {
        match self.absolute_start_end(outer_len) {
            Ok((abs_start, abs_end)) => Ok(
                (abs_start.0 as usize, (abs_end.0 - abs_start.0) as usize),
            ),
            Err(e) => Err(e),
        }
    }
}

} // verus!
