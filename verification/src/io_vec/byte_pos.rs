//! Signed logical byte positions.

use vstd::prelude::*;

use core::cmp::Ordering;

use crate::err::Error;

verus! {

/// A signed logical byte position inside a region.
///
/// A non-negative value is an absolute offset from the start of the region.
/// A negative value `-m` is relative and names the position `m` bytes before
/// the end, so it can only be resolved once the region's length is known.
#[derive(Debug, Clone, Copy, PartialEq, Eq, Structural)]
pub struct BytePos(pub i64);

impl BytePos {
    /// Whether this position is an absolute offset from the start.
    pub open spec fn spec_is_absolute(&self) -> bool {
        self.0 >= 0
    }

    /// Whether this position is counted back from the end.
    pub open spec fn spec_is_relative(&self) -> bool {
        self.0 < 0
    }

    /// The magnitude of a relative position, as a mathematical integer.
    pub open spec fn spec_magnitude(&self) -> int
        recommends
            self.spec_is_relative(),
    {
        -(self.0 as int)
    }

    /// Whether this position resolves to an absolute offset inside a region
    /// of length `outer_len`: an absolute position must not pass the end, a
    /// relative magnitude must not exceed the length.
    pub open spec fn spec_resolvable(&self, outer_len: usize) -> bool {
        if self.0 >= 0 {
            self.0 <= outer_len
        } else {
            self.spec_magnitude() <= outer_len
        }
    }

    /// The absolute offset this position resolves to against `outer_len`.
    pub open spec fn spec_resolved(&self, outer_len: usize) -> int
        recommends
            self.spec_resolvable(outer_len),
    {
        if self.0 >= 0 {
            self.0 as int
        } else {
            outer_len - self.spec_magnitude()
        }
    }

    /// Whether resolving this position against `outer_len` yields an offset
    /// that a signed 64-bit position can carry.  A relative position over a
    /// region longer than that limit cannot be represented; the caller must
    /// not ask for it.
    pub open spec fn spec_representable(&self, outer_len: usize) -> bool {
        (self.0 < 0 && self.spec_magnitude() <= outer_len) ==> outer_len
            - self.spec_magnitude() < i64::MAX
    }

    /// The key under which positions are ordered without knowing a length:
    /// absolute positions order by value, relative ones by their distance
    /// from the end, counted down from one past the largest absolute key,
    /// which places every relative position strictly above every absolute
    /// one.
    pub open spec fn spec_key(&self) -> int {
        if self.0 >= 0 {
            self.0 as int
        } else {
            u64::MAX - self.spec_magnitude() + 1
        }
    }

    #[verifier::when_used_as_spec(spec_is_absolute)]
    pub fn is_absolute(&self) -> (r: bool)
        ensures
            r == self.spec_is_absolute(),
    {
        self.0 >= 0
    }

    #[verifier::when_used_as_spec(spec_is_relative)]
    pub fn is_relative(&self) -> (r: bool)
        ensures
            r == self.spec_is_relative(),
    {
        self.0 < 0
    }

    /// The magnitude of a relative position.
    pub(crate) fn magnitude(&self) -> (r: u64)
        requires
            self.spec_is_relative(),
        ensures
            r == self.spec_magnitude(),
    {
        if self.0 == i64::MIN {
            9223372036854775808u64
        } else {
            (-self.0) as u64
        }
    }

    /// Resolve this position against a region of length `outer_len`.
    ///
    /// An absolute position `p` with `0 <= p <= outer_len` resolves to `p`
    /// itself; a relative position `-m` with `m <= outer_len` resolves to
    /// `outer_len - m`.  Any other position is rejected.
    pub fn to_absolute(&self, outer_len: usize) -> (r: Result<BytePos, Error>)
        requires
            self.spec_representable(outer_len),
        ensures
            self.spec_resolvable(outer_len) ==> (r matches Ok(p) && p.0
                == self.spec_resolved(outer_len)),
            !self.spec_resolvable(outer_len) ==> r == Err::<BytePos, Error>(
                Error::InvalidBytePos { pos: self.0, outer_len },
            ),
    {
        if self.0 >= 0 {
            if self.0 as u64 > outer_len as u64 {
                Err(Error::InvalidBytePos { pos: self.0, outer_len })
            } else {
                Ok(BytePos(self.0))
            }
        } else {
            let m = self.magnitude();
            if m > outer_len as u64 {
                Err(Error::InvalidBytePos { pos: self.0, outer_len })
            } else {
                Ok(BytePos((outer_len as u64 - m) as i64))
            }
        }
    }

    /// The ordering key of this position, as used for sorting ranges.
    pub(crate) fn order_key(&self) -> (r: u64)
        ensures
            r == self.spec_key(),
    {
        if self.0 >= 0 {
            self.0 as u64
        } else {
            u64::MAX - self.magnitude() + 1
        }
    }
}

/// The advisory length-independent order: positions compare by their
/// ordering keys.  It agrees with numeric order among same-sign positions
/// and places every relative position above every absolute one; it is no
/// substitute for true resolution.
impl PartialOrd for BytePos {
    fn partial_cmp(&self, other: &Self) -> (r: Option<Ordering>) {
        let a = self.order_key();
        let b = other.order_key();
        if a < b {
            Some(Ordering::Less)
        } else if a == b {
            Some(Ordering::Equal)
        } else {
            Some(Ordering::Greater)
        }
    }
}

impl vstd::std_specs::cmp::PartialOrdSpecImpl for BytePos {
    open spec fn obeys_partial_cmp_spec() -> bool {
        true
    }

    open spec fn partial_cmp_spec(&self, other: &Self) -> Option<Ordering> {
        if self.spec_key() < other.spec_key() {
            Some(Ordering::Less)
        } else if self.spec_key() == other.spec_key() {
            Some(Ordering::Equal)
        } else {
            Some(Ordering::Greater)
        }
    }
}

} // verus!
