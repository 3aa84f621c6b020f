//! The conversion surface shared by every backing-store family.
//!
//! Handles and segments of any backing store walk the same state machine;
//! these traits name its moves.  Each fallible move returns its input
//! unchanged beside the error.  The spec hooks let an implementation state
//! when a caller may attempt a move at all.

use vstd::prelude::*;

use crate::err::Error;
use crate::io_vec::IoVec;

verus! {

/// A duplicable token keeping a region alive for concurrent reads.
pub trait Handle: Sized {
    type HandleMut;

    type Segment;

    /// Downgrade an exclusive handle; widening needs no check.
    fn from_handle_mut(handle_mut: Self::HandleMut) -> Self;

    /// Keep a read-only segment's region alive as a shared handle,
    /// discarding the segment's sub-range.
    fn from_segment(segment: Self::Segment) -> Self;
}

/// A non-duplicable token proving sole access to a region.
pub trait HandleMut: Sized {
    type Handle;

    type SegmentMut;

    /// Whether a mutable segment is fit to fold back into a handle.
    spec fn foldable(segment_mut: &Self::SegmentMut) -> bool;

    /// Try to claim exclusive access from a shared handle.
    fn try_from_handle(handle: Self::Handle) -> Result<Self, (Error, Self::Handle)>;

    /// Fold a mutable segment back into an exclusive handle.
    fn try_from_segment_mut(segment_mut: Self::SegmentMut) -> Result<
        Self,
        (Error, Self::SegmentMut),
    >
        requires
            Self::foldable(&segment_mut),
    ;
}

/// A bounded read-only view into a region.
pub trait Segment: Sized {
    type Handle;

    /// Whether this segment and view-set are fit for a split.
    spec fn splittable(&self, io_vec: &IoVec) -> bool;

    /// Mint a segment spanning the whole region of a handle.
    fn from_handle(handle: Self::Handle) -> Self;

    /// Split this segment along a view-set into one segment per range.
    fn try_split(self, io_vec: &IoVec) -> Result<Vec<Self>, (Error, Self)>
        requires
            self.splittable(io_vec),
    ;
}

/// A bounded view into a region that its holder may write.
pub trait SegmentMut: Sized {
    type HandleMut;

    /// Whether this segment and view-set are fit for a split.
    spec fn splittable(&self, io_vec: &IoVec) -> bool;

    /// Whether a family of mutable segments is fit for a merge.
    spec fn mergeable(vec_segment_mut: &Vec<Self>) -> bool;

    /// Mint a mutable segment spanning the whole region of an exclusive
    /// handle.
    fn from_handle_mut(handle_mut: Self::HandleMut) -> Self;

    /// Merge a complete family of mutable segments back into one.
    fn try_from_vec_segment_mut(vec_segment_mut: Vec<Self>) -> Result<Self, (Error, Vec<Self>)>
        requires
            Self::mergeable(&vec_segment_mut),
    ;

    /// Split this segment along a view-set proven free of overlap.
    fn try_split(self, io_vec: &IoVec) -> Result<Vec<Self>, (Error, Self)>
        requires
            self.splittable(io_vec),
    ;
}

/// A read-only segment of an in-memory region, locatable as an offset and
/// a length inside it.
pub trait VmemSegment: Segment {
    /// The segment's offset inside its region, and its length.
    fn offset_len(&self) -> (usize, usize);
}

/// A mutable segment of an in-memory region.
pub trait VmemSegmentMut: SegmentMut {
    /// The segment's offset inside its region, and its length.
    fn offset_len(&self) -> (usize, usize);
}

} // verus!
