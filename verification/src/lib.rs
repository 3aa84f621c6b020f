//! Vectored-buffer views over an in-memory region.
//!
//! Byte positions may be absolute (counted from the start of a region) or
//! end-relative (a negative magnitude counted back from the end).  Ranges of
//! such positions, grouped into view-sets, drive splitting a region into
//! segments and merging mutable segments back into a single handle, under the
//! rule that a region is exposed either through any number of read-only views
//! or through exactly one family of disjoint mutable views.

pub mod err;
pub mod io_vec;
pub mod traits;
pub mod vmem;

pub use traits::{Handle, HandleMut, Segment, SegmentMut, VmemSegment, VmemSegmentMut};
