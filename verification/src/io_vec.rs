//! Byte positions, byte ranges and view-sets.
//!
//! A [`BytePos`] is a signed logical position, a [`ByteRange`] a pair of
//! positions with an ordering invariant, and an [`IoVec`] an ordered group of
//! ranges together with a precomputed overlap verdict.

mod byte_pos;
pub use byte_pos::BytePos;

mod byte_range;
pub use byte_range::ByteRange;

mod io_vec;
pub use io_vec::IoVec;
