//! Regions, handles and segments.
//!
//! A [`Vmem`] is one physical backing store.  [`HandleMut`] and [`Handle`]
//! are exclusive and shared tokens over it; [`SegmentMut`] and [`Segment`]
//! are bounded views minted from those tokens.  The region is shared
//! through an atomic reference count, and every conversion that narrows
//! access checks that count before it succeeds.

mod vmem;
pub use vmem::{AnonMmap, VecU8, Vmem};

mod arc_ops;

mod views;
pub use views::{overlay, Handle, HandleMut, Segment, SegmentMut};
