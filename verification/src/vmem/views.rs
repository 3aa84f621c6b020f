//! Handles and segments: the ownership engine over one region.
//!
//! A region is exposed either through any number of read-only views or
//! through exactly one family of disjoint mutable views.  The four types
//! here walk that state machine: exclusive and shared handles, mutable and
//! read-only segments.  Every conversion consumes its input and, on
//! failure, returns it unchanged beside the error.

use vstd::prelude::*;
use vstd::pervasive::unreached;

use std::sync::Arc;

use crate::err::Error;
use crate::io_vec::IoVec;

use super::arc_ops;
use super::Vmem;

verus! {

/// `base` with `data` written over it starting at `off`.
pub open spec fn overlay(base: Seq<u8>, off: int, data: Seq<u8>) -> Seq<u8> {
    Seq::new(
        base.len(),
        |i: int|
            if off <= i && i < off + data.len() {
                data[i - off]
            } else {
                base[i]
            },
    )
}

/// A duplicable token over a region, allowing any number of concurrent
/// read-only views.
#[derive(Debug)]
pub struct Handle {
    vmem: Arc<Vmem>,
}

impl Clone for Handle {
    /// Duplicating a shared handle adds one reference over the same region.
    fn clone(&self) -> (r: Self)
        ensures
            r.region() == self.region(),
    {
        Handle { vmem: arc_ops::arc_clone(&self.vmem) }
    }
}

/// A non-duplicable token proving sole access to a region: the only source
/// of mutable segments.
#[derive(Debug)]
pub struct HandleMut {
    vmem: Arc<Vmem>,
}

/// A bounded read-only view into a region.  Read-only views may alias at
/// will, so splitting one performs no overlap check.
#[derive(Debug)]
pub struct Segment {
    off: usize,
    len: usize,
    vmem: Arc<Vmem>,
}

impl Clone for Segment {
    /// Duplicating a read-only segment adds one aliasing view of the same
    /// span.
    fn clone(&self) -> (r: Self)
        ensures
            r.region() == self.region(),
            r.spec_off() == self.spec_off(),
            r.spec_len() == self.spec_len(),
    {
        Segment { off: self.off, len: self.len, vmem: arc_ops::arc_clone(&self.vmem) }
    }
}

/// A bounded view into a region that its holder may write, minted only
/// from an exclusive handle or by splitting another mutable segment along
/// a view-set proven free of overlap.
///
/// For a buffer-backed region the segment carries its span's bytes; they
/// are written back over the region when the segment is folded back into a
/// handle or merged.  Exclusivity is enforced by the region's reference
/// count, not by the type system.
#[derive(Debug)]
pub struct SegmentMut {
    off: usize,
    len: usize,
    data: Vec<u8>,
    vmem: Arc<Vmem>,
}

impl Handle {
    /// The region this handle keeps alive.
    pub closed spec fn region(&self) -> Vmem {
        *self.vmem
    }

    /// Downgrade an exclusive handle; widening needs no check.
    pub fn from_handle_mut(handle_mut: HandleMut) -> (r: Self)
        ensures
            r.region() == handle_mut.region(),
    {
        Handle { vmem: handle_mut.vmem }
    }

    /// Keep the region of a read-only segment alive as a shared handle.
    ///
    /// The segment's sub-range is discarded: a segment proves region
    /// liveness, never a sub-range claim at handle level.
    pub fn from_segment(segment: Segment) -> (r: Self)
        ensures
            r.region() == segment.region(),
    {
        Handle { vmem: segment.vmem }
    }
}

impl HandleMut {
    /// The region this handle owns exclusively.
    pub closed spec fn region(&self) -> Vmem {
        *self.vmem
    }

    /// Wrap a fresh region into an exclusive handle.
    pub fn from_vmem(vmem: Vmem) -> (r: Self)
        ensures
            r.region() == vmem,
    {
        HandleMut { vmem: Arc::new(vmem) }
    }

    /// Try to claim exclusive access from a shared handle.
    ///
    /// Succeeds only when the given handle holds the last reference to its
    /// region; otherwise the handle comes back unchanged.
    pub fn try_from_handle(handle: Handle) -> (r: Result<Self, (Error, Handle)>)
        ensures
            (r matches Ok(hm) ==> hm.region() == handle.region()),
            (r matches Err((e, h)) ==> h == handle && e is ConversionFailed),
    {
        match arc_ops::arc_try_unwrap(handle.vmem) {
            Ok(v) => Ok(HandleMut { vmem: Arc::new(v) }),
            Err(arc_v) => Err(
                (
                    Error::conversion_failed(
                        "vmem::Handle",
                        "vmem::HandleMut",
                        "outstanding handles or segments still reference the region",
                    ),
                    Handle { vmem: arc_v },
                ),
            ),
        }
    }

    /// Fold a mutable segment back into an exclusive handle, writing the
    /// segment's bytes back over its span of a buffer-backed region.
    ///
    /// Succeeds only when the segment is its region's last live view;
    /// otherwise the segment comes back unchanged.
    pub fn try_from_segment_mut(segment_mut: SegmentMut) -> (r: Result<Self, (Error, SegmentMut)>)
        requires
            segment_mut.wf(),
        ensures
            (r matches Ok(hm) ==> {
                &&& hm.region().spec_len() == segment_mut.region().spec_len()
                &&& hm.region().spec_is_buffer() == segment_mut.region().spec_is_buffer()
                &&& (segment_mut.region().spec_is_buffer() ==> hm.region().spec_bytes() == overlay(
                    segment_mut.region().spec_bytes(),
                    segment_mut.spec_off() as int,
                    segment_mut.contents(),
                ))
                &&& (!segment_mut.region().spec_is_buffer() ==> hm.region()
                    == segment_mut.region())
            }),
            (r matches Err((e, s)) ==> s == segment_mut && e is ConversionFailed),
    {
        let SegmentMut { off, len, data, vmem } = segment_mut;
        match arc_ops::arc_try_unwrap(vmem) {
            Ok(v) => match v {
                Vmem::VecU8(buf) => {
                    let buf = write_back(buf, off, &data);
                    Ok(HandleMut { vmem: Arc::new(Vmem::VecU8(buf)) })
                },
                Vmem::AnonMmap(m) => Ok(HandleMut { vmem: Arc::new(Vmem::AnonMmap(m)) }),
            },
            Err(arc_v) => Err(
                (
                    Error::conversion_failed(
                        "vmem::SegmentMut",
                        "vmem::HandleMut",
                        "outstanding mutable segments still reference the region",
                    ),
                    SegmentMut { off, len, data, vmem: arc_v },
                ),
            ),
        }
    }
}

impl Segment {
    /// The region this segment reads.
    pub closed spec fn region(&self) -> Vmem {
        *self.vmem
    }

    /// The segment's offset inside its region.
    pub closed spec fn spec_off(&self) -> usize {
        self.off
    }

    /// The segment's length.
    pub closed spec fn spec_len(&self) -> usize {
        self.len
    }

    /// Well-formedness: the view lies inside its region.
    pub open spec fn wf(&self) -> bool {
        &&& self.spec_off() + self.spec_len() <= self.region().spec_len()
        &&& self.region().spec_len() <= usize::MAX
    }

    /// Mint a read-only segment spanning the whole region of a shared
    /// handle.  This always succeeds: aliased reads are safe.
    pub fn from_handle(handle: Handle) -> (r: Self)
        ensures
            r.wf(),
            r.region() == handle.region(),
            r.spec_off() == 0,
            r.spec_len() == handle.region().spec_len(),
    {
        let len = (&*handle.vmem).len();
        Segment { off: 0, len, vmem: handle.vmem }
    }

    /// The segment's offset inside its region.
    pub fn offset(&self) -> (r: usize)
        ensures
            r == self.spec_off(),
    {
        self.off
    }

    /// The segment's length in bytes.
    pub fn len(&self) -> (r: usize)
        ensures
            r == self.spec_len(),
    {
        self.len
    }

    /// Read one byte of a buffer-backed region through this view.
    pub fn read_byte(&self, i: usize) -> (r: u8)
        requires
            self.wf(),
            self.region().spec_is_buffer(),
            i < self.spec_len(),
        ensures
            r == self.region().spec_bytes()[self.spec_off() + i],
    {
        match &*self.vmem {
            Vmem::VecU8(v) => v[self.off + i],
            Vmem::AnonMmap(_) => unreached(),
        }
    }

    /// Split this segment along a view-set into one read-only segment per
    /// range, each sharing the region.
    ///
    /// Each range is resolved against this segment's own length; the new
    /// segments lie inside this one.  A range that fails to resolve returns
    /// the segment unchanged together with the error.  No overlap check is
    /// made: aliased reads are safe.
    pub fn try_split(self, io_vec: &IoVec) -> (r: Result<Vec<Segment>, (Error, Segment)>)
        requires
            self.wf(),
            io_vec.spec_representable(self.spec_len()),
        ensures
            (r matches Ok(v) ==> {
                &&& IoVec::spec_all_resolvable(io_vec.spec_ranges(), self.spec_len())
                &&& v@.len() == io_vec.spec_ranges().len()
                &&& forall|k: int|
                    0 <= k < v@.len() ==> {
                        let rg = io_vec.spec_ranges()[k];
                        &&& (#[trigger] v@[k]).wf()
                        &&& v@[k].region() == self.region()
                        &&& v@[k].spec_off() == self.spec_off() + rg.start.spec_resolved(
                            self.spec_len(),
                        )
                        &&& v@[k].spec_len() == rg.end.spec_resolved(self.spec_len())
                            - rg.start.spec_resolved(self.spec_len())
                    }
            }),
            (r matches Err((e, s)) ==> {
                &&& s == self
                &&& !IoVec::spec_all_resolvable(io_vec.spec_ranges(), self.spec_len())
                &&& e == (Error::InvalidByteRange {
                    start: io_vec.spec_ranges()[IoVec::spec_first_unresolvable(
                        io_vec.spec_ranges(),
                        self.spec_len(),
                    )].start.0,
                    end: io_vec.spec_ranges()[IoVec::spec_first_unresolvable(
                        io_vec.spec_ranges(),
                        self.spec_len(),
                    )].end.0,
                    outer_len: self.spec_len(),
                })
            }),
    {
        let ranges = io_vec.ranges();
        let n = ranges.len();
        let mut out: Vec<Segment> = Vec::new();
        let mut idx: usize = 0;
        while idx < n
            invariant
                0 <= idx <= n,
                n == io_vec.spec_ranges().len(),
                ranges@ == io_vec.spec_ranges(),
                self.wf(),
                io_vec.spec_representable(self.spec_len()),
                out@.len() == idx,
                forall|k: int|
                    0 <= k < idx ==> (#[trigger] io_vec.spec_ranges()[k]).spec_resolvable(
                        self.spec_len(),
                    ),
                forall|k: int|
                    0 <= k < idx ==> {
                        let rg = io_vec.spec_ranges()[k];
                        &&& (#[trigger] out@[k]).wf()
                        &&& out@[k].region() == self.region()
                        &&& out@[k].spec_off() == self.spec_off() + rg.start.spec_resolved(
                            self.spec_len(),
                        )
                        &&& out@[k].spec_len() == rg.end.spec_resolved(self.spec_len())
                            - rg.start.spec_resolved(self.spec_len())
                    },
            decreases n - idx,
        {
            let rg = ranges[idx];
            match rg.to_offset_len(self.len) {
                Ok((offset, seg_len)) => {
                    out.push(
                        Segment {
                            off: self.off + offset,
                            len: seg_len,
                            vmem: arc_ops::arc_clone(&self.vmem),
                        },
                    );
                },
                Err(e) => {
                    proof {
                        IoVec::lemma_first_unresolvable(
                            io_vec.spec_ranges(),
                            self.spec_len(),
                            idx as int,
                        );
                    }
                    return Err((e, self));
                },
            }
            idx += 1;
        }
        Ok(out)
    }
}

impl SegmentMut {
    /// The region this segment writes.
    pub closed spec fn region(&self) -> Vmem {
        *self.vmem
    }

    /// The segment's offset inside its region.
    pub closed spec fn spec_off(&self) -> usize {
        self.off
    }

    /// The segment's length.
    pub closed spec fn spec_len(&self) -> usize {
        self.len
    }

    /// The segment's bytes: its span of a buffer-backed region, including
    /// every write made through this segment.
    pub closed spec fn contents(&self) -> Seq<u8> {
        self.data@
    }

    /// Well-formedness: the view lies inside its region, and for a
    /// buffer-backed region it carries exactly its span's bytes.
    pub open spec fn wf(&self) -> bool {
        &&& self.spec_off() + self.spec_len() <= self.region().spec_len()
        &&& self.region().spec_len() <= usize::MAX
        &&& (self.region().spec_is_buffer() ==> self.contents().len() == self.spec_len())
        &&& (!self.region().spec_is_buffer() ==> self.contents().len() == 0)
    }

    /// The region's bytes with every segment's bytes written over its own
    /// span, in the order the segments are supplied.
    pub open spec fn merged_bytes(base: Seq<u8>, segs: Seq<SegmentMut>) -> Seq<u8>
        decreases segs.len(),
    {
        if segs.len() == 0 {
            base
        } else {
            overlay(
                Self::merged_bytes(base, segs.drop_last()),
                segs.last().spec_off() as int,
                segs.last().contents(),
            )
        }
    }

    /// Merging never changes the region's extent.
    pub proof fn lemma_merged_bytes_len(base: Seq<u8>, segs: Seq<SegmentMut>)
        ensures
            Self::merged_bytes(base, segs).len() == base.len(),
        decreases segs.len(),
    {
        if segs.len() > 0 {
            Self::lemma_merged_bytes_len(base, segs.drop_last());
        }
    }

    /// A byte that lies inside one merged segment's span, and inside no
    /// later segment's span, reads back as that segment held it: merging
    /// puts every input's bytes at its own offset.
    pub proof fn lemma_merged_bytes_at(base: Seq<u8>, segs: Seq<SegmentMut>, k: int, p: int)
        requires
            0 <= k < segs.len(),
            segs[k].spec_off() <= p < segs[k].spec_off() + segs[k].contents().len(),
            0 <= p < base.len(),
            forall|j: int|
                k < j < segs.len() ==> !((#[trigger] segs[j]).spec_off() <= p < segs[j].spec_off()
                    + segs[j].contents().len()),
        ensures
            Self::merged_bytes(base, segs)[p] == segs[k].contents()[p - segs[k].spec_off()],
        decreases segs.len(),
    {
        Self::lemma_merged_bytes_len(base, segs.drop_last());
        if k == segs.len() - 1 {
        } else {
            assert(segs.drop_last()[k] == segs[k]);
            assert(forall|j: int|
                k < j < segs.drop_last().len() ==> (#[trigger] segs.drop_last()[j]) == segs[j]);
            Self::lemma_merged_bytes_at(base, segs.drop_last(), k, p);
            assert(!(segs.last().spec_off() <= p < segs.last().spec_off()
                + segs.last().contents().len()));
        }
    }

    /// Mint a mutable segment spanning the whole region of an exclusive
    /// handle.  This always succeeds and consumes the handle.
    pub fn from_handle_mut(handle_mut: HandleMut) -> (r: Self)
        ensures
            r.wf(),
            r.region() == handle_mut.region(),
            r.spec_off() == 0,
            r.spec_len() == handle_mut.region().spec_len(),
            handle_mut.region().spec_is_buffer() ==> r.contents()
                == handle_mut.region().spec_bytes(),
            !handle_mut.region().spec_is_buffer() ==> r.contents() == Seq::<u8>::empty(),
    {
        let len = (&*handle_mut.vmem).len();
        let data: Vec<u8> = match &*handle_mut.vmem {
            Vmem::VecU8(v) => copy_slice(v, 0, len),
            Vmem::AnonMmap(_) => Vec::new(),
        };
        SegmentMut { off: 0, len, data, vmem: handle_mut.vmem }
    }

    /// The segment's offset inside its region.
    pub fn offset(&self) -> (r: usize)
        ensures
            r == self.spec_off(),
    {
        self.off
    }

    /// The segment's length in bytes.
    pub fn len(&self) -> (r: usize)
        ensures
            r == self.spec_len(),
    {
        self.len
    }

    /// Read one byte of this segment of a buffer-backed region.
    pub fn read_byte(&self, i: usize) -> (r: u8)
        requires
            self.wf(),
            self.region().spec_is_buffer(),
            i < self.spec_len(),
        ensures
            r == self.contents()[i as int],
    {
        self.data[i]
    }

    /// Write one byte through this segment of a buffer-backed region.
    pub fn write_byte(&mut self, i: usize, b: u8)
        requires
            old(self).wf(),
            old(self).region().spec_is_buffer(),
            i < old(self).spec_len(),
        ensures
            final(self).wf(),
            final(self).region() == old(self).region(),
            final(self).spec_off() == old(self).spec_off(),
            final(self).spec_len() == old(self).spec_len(),
            final(self).contents() == old(self).contents().update(i as int, b),
    {
        self.data[i] = b;
    }

    /// Split this segment along a view-set into one mutable segment per
    /// range, each sharing the region over a disjoint span.
    ///
    /// The view-set must first prove its ranges free of overlap at this
    /// segment's length; an overlapping view-set, and a range that fails
    /// to resolve, return the segment unchanged together with the error.
    /// On success the produced segments' spans are pairwise disjoint.
    pub fn try_split(self, io_vec: &IoVec) -> (r: Result<Vec<SegmentMut>, (Error, SegmentMut)>)
        requires
            self.wf(),
            io_vec.spec_representable(self.spec_len()),
            io_vec.spec_wf(),
        ensures
            (r matches Ok(v) ==> {
                &&& io_vec.spec_overlap_result(self.spec_len()) == Ok::<bool, Error>(false)
                &&& IoVec::spec_all_resolvable(io_vec.spec_ranges(), self.spec_len())
                &&& v@.len() == io_vec.spec_ranges().len()
                &&& forall|a: int, b: int|
                    0 <= a < b < v@.len() ==> ((#[trigger] v@[a]).spec_off() + v@[a].spec_len()
                        <= (#[trigger] v@[b]).spec_off() || v@[b].spec_off() + v@[b].spec_len()
                        <= v@[a].spec_off())
                &&& forall|k: int|
                    0 <= k < v@.len() ==> {
                        let rg = io_vec.spec_ranges()[k];
                        &&& (#[trigger] v@[k]).wf()
                        &&& v@[k].region() == self.region()
                        &&& v@[k].spec_off() == self.spec_off() + rg.start.spec_resolved(
                            self.spec_len(),
                        )
                        &&& v@[k].spec_len() == rg.end.spec_resolved(self.spec_len())
                            - rg.start.spec_resolved(self.spec_len())
                        &&& (self.region().spec_is_buffer() ==> v@[k].contents()
                            == self.contents().subrange(
                            rg.start.spec_resolved(self.spec_len()),
                            rg.end.spec_resolved(self.spec_len()),
                        ))
                    }
            }),
            (r matches Err((e, s)) ==> {
                &&& s == self
                &&& ({
                    ||| (io_vec.spec_overlap_result(self.spec_len()) matches Err(e0) && e == e0)
                    ||| (io_vec.spec_overlap_result(self.spec_len()) == Ok::<bool, Error>(true)
                        && e == (Error::OverlappingIoVec { outer_len: self.spec_len() }))
                    ||| (io_vec.spec_overlap_result(self.spec_len()) == Ok::<bool, Error>(false)
                        && !IoVec::spec_all_resolvable(io_vec.spec_ranges(), self.spec_len()) && e
                        == (Error::InvalidByteRange {
                        start: io_vec.spec_ranges()[IoVec::spec_first_unresolvable(
                            io_vec.spec_ranges(),
                            self.spec_len(),
                        )].start.0,
                        end: io_vec.spec_ranges()[IoVec::spec_first_unresolvable(
                            io_vec.spec_ranges(),
                            self.spec_len(),
                        )].end.0,
                        outer_len: self.spec_len(),
                    }))
                })
            }),
    {
        match io_vec.is_overlapping(self.len) {
            Err(e) => Err((e, self)),
            Ok(true) => Err((Error::OverlappingIoVec { outer_len: self.len }, self)),
            Ok(false) => {
                let ranges = io_vec.ranges();
                let n = ranges.len();
                let mut out: Vec<SegmentMut> = Vec::new();
                let mut idx: usize = 0;
                while idx < n
                    invariant
                        0 <= idx <= n,
                        n == io_vec.spec_ranges().len(),
                        ranges@ == io_vec.spec_ranges(),
                        self.wf(),
                        io_vec.spec_representable(self.spec_len()),
                        io_vec.spec_wf(),
                        io_vec.spec_overlap_result(self.spec_len()) == Ok::<bool, Error>(false),
                        out@.len() == idx,
                        forall|k: int|
                            0 <= k < idx ==> (#[trigger] io_vec.spec_ranges()[k]).spec_resolvable(
                                self.spec_len(),
                            ),
                        forall|k: int|
                            0 <= k < idx ==> {
                                let rg = io_vec.spec_ranges()[k];
                                &&& (#[trigger] out@[k]).wf()
                                &&& out@[k].region() == self.region()
                                &&& out@[k].spec_off() == self.spec_off() + rg.start.spec_resolved(
                                    self.spec_len(),
                                )
                                &&& out@[k].spec_len() == rg.end.spec_resolved(self.spec_len())
                                    - rg.start.spec_resolved(self.spec_len())
                                &&& (self.region().spec_is_buffer() ==> out@[k].contents()
                                    == self.contents().subrange(
                                    rg.start.spec_resolved(self.spec_len()),
                                    rg.end.spec_resolved(self.spec_len()),
                                ))
                            },
                    decreases n - idx,
                {
                    let rg = ranges[idx];
                    match rg.to_offset_len(self.len) {
                        Ok((offset, seg_len)) => {
                            let data: Vec<u8> = match &*self.vmem {
                                Vmem::VecU8(_) => copy_slice(&self.data, offset, offset + seg_len),
                                Vmem::AnonMmap(_) => Vec::new(),
                            };
                            out.push(
                                SegmentMut {
                                    off: self.off + offset,
                                    len: seg_len,
                                    data,
                                    vmem: arc_ops::arc_clone(&self.vmem),
                                },
                            );
                        },
                        Err(e) => {
                            proof {
                                IoVec::lemma_first_unresolvable(
                                    io_vec.spec_ranges(),
                                    self.spec_len(),
                                    idx as int,
                                );
                            }
                            return Err((e, self));
                        },
                    }
                    idx += 1;
                }
                proof {
                    let rs = io_vec.spec_ranges();
                    let l = self.spec_len();
                    assert(IoVec::spec_all_resolvable(rs, l));
                    if io_vec.spec_cached() is Some {
                        assert(io_vec.spec_cached() == Some(false));
                        assert(!IoVec::spec_ground_overlap(rs, l));
                    } else {
                        assert(!IoVec::spec_ground_overlap(rs, l));
                    }
                    assert forall|a: int, b: int|
                        0 <= a < b < out@.len() implies ((#[trigger] out@[a]).spec_off()
                        + out@[a].spec_len() <= (#[trigger] out@[b]).spec_off() || out@[b].spec_off()
                        + out@[b].spec_len() <= out@[a].spec_off()) by {
                        assert(!IoVec::spec_pair_overlap(rs[a], rs[b], l));
                        assert(rs[a].spec_resolvable(l));
                        assert(rs[b].spec_resolvable(l));
                    }
                }
                Ok(out)
            },
        }
    }

    /// Merge a complete family of mutable segments back into one segment
    /// spanning their region's full extent.
    ///
    /// The vector must be non-empty, all segments must share one region,
    /// and the region's reference count must equal the vector's length —
    /// only then is the vector provably the whole set of live views.  On
    /// any failure the segments come back unchanged.  On success the
    /// merged segment takes the region's own extent, with every input's
    /// bytes written over its span.
    pub fn try_from_vec_segment_mut(v: Vec<SegmentMut>) -> (r: Result<
        SegmentMut,
        (Error, Vec<SegmentMut>),
    >)
        requires
            forall|k: int| 0 <= k < v@.len() ==> (#[trigger] v@[k]).wf(),
        ensures
            (v@.len() == 0 ==> r is Err),
            (r matches Ok(m) ==> {
                &&& v@.len() >= 1
                &&& forall|k: int|
                    0 <= k < v@.len() ==> (#[trigger] v@[k]).region() == v@[0].region()
                &&& m.wf()
                &&& m.spec_off() == 0
                &&& m.spec_len() == v@[0].region().spec_len()
                &&& m.region().spec_len() == v@[0].region().spec_len()
                &&& m.region().spec_is_buffer() == v@[0].region().spec_is_buffer()
                &&& (v@[0].region().spec_is_buffer() ==> m.contents() == Self::merged_bytes(
                    v@[0].region().spec_bytes(),
                    v@,
                ) && m.region().spec_bytes() == Self::merged_bytes(
                    v@[0].region().spec_bytes(),
                    v@,
                ))
                &&& (!v@[0].region().spec_is_buffer() ==> m.region() == v@[0].region())
            }),
            (r matches Err((e, w)) ==> w@ == v@ && e is ConversionFailed),
    {
        if v.len() == 0 {
            return Err(
                (
                    Error::conversion_failed(
                        "Vec<vmem::SegmentMut>",
                        "vmem::SegmentMut",
                        "empty vector of segments provided",
                    ),
                    v,
                ),
            );
        }
        let n = v.len();
        let mut k: usize = 1;
        while k < n
            invariant
                1 <= k <= n,
                n == v@.len(),
                forall|j: int| 0 <= j < v@.len() ==> (#[trigger] v@[j]).wf(),
                forall|j: int| 0 <= j < k ==> (#[trigger] v@[j]).region() == v@[0].region(),
            decreases n - k,
        {
            if !arc_ops::arc_ptr_eq(&v[0].vmem, &v[k].vmem) {
                return Err(
                    (
                        Error::conversion_failed(
                            "Vec<vmem::SegmentMut>",
                            "vmem::SegmentMut",
                            "segments point to different regions",
                        ),
                        v,
                    ),
                );
            }
            k += 1;
        }
        let count = arc_ops::arc_strong_count(&v[0].vmem);
        if count != n {
            return Err(
                (
                    Error::conversion_failed(
                        "Vec<vmem::SegmentMut>",
                        "vmem::SegmentMut",
                        "not all outstanding mutable segments were supplied",
                    ),
                    v,
                ),
            );
        }
        let ghost orig = v@;
        let mut v = v;
        let mut offs: Vec<usize> = Vec::new();
        let mut lens: Vec<usize> = Vec::new();
        let mut datas: Vec<Vec<u8>> = Vec::new();
        let mut last_arc: Option<Arc<Vmem>> = None;
        let mut t: usize = 0;
        while t < n
            invariant
                0 <= t <= n,
                n == orig.len(),
                v@ == orig.skip(t as int),
                offs@.len() == t,
                lens@.len() == t,
                datas@.len() == t,
                forall|j: int|
                    0 <= j < t ==> offs@[j] == (#[trigger] orig[j]).spec_off() && lens@[j]
                        == orig[j].spec_len() && datas@[j] == orig[j].data,
                t > 0 ==> (last_arc matches Some(a) && a == orig[t - 1].vmem),
                forall|j: int| 0 <= j < n ==> (#[trigger] orig[j]).wf(),
                forall|j: int| 0 <= j < n ==> (#[trigger] orig[j]).region() == orig[0].region(),
            decreases n - t,
        {
            let s = v.remove(0);
            proof {
                assert(orig.skip(t as int).remove(0) =~= orig.skip(t as int + 1));
                assert(orig.skip(t as int)[0] == orig[t as int]);
            }
            let SegmentMut { off, len, data, vmem } = s;
            offs.push(off);
            lens.push(len);
            datas.push(data);
            last_arc = Some(vmem);
            t += 1;
        }
        let arc = match last_arc {
            Some(a) => a,
            None => unreached(),
        };
        match arc_ops::arc_try_unwrap(arc) {
            Ok(vm) => {
                proof {
                    assert(vm == orig[n - 1].region());
                    assert(vm == orig[0].region());
                }
                match vm {
                    Vmem::VecU8(buf) => {
                        let ghost base0 = buf@;
                        let mut buf = buf;
                        let mut t2: usize = 0;
                        while t2 < n
                            invariant
                                0 <= t2 <= n,
                                n == orig.len(),
                                offs@.len() == n,
                                lens@.len() == n,
                                datas@.len() == n,
                                forall|j: int|
                                    0 <= j < n ==> offs@[j] == (#[trigger] orig[j]).spec_off()
                                        && lens@[j] == orig[j].spec_len() && datas@[j]
                                        == orig[j].data,
                                forall|j: int| 0 <= j < n ==> (#[trigger] orig[j]).wf(),
                                forall|j: int|
                                    0 <= j < n ==> (#[trigger] orig[j]).region()
                                        == orig[0].region(),
                                orig[0].region().spec_is_buffer(),
                                orig[0].region().spec_bytes() == base0,
                                orig[0].region().spec_len() == base0.len(),
                                buf@.len() == base0.len(),
                                buf@ == Self::merged_bytes(base0, orig.take(t2 as int)),
                            decreases n - t2,
                        {
                            proof {
                                assert(orig.take(t2 as int + 1).drop_last() =~= orig.take(
                                    t2 as int,
                                ));
                                assert(orig.take(t2 as int + 1).last() == orig[t2 as int]);
                            }
                            buf = write_back(buf, offs[t2], &datas[t2]);
                            t2 += 1;
                        }
                        proof {
                            assert(orig.take(n as int) =~= orig);
                        }
                        let merged_len = buf.len();
                        let data_full = copy_slice(&buf, 0, merged_len);
                        proof {
                            assert(data_full@ =~= buf@);
                        }
                        Ok(
                            SegmentMut {
                                off: 0,
                                len: merged_len,
                                data: data_full,
                                vmem: Arc::new(Vmem::VecU8(buf)),
                            },
                        )
                    },
                    Vmem::AnonMmap(m) => {
                        let mlen = m.len;
                        Ok(
                            SegmentMut {
                                off: 0,
                                len: mlen,
                                data: Vec::new(),
                                vmem: Arc::new(Vmem::AnonMmap(m)),
                            },
                        )
                    },
                }
            },
            Err(arc_back) => {
                let ghost dall = datas@;
                let mut rebuilt: Vec<SegmentMut> = Vec::new();
                let mut datas = datas;
                let mut t3: usize = 0;
                while t3 < n
                    invariant
                        0 <= t3 <= n,
                        n == orig.len(),
                        offs@.len() == n,
                        lens@.len() == n,
                        dall.len() == n,
                        datas@ == dall.skip(t3 as int),
                        forall|j: int|
                            0 <= j < n ==> offs@[j] == (#[trigger] orig[j]).spec_off() && lens@[j]
                                == orig[j].spec_len() && dall[j] == orig[j].data,
                        forall|j: int|
                            0 <= j < n ==> (#[trigger] orig[j]).region() == orig[0].region(),
                        arc_back == orig[n - 1].vmem,
                        rebuilt@.len() == t3,
                        forall|j: int| 0 <= j < t3 ==> rebuilt@[j] == orig[j],
                    decreases n - t3,
                {
                    let d = datas.remove(0);
                    proof {
                        assert(dall.skip(t3 as int).remove(0) =~= dall.skip(t3 as int + 1));
                        assert(dall.skip(t3 as int)[0] == dall[t3 as int]);
                    }
                    rebuilt.push(
                        SegmentMut {
                            off: offs[t3],
                            len: lens[t3],
                            data: d,
                            vmem: arc_ops::arc_clone(&arc_back),
                        },
                    );
                    proof {
                        assert(rebuilt@[t3 as int].vmem == orig[t3 as int].vmem);
                        assert(rebuilt@[t3 as int] == orig[t3 as int]);
                    }
                    t3 += 1;
                }
                proof {
                    assert(rebuilt@ =~= orig);
                }
                Err(
                    (
                        Error::conversion_failed(
                            "Vec<vmem::SegmentMut>",
                            "vmem::SegmentMut",
                            "another mutable segment appeared while merging",
                        ),
                        rebuilt,
                    ),
                )
            },
        }
    }
}

impl crate::traits::Handle for Handle {
    type HandleMut = HandleMut;

    type Segment = Segment;

    fn from_handle_mut(handle_mut: HandleMut) -> Self {
        Handle::from_handle_mut(handle_mut)
    }

    fn from_segment(segment: Segment) -> Self {
        Handle::from_segment(segment)
    }
}

impl crate::traits::HandleMut for HandleMut {
    type Handle = Handle;

    type SegmentMut = SegmentMut;

    open spec fn foldable(segment_mut: &SegmentMut) -> bool {
        segment_mut.wf()
    }

    fn try_from_handle(handle: Handle) -> Result<Self, (Error, Handle)> {
        HandleMut::try_from_handle(handle)
    }

    fn try_from_segment_mut(segment_mut: SegmentMut) -> Result<Self, (Error, SegmentMut)> {
        HandleMut::try_from_segment_mut(segment_mut)
    }
}

impl crate::traits::Segment for Segment {
    type Handle = Handle;

    open spec fn splittable(&self, io_vec: &IoVec) -> bool {
        self.wf() && io_vec.spec_representable(self.spec_len())
    }

    fn from_handle(handle: Handle) -> Self {
        Segment::from_handle(handle)
    }

    fn try_split(self, io_vec: &IoVec) -> Result<Vec<Self>, (Error, Self)> {
        Segment::try_split(self, io_vec)
    }
}

impl crate::traits::SegmentMut for SegmentMut {
    type HandleMut = HandleMut;

    open spec fn splittable(&self, io_vec: &IoVec) -> bool {
        self.wf() && io_vec.spec_representable(self.spec_len()) && io_vec.spec_wf()
    }

    open spec fn mergeable(vec_segment_mut: &Vec<SegmentMut>) -> bool {
        forall|k: int|
            0 <= k < vec_segment_mut@.len() ==> (#[trigger] vec_segment_mut@[k]).wf()
    }

    fn from_handle_mut(handle_mut: HandleMut) -> Self {
        SegmentMut::from_handle_mut(handle_mut)
    }

    fn try_from_vec_segment_mut(vec_segment_mut: Vec<SegmentMut>) -> Result<
        Self,
        (Error, Vec<SegmentMut>),
    > {
        SegmentMut::try_from_vec_segment_mut(vec_segment_mut)
    }

    fn try_split(self, io_vec: &IoVec) -> Result<Vec<Self>, (Error, Self)> {
        SegmentMut::try_split(self, io_vec)
    }
}

impl crate::traits::VmemSegment for Segment {
    fn offset_len(&self) -> (usize, usize) {
        (self.off, self.len)
    }
}

impl crate::traits::VmemSegmentMut for SegmentMut {
    fn offset_len(&self) -> (usize, usize) {
        (self.off, self.len)
    }
}

/// Copy `v[from..to]` into a fresh vector.
fn copy_slice(v: &Vec<u8>, from: usize, to: usize) -> (r: Vec<u8>)
    requires
        from <= to,
        to <= v@.len(),
    ensures
        r@ == v@.subrange(from as int, to as int),
{
    let mut out: Vec<u8> = Vec::new();
    let mut j = from;
    while j < to
        invariant
            from <= j <= to,
            to <= v@.len(),
            out@ == v@.subrange(from as int, j as int),
        decreases to - j,
    {
        out.push(v[j]);
        proof {
            assert(v@.subrange(from as int, j as int + 1) =~= v@.subrange(
                from as int,
                j as int,
            ).push(v@[j as int]));
        }
        j += 1;
    }
    out
}

/// Write `data` over `base` starting at `off`.
fn write_back(base: Vec<u8>, off: usize, data: &Vec<u8>) -> (r: Vec<u8>)
    requires
        off + data@.len() <= base@.len(),
    ensures
        r@ == overlay(base@, off as int, data@),
{
    let ghost orig = base@;
    let mut base = base;
    let total = base.len();
    let mut j: usize = 0;
    while j < data.len()
        invariant
            0 <= j <= data@.len(),
            off + data@.len() <= orig.len(),
            orig.len() == total,
            base@.len() == orig.len(),
            forall|i: int|
                0 <= i < orig.len() ==> base@[i] == (if off <= i && i < off + j {
                    data@[i - off]
                } else {
                    orig[i]
                }),
        decreases data@.len() - j,
    {
        base[off + j] = data[j];
        j += 1;
    }
    proof {
        assert(base@ =~= overlay(orig, off as int, data@));
    }
    base
}

} // verus!
