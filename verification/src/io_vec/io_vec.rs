//! View-sets: ordered ranges with a precomputed overlap verdict.

use vstd::prelude::*;

use vstd::arithmetic::div_mod::lemma_fundamental_div_mod;

use crate::err::Error;

use super::{BytePos, ByteRange};

verus! {

/// An ordered group of byte ranges driving one split operation, together
/// with the range demanding the largest minimum region length and a cached
/// three-valued overlap verdict.
///
/// The cached verdict is `Some(true)` or `Some(false)` when the
/// length-independent analysis of the sorted ranges concluded, and `None`
/// when only a length-aware recheck can decide.
#[derive(Debug, Clone)]
pub struct IoVec {
    tallest_range: ByteRange,
    cached_overlapping: Option<bool>,
    byte_ranges: Vec<ByteRange>,
}

impl IoVec {
    /// The ranges of this view-set, in construction order.
    pub closed spec fn spec_ranges(&self) -> Seq<ByteRange> {
        self.byte_ranges@
    }

    /// The range with the largest minimum region length.
    pub closed spec fn spec_tallest(&self) -> ByteRange {
        self.tallest_range
    }

    /// The cached overlap verdict.
    pub closed spec fn spec_cached(&self) -> Option<bool> {
        self.cached_overlapping
    }

    /// Insertion of one range into a run already sorted by the
    /// length-independent order, keeping equal ranges in arrival order.
    pub open spec fn spec_insert_sorted(s: Seq<ByteRange>, x: ByteRange) -> Seq<ByteRange>
        decreases s.len(),
    {
        if s.len() == 0 {
            seq![x]
        } else if s.last().spec_le(&x) {
            s.push(x)
        } else {
            Self::spec_insert_sorted(s.drop_last(), x).push(s.last())
        }
    }

    /// The ranges sorted by the length-independent order.
    pub open spec fn spec_sort(s: Seq<ByteRange>) -> Seq<ByteRange>
        decreases s.len(),
    {
        if s.len() == 0 {
            Seq::empty()
        } else {
            Self::spec_insert_sorted(Self::spec_sort(s.drop_last()), s.last())
        }
    }

    /// The length of the leading run of fully absolute ranges.
    pub open spec fn spec_abs_prefix_len(s: Seq<ByteRange>) -> int
        decreases s.len(),
    {
        if s.len() == 0 {
            0
        } else if s[0].spec_is_absolute() {
            1 + Self::spec_abs_prefix_len(s.skip(1))
        } else {
            0
        }
    }

    /// Whether an adjacent pair inside `[from, to)` of `s` overlaps under
    /// the length-independent order, the end key of one passing the start
    /// key of the next.
    pub open spec fn spec_adjacent_overlap(s: Seq<ByteRange>, from: int, to: int) -> bool {
        exists|p: int|
            from <= p && p + 1 < to && (#[trigger] s[p]).end.spec_key() > s[p + 1].start.spec_key()
    }

    /// Whether every range inside `[from, to)` of `s` is fully relative.
    pub open spec fn spec_all_fully_relative(s: Seq<ByteRange>, from: int, to: int) -> bool {
        forall|p: int| from <= p < to ==> (#[trigger] s[p]).spec_fully_relative()
    }

    /// The verdict for the trailing run starting at `from`: decided by the
    /// adjacent check when the run is fully relative, indeterminate
    /// otherwise.
    pub open spec fn spec_tail_verdict(s: Seq<ByteRange>, from: int) -> Option<bool> {
        if Self::spec_all_fully_relative(s, from, s.len() as int) {
            Some(Self::spec_adjacent_overlap(s, from, s.len() as int))
        } else {
            None
        }
    }

    /// The length-independent analysis of a sorted range sequence.  A
    /// verdict is conclusive only where the pairwise comparisons it rests
    /// on are themselves length-independent: inside the fully absolute
    /// run, inside the fully relative run, and between a mixed range and
    /// a neighbour whose facing bound shares its sign.  An absolute range
    /// and a relative range can never be compared without a length, so a
    /// set that holds both on either side of nothing decidable is
    /// indeterminate.
    pub open spec fn spec_classify_sorted(s: Seq<ByteRange>) -> Option<bool> {
        let la = Self::spec_abs_prefix_len(s);
        if s.len() < 2 {
            Some(false)
        } else if Self::spec_adjacent_overlap(s, 0, la) {
            Some(true)
        } else if la == s.len() {
            Some(false)
        } else if s[la].spec_is_mixed() {
            if la > 0 && s[la - 1].end.spec_key() > s[la].start.spec_key() {
                Some(true)
            } else if la + 1 == s.len() {
                Some(false)
            } else if la > 0 {
                None
            } else if !Self::spec_all_fully_relative(s, 1, s.len() as int) {
                None
            } else if Self::spec_adjacent_overlap(s, 1, s.len() as int) {
                Some(true)
            } else if s[0].end.spec_key() > s[1].start.spec_key() {
                None
            } else {
                Some(false)
            }
        } else if la > 0 {
            None
        } else {
            Self::spec_tail_verdict(s, 0)
        }
    }

    /// The cached verdict computed for a range vector: the analysis above,
    /// over the sorted ranges; fewer than two ranges never overlap.
    pub open spec fn spec_cached_of(ranges: Seq<ByteRange>) -> Option<bool> {
        Self::spec_classify_sorted(Self::spec_sort(ranges))
    }

    /// The range with the largest minimum region length; of several equally
    /// demanding ranges, the last.  An empty vector falls back to the empty
    /// absolute range.
    pub open spec fn spec_tallest_of(s: Seq<ByteRange>) -> ByteRange
        decreases s.len(),
    {
        if s.len() == 0 {
            ByteRange { start: BytePos(0), end: BytePos(0) }
        } else if s.len() == 1 {
            s[0]
        } else {
            let t = Self::spec_tallest_of(s.drop_last());
            if s.last().spec_min_outer_len() >= t.spec_min_outer_len() {
                s.last()
            } else {
                t
            }
        }
    }

    /// Whether two ranges, resolved against `outer_len`, share a byte.
    pub open spec fn spec_pair_overlap(a: ByteRange, b: ByteRange, outer_len: usize) -> bool
        recommends
            a.spec_resolvable(outer_len),
            b.spec_resolvable(outer_len),
    {
        a.start.spec_resolved(outer_len) < b.end.spec_resolved(outer_len) && b.start.spec_resolved(
            outer_len,
        ) < a.end.spec_resolved(outer_len)
    }

    /// Whether some pair of ranges, resolved against `outer_len`, overlaps:
    /// the ground truth the cached analysis approximates.
    pub open spec fn spec_ground_overlap(ranges: Seq<ByteRange>, outer_len: usize) -> bool {
        exists|i: int, j: int|
            0 <= i < j < ranges.len() && #[trigger] Self::spec_pair_overlap(
                ranges[i],
                ranges[j],
                outer_len,
            )
    }

    /// Whether every range resolves against `outer_len` to a non-empty span.
    pub open spec fn spec_all_resolvable(ranges: Seq<ByteRange>, outer_len: usize) -> bool {
        forall|k: int|
            0 <= k < ranges.len() ==> (#[trigger] ranges[k]).spec_resolvable(outer_len)
    }

    /// The index of the first range that fails to resolve against
    /// `outer_len`.
    pub open spec fn spec_first_unresolvable(ranges: Seq<ByteRange>, outer_len: usize) -> int
        decreases ranges.len(),
    {
        if ranges.len() == 0 {
            0
        } else if !ranges[0].spec_resolvable(outer_len) {
            0
        } else {
            1 + Self::spec_first_unresolvable(ranges.skip(1), outer_len)
        }
    }

    /// A well-formed view-set carries a trustworthy cache: a conclusive
    /// verdict agrees with the ground truth at every length where all the
    /// ranges resolve.  Every view-set the builders return is in this
    /// state; the mutable split relies on it.
    pub open spec fn spec_wf(&self) -> bool {
        forall|outer_len: usize|
            self.spec_cached() is Some && #[trigger] Self::spec_all_resolvable(
                self.spec_ranges(),
                outer_len,
            ) ==> self.spec_cached() == Some(
                Self::spec_ground_overlap(self.spec_ranges(), outer_len),
            )
    }

    /// Whether every range of this view-set can be resolved against
    /// `outer_len` without leaving the representable position space.
    pub open spec fn spec_representable(&self, outer_len: usize) -> bool {
        forall|k: int|
            0 <= k < self.spec_ranges().len() ==> (#[trigger] self.spec_ranges()[k]).spec_representable(
                outer_len,
            )
    }

    /// What `is_overlapping` returns for `outer_len`: a too-short length is
    /// rejected against the tallest range; otherwise a conclusive cached
    /// verdict is returned as is, and an indeterminate one is recomputed
    /// from the resolved ranges, rejecting a range that fails to resolve.
    pub open spec fn spec_overlap_result(&self, outer_len: usize) -> Result<bool, Error> {
        if (outer_len as int) < self.spec_tallest().spec_min_outer_len() {
            Err(
                Error::InvalidIoVec {
                    start: self.spec_tallest().start.0,
                    end: self.spec_tallest().end.0,
                    outer_len,
                },
            )
        } else {
            match self.spec_cached() {
                Some(o) => Ok(o),
                None => if Self::spec_all_resolvable(self.spec_ranges(), outer_len) {
                    Ok(Self::spec_ground_overlap(self.spec_ranges(), outer_len))
                } else {
                    Err(
                        Error::InvalidIoVec {
                            start: self.spec_ranges()[Self::spec_first_unresolvable(
                                self.spec_ranges(),
                                outer_len,
                            )].start.0,
                            end: self.spec_ranges()[Self::spec_first_unresolvable(
                                self.spec_ranges(),
                                outer_len,
                            )].end.0,
                            outer_len,
                        },
                    )
                },
            }
        }
    }

    /// The number of chunks `[0, total_len)` splits into: the quotient,
    /// plus one for a remainder.
    pub open spec fn spec_n_chunks(total_len: usize, chunk_size: usize) -> int
        recommends
            chunk_size >= 1,
    {
        if total_len as int % chunk_size as int == 0 {
            total_len as int / chunk_size as int
        } else {
            total_len as int / chunk_size as int + 1
        }
    }

    /// Chunk `k` of the equal-chunk split: `[k*chunk_size,
    /// (k+1)*chunk_size)`, clipped to `total_len`.
    pub open spec fn spec_chunk(total_len: usize, chunk_size: usize, k: int) -> ByteRange {
        let c = chunk_size as int;
        let start = k * c;
        let end = if (k + 1) * c <= total_len {
            (k + 1) * c
        } else {
            total_len as int
        };
        ByteRange { start: BytePos(start as i64), end: BytePos(end as i64) }
    }

    /// Split `[0, total_len)` into `chunk_size`-byte pieces plus a shorter
    /// remainder.  The result never overlaps and its tallest range is the
    /// last chunk.
    pub fn from_chunk_size(total_len: usize, chunk_size: usize) -> (r: Self)
        requires
            1 <= chunk_size,
            1 <= total_len,
            total_len <= i64::MAX,
        ensures
            r.spec_ranges().len() == Self::spec_n_chunks(total_len, chunk_size),
            forall|k: int|
                0 <= k < r.spec_ranges().len() ==> r.spec_ranges()[k] == Self::spec_chunk(
                    total_len,
                    chunk_size,
                    k,
                ),
            r.spec_cached() == Some(false),
            r.spec_tallest() == r.spec_ranges().last(),
            r.spec_wf(),
    {
        let n_full_chunks = total_len / chunk_size;
        let last_size = total_len % chunk_size;
        proof {
            lemma_fundamental_div_mod(total_len as int, chunk_size as int);
            assert(n_full_chunks * (chunk_size as int) == (chunk_size as int) * n_full_chunks)
                by (nonlinear_arith);
        }
        let mut byte_ranges: Vec<ByteRange> = Vec::new();
        let mut i: usize = 0;
        while i < n_full_chunks
            invariant
                0 <= i <= n_full_chunks,
                1 <= chunk_size,
                1 <= total_len <= i64::MAX,
                n_full_chunks == total_len as int / chunk_size as int,
                n_full_chunks * chunk_size + total_len as int % chunk_size as int == total_len,
                0 <= total_len as int % chunk_size as int,
                byte_ranges@.len() == i,
                forall|k: int|
                    0 <= k < i ==> byte_ranges@[k] == Self::spec_chunk(total_len, chunk_size, k),
            decreases n_full_chunks - i,
        {
            proof {
                assert((i + 1) * (chunk_size as int) <= n_full_chunks * (chunk_size as int)) by (nonlinear_arith)
                    requires
                        i + 1 <= n_full_chunks,
                        chunk_size >= 1,
                ;
                assert(i * (chunk_size as int) < (i + 1) * (chunk_size as int)) by (nonlinear_arith)
                    requires
                        chunk_size >= 1,
                        i >= 0,
                ;
            }
            let start = i * chunk_size;
            let end = (i + 1) * chunk_size;
            byte_ranges.push(ByteRange { start: BytePos(start as i64), end: BytePos(end as i64) });
            i += 1;
        }
        if last_size > 0 {
            proof {
                assert(n_full_chunks * (chunk_size as int) >= 0) by (nonlinear_arith)
                    requires
                        chunk_size >= 1,
                        n_full_chunks >= 0,
                ;
                assert((n_full_chunks + 1) * (chunk_size as int) == n_full_chunks * (
                chunk_size as int) + chunk_size) by (nonlinear_arith);
            }
            let start = n_full_chunks * chunk_size;
            byte_ranges.push(
                ByteRange { start: BytePos(start as i64), end: BytePos(total_len as i64) },
            );
        }
        proof {
            if last_size == 0 {
                assert(n_full_chunks >= 1) by (nonlinear_arith)
                    requires
                        n_full_chunks * chunk_size == total_len as int,
                        total_len >= 1,
                        chunk_size >= 1,
                        n_full_chunks >= 0,
                ;
            }
        }
        let n_chunks = byte_ranges.len();
        let tallest_range = byte_ranges[n_chunks - 1];
        proof {
            Self::lemma_equal_chunks_partition(total_len, chunk_size);
            assert forall|ol: usize| #[trigger] Self::spec_all_resolvable(byte_ranges@, ol)
                implies !Self::spec_ground_overlap(byte_ranges@, ol) by {
                assert forall|a: int, b: int|
                    0 <= a < b < byte_ranges@.len() implies !#[trigger] Self::spec_pair_overlap(
                    byte_ranges@[a],
                    byte_ranges@[b],
                    ol,
                ) by {
                    assert(byte_ranges@[a] == Self::spec_chunk(total_len, chunk_size, a));
                    assert(byte_ranges@[b] == Self::spec_chunk(total_len, chunk_size, b));
                    assert(!Self::spec_pair_overlap(
                        Self::spec_chunk(total_len, chunk_size, a),
                        Self::spec_chunk(total_len, chunk_size, b),
                        total_len,
                    ));
                }
                Self::lemma_no_pairs_no_ground(byte_ranges@, ol);
            }
        }
        IoVec { tallest_range, cached_overlapping: Some(false), byte_ranges }
    }

    /// Build a view-set over the given ranges, computing its tallest range
    /// and the cached overlap verdict of the length-independent analysis.
    pub fn from_vec_byte_range(byte_ranges: Vec<ByteRange>) -> (r: Self)
        ensures
            r.spec_ranges() == byte_ranges@,
            r.spec_tallest() == Self::spec_tallest_of(byte_ranges@),
            r.spec_cached() == Self::spec_cached_of(byte_ranges@),
            r.spec_wf(),
    {
        let tallest_range = get_tallest_range(&byte_ranges);
        let cached_overlapping = get_cached_overlapping(&byte_ranges);
        proof {
            assert forall|ol: usize|
                cached_overlapping is Some && #[trigger] Self::spec_all_resolvable(
                    byte_ranges@,
                    ol,
                ) implies cached_overlapping == Some(
                Self::spec_ground_overlap(byte_ranges@, ol),
            ) by {
                Self::lemma_cached_verdict_agrees(byte_ranges@, ol);
            }
        }
        IoVec { tallest_range, cached_overlapping, byte_ranges }
    }

    /// The ranges of this view-set.
    pub fn ranges(&self) -> (r: &Vec<ByteRange>)
        ensures
            r@ == self.spec_ranges(),
    {
        &self.byte_ranges
    }

    /// The smallest region length this view-set can be applied to.
    pub fn min_outer_len(&self) -> (r: u64)
        ensures
            r == self.spec_tallest().spec_min_outer_len(),
    {
        self.tallest_range.min_outer_len()
    }

    /// Whether the ranges overlap when resolved against `outer_len`.
    ///
    /// A length below the view-set's minimum is rejected.  A conclusive
    /// cached verdict is returned without resolving; an indeterminate one is
    /// recomputed from the ranges resolved against `outer_len`, and a range
    /// that fails to resolve is reported with its bounds.
    pub fn is_overlapping(&self, outer_len: usize) -> (r: Result<bool, Error>)
        requires
            self.spec_representable(outer_len),
        ensures
            r == self.spec_overlap_result(outer_len),
    {
        if (outer_len as u64) < self.min_outer_len() {
            return Err(
                Error::InvalidIoVec {
                    start: self.tallest_range.start.0,
                    end: self.tallest_range.end.0,
                    outer_len,
                },
            );
        }
        match self.cached_overlapping {
            Some(o) => Ok(o),
            None => get_overlapping(&self.byte_ranges, outer_len),
        }
    }

    /// The equal-chunk split of `[0, total_len)` is an exact partition:
    /// there are as many chunks as `chunk_size` fits into `total_len`,
    /// rounded up; chunk `k` resolves to `[k*chunk_size,
    /// min((k+1)*chunk_size, total_len))`; the first chunk starts at zero,
    /// consecutive chunks meet without a gap, the last chunk ends at
    /// `total_len`, and no two chunks share a byte.  The last chunk's
    /// length is the division remainder when there is one and a full chunk
    /// otherwise.
    pub proof fn lemma_equal_chunks_partition(total_len: usize, chunk_size: usize)
        requires
            1 <= chunk_size,
            1 <= total_len,
            total_len <= i64::MAX,
        ensures
            Self::spec_n_chunks(total_len, chunk_size) == (total_len + chunk_size - 1) / (
            chunk_size as int),
            Self::spec_n_chunks(total_len, chunk_size) >= 1,
            forall|k: int|
                0 <= k < Self::spec_n_chunks(total_len, chunk_size) ==> {
                    let rg = #[trigger] Self::spec_chunk(total_len, chunk_size, k);
                    &&& rg.spec_is_absolute()
                    &&& rg.spec_resolvable(total_len)
                    &&& rg.start.spec_resolved(total_len) == k * chunk_size
                    &&& rg.end.spec_resolved(total_len) == (if (k + 1) * chunk_size <= total_len {
                        (k + 1) * (chunk_size as int)
                    } else {
                        total_len as int
                    })
                },
            Self::spec_chunk(total_len, chunk_size, 0).start.spec_resolved(total_len) == 0,
            Self::spec_chunk(
                total_len,
                chunk_size,
                Self::spec_n_chunks(total_len, chunk_size) - 1,
            ).end.spec_resolved(total_len) == total_len,
            forall|k: int|
                0 <= k < Self::spec_n_chunks(total_len, chunk_size) - 1 ==> (
                #[trigger] Self::spec_chunk(total_len, chunk_size, k)).end.spec_resolved(total_len)
                    == Self::spec_chunk(total_len, chunk_size, k + 1).start.spec_resolved(
                    total_len,
                ),
            forall|a: int, b: int|
                0 <= a < b < Self::spec_n_chunks(total_len, chunk_size)
                    ==> !#[trigger] Self::spec_pair_overlap(
                    Self::spec_chunk(total_len, chunk_size, a),
                    Self::spec_chunk(total_len, chunk_size, b),
                    total_len,
                ),
            Self::spec_chunk(
                total_len,
                chunk_size,
                Self::spec_n_chunks(total_len, chunk_size) - 1,
            ).end.spec_resolved(total_len) - Self::spec_chunk(
                total_len,
                chunk_size,
                Self::spec_n_chunks(total_len, chunk_size) - 1,
            ).start.spec_resolved(total_len) == (if total_len as int % chunk_size as int == 0 {
                chunk_size as int
            } else {
                total_len as int % chunk_size as int
            }),
    {
        let c = chunk_size as int;
        let l = total_len as int;
        let q = l / c;
        let r0 = l % c;
        let n = Self::spec_n_chunks(total_len, chunk_size);
        assert(l == q * c + r0 && 0 <= r0 < c && q >= 0) by (nonlinear_arith)
            requires
                c >= 1,
                l >= 1,
                q == l / c,
                r0 == l % c,
        ;
        assert(n >= 1) by (nonlinear_arith)
            requires
                l == q * c + r0,
                0 <= r0 < c,
                l >= 1,
                c >= 1,
                n == (if r0 == 0 {
                    q
                } else {
                    q + 1
                }),
        ;
        assert((q + 1) * c == q * c + c) by (nonlinear_arith);
        if r0 == 0 {
            vstd::arithmetic::div_mod::lemma_fundamental_div_mod_converse(l + c - 1, c, q, c - 1);
        } else {
            vstd::arithmetic::div_mod::lemma_fundamental_div_mod_converse(
                l + c - 1,
                c,
                q + 1,
                r0 - 1,
            );
        }
        assert forall|k: int| 0 <= k < n implies {
            let rg = #[trigger] Self::spec_chunk(total_len, chunk_size, k);
            &&& rg.spec_is_absolute()
            &&& rg.spec_resolvable(total_len)
            &&& rg.start.spec_resolved(total_len) == k * chunk_size
            &&& rg.end.spec_resolved(total_len) == (if (k + 1) * chunk_size <= total_len {
                (k + 1) * (chunk_size as int)
            } else {
                total_len as int
            })
        } by {
            assert((k + 1) * c == k * c + c) by (nonlinear_arith);
            assert(0 <= k * c) by (nonlinear_arith)
                requires
                    k >= 0,
                    c >= 1,
            ;
            if k < n - 1 {
                assert((k + 1) * c <= (n - 1) * c) by (nonlinear_arith)
                    requires
                        k + 1 <= n - 1,
                        c >= 1,
                ;
                assert((n - 1) * c <= q * c) by (nonlinear_arith)
                    requires
                        n - 1 <= q,
                        c >= 1,
                ;
            } else {
                assert(k == n - 1);
                if r0 == 0 {
                    assert((n - 1) * c == q * c - c) by (nonlinear_arith)
                        requires
                            n == q,
                    ;
                } else {
                    assert((n - 1) * c == q * c) by (nonlinear_arith)
                        requires
                            n == q + 1,
                    ;
                }
                assert(n * c == (n - 1) * c + c) by (nonlinear_arith);
            }
        }
        assert forall|a: int, b: int| 0 <= a < b < n implies !#[trigger] Self::spec_pair_overlap(
            Self::spec_chunk(total_len, chunk_size, a),
            Self::spec_chunk(total_len, chunk_size, b),
            total_len,
        ) by {
            assert((a + 1) * c <= b * c) by (nonlinear_arith)
                requires
                    a + 1 <= b,
                    c >= 1,
            ;
            assert(Self::spec_chunk(total_len, chunk_size, a).end.spec_resolved(total_len) <= (a
                + 1) * c);
            assert(Self::spec_chunk(total_len, chunk_size, b).start.spec_resolved(total_len) == b
                * c);
        }
        if r0 == 0 {
            assert((n - 1) * c == q * c - c) by (nonlinear_arith)
                requires
                    n == q,
            ;
        } else {
            assert((n - 1) * c == q * c) by (nonlinear_arith)
                requires
                    n == q + 1,
            ;
        }
        assert(Self::spec_chunk(total_len, chunk_size, n - 1).end.spec_resolved(total_len) == l);
        assert(Self::spec_chunk(total_len, chunk_size, n - 1).start.spec_resolved(total_len) == (n
            - 1) * c);
    }

    /// Whether `x` overlaps some member of `s` once resolved.
    pub open spec fn spec_touches(x: ByteRange, s: Seq<ByteRange>, outer_len: usize) -> bool {
        exists|k: int| 0 <= k < s.len() && #[trigger] Self::spec_pair_overlap(s[k], x, outer_len)
    }

    /// Whether `s` is sorted by the length-independent order.
    pub open spec fn spec_sorted_le(s: Seq<ByteRange>) -> bool {
        forall|i: int, j: int|
            #![trigger s[i], s[j]]
            0 <= i < j < s.len() ==> s[i].spec_le(&s[j])
    }

    proof fn lemma_no_pairs_no_ground(t: Seq<ByteRange>, outer_len: usize)
        requires
            forall|i: int, j: int|
                0 <= i < j < t.len() ==> !#[trigger] Self::spec_pair_overlap(
                    t[i],
                    t[j],
                    outer_len,
                ),
        ensures
            !Self::spec_ground_overlap(t, outer_len),
    {
        if Self::spec_ground_overlap(t, outer_len) {
            let (i, j) = choose|i: int, j: int|
                0 <= i < j < t.len() && #[trigger] Self::spec_pair_overlap(t[i], t[j], outer_len);
            assert(false);
        }
    }

    proof fn lemma_push_ground(s: Seq<ByteRange>, x: ByteRange, outer_len: usize)
        ensures
            Self::spec_ground_overlap(s.push(x), outer_len) <==> (Self::spec_ground_overlap(
                s,
                outer_len,
            ) || Self::spec_touches(x, s, outer_len)),
    {
        let t = s.push(x);
        let n = s.len() as int;
        if Self::spec_ground_overlap(t, outer_len) {
            let (i, j) = choose|i: int, j: int|
                0 <= i < j < t.len() && #[trigger] Self::spec_pair_overlap(t[i], t[j], outer_len);
            if j == n {
                assert(Self::spec_pair_overlap(s[i], x, outer_len));
            } else {
                assert(Self::spec_pair_overlap(s[i], s[j], outer_len));
            }
        }
        if Self::spec_ground_overlap(s, outer_len) {
            let (i, j) = choose|i: int, j: int|
                0 <= i < j < s.len() && #[trigger] Self::spec_pair_overlap(s[i], s[j], outer_len);
            assert(Self::spec_pair_overlap(t[i], t[j], outer_len));
        }
        if Self::spec_touches(x, s, outer_len) {
            let k = choose|k: int|
                0 <= k < s.len() && #[trigger] Self::spec_pair_overlap(s[k], x, outer_len);
            assert(Self::spec_pair_overlap(t[k], t[n], outer_len));
        }
    }

    proof fn lemma_push_touches(y: ByteRange, s: Seq<ByteRange>, z: ByteRange, outer_len: usize)
        ensures
            Self::spec_touches(y, s.push(z), outer_len) <==> (Self::spec_touches(y, s, outer_len)
                || Self::spec_pair_overlap(z, y, outer_len)),
    {
        let t = s.push(z);
        let n = s.len() as int;
        if Self::spec_touches(y, t, outer_len) {
            let k = choose|k: int|
                0 <= k < t.len() && #[trigger] Self::spec_pair_overlap(t[k], y, outer_len);
            if k == n {
                assert(Self::spec_pair_overlap(z, y, outer_len));
            } else {
                assert(Self::spec_pair_overlap(s[k], y, outer_len));
            }
        }
        if Self::spec_touches(y, s, outer_len) {
            let k = choose|k: int|
                0 <= k < s.len() && #[trigger] Self::spec_pair_overlap(s[k], y, outer_len);
            assert(Self::spec_pair_overlap(t[k], y, outer_len));
        }
        if Self::spec_pair_overlap(z, y, outer_len) {
            assert(Self::spec_pair_overlap(t[n], y, outer_len));
        }
    }

    proof fn lemma_insert_touches(y: ByteRange, s: Seq<ByteRange>, x: ByteRange, outer_len: usize)
        ensures
            Self::spec_touches(y, Self::spec_insert_sorted(s, x), outer_len) <==> (
            Self::spec_touches(y, s, outer_len) || Self::spec_pair_overlap(x, y, outer_len)),
        decreases s.len(),
    {
        let t = Self::spec_insert_sorted(s, x);
        if s.len() == 0 {
            assert(t =~= seq![x]);
            if Self::spec_touches(y, t, outer_len) {
                let k = choose|k: int|
                    0 <= k < t.len() && #[trigger] Self::spec_pair_overlap(t[k], y, outer_len);
                assert(Self::spec_pair_overlap(x, y, outer_len));
            }
            if Self::spec_pair_overlap(x, y, outer_len) {
                assert(Self::spec_pair_overlap(t[0], y, outer_len));
            }
        } else if s.last().spec_le(&x) {
            Self::lemma_push_touches(y, s, x, outer_len);
        } else {
            Self::lemma_push_touches(
                y,
                Self::spec_insert_sorted(s.drop_last(), x),
                s.last(),
                outer_len,
            );
            Self::lemma_insert_touches(y, s.drop_last(), x, outer_len);
            Self::lemma_push_touches(y, s.drop_last(), s.last(), outer_len);
            assert(s.drop_last().push(s.last()) =~= s);
        }
    }

    proof fn lemma_insert_ground(s: Seq<ByteRange>, x: ByteRange, outer_len: usize)
        ensures
            Self::spec_ground_overlap(Self::spec_insert_sorted(s, x), outer_len) <==> (
            Self::spec_ground_overlap(s, outer_len) || Self::spec_touches(x, s, outer_len)),
        decreases s.len(),
    {
        let t = Self::spec_insert_sorted(s, x);
        if s.len() == 0 {
            assert(t =~= seq![x]);
            if Self::spec_ground_overlap(t, outer_len) {
                let (i, j) = choose|i: int, j: int|
                    0 <= i < j < t.len() && #[trigger] Self::spec_pair_overlap(
                        t[i],
                        t[j],
                        outer_len,
                    );
                assert(false);
            }
            if Self::spec_ground_overlap(s, outer_len) {
                let (i, j) = choose|i: int, j: int|
                    0 <= i < j < s.len() && #[trigger] Self::spec_pair_overlap(
                        s[i],
                        s[j],
                        outer_len,
                    );
                assert(false);
            }
        } else if s.last().spec_le(&x) {
            Self::lemma_push_ground(s, x, outer_len);
        } else {
            let inner = Self::spec_insert_sorted(s.drop_last(), x);
            Self::lemma_push_ground(inner, s.last(), outer_len);
            Self::lemma_insert_ground(s.drop_last(), x, outer_len);
            Self::lemma_insert_touches(s.last(), s.drop_last(), x, outer_len);
            Self::lemma_push_ground(s.drop_last(), s.last(), outer_len);
            Self::lemma_push_touches(x, s.drop_last(), s.last(), outer_len);
            assert(s.drop_last().push(s.last()) =~= s);
            assert(Self::spec_pair_overlap(x, s.last(), outer_len) == Self::spec_pair_overlap(
                s.last(),
                x,
                outer_len,
            ));
        }
    }

    proof fn lemma_sort_touches(y: ByteRange, s: Seq<ByteRange>, outer_len: usize)
        ensures
            Self::spec_touches(y, Self::spec_sort(s), outer_len) <==> Self::spec_touches(
                y,
                s,
                outer_len,
            ),
        decreases s.len(),
    {
        if s.len() == 0 {
            assert(Self::spec_sort(s) =~= s);
        } else {
            Self::lemma_insert_touches(y, Self::spec_sort(s.drop_last()), s.last(), outer_len);
            Self::lemma_sort_touches(y, s.drop_last(), outer_len);
            Self::lemma_push_touches(y, s.drop_last(), s.last(), outer_len);
            assert(s.drop_last().push(s.last()) =~= s);
        }
    }

    /// Sorting neither makes nor unmakes an overlapping pair.
    proof fn lemma_sort_ground(s: Seq<ByteRange>, outer_len: usize)
        ensures
            Self::spec_ground_overlap(Self::spec_sort(s), outer_len) <==> Self::spec_ground_overlap(
                s,
                outer_len,
            ),
        decreases s.len(),
    {
        if s.len() == 0 {
            assert(Self::spec_sort(s) =~= s);
        } else {
            Self::lemma_insert_ground(Self::spec_sort(s.drop_last()), s.last(), outer_len);
            Self::lemma_sort_ground(s.drop_last(), outer_len);
            Self::lemma_sort_touches(s.last(), s.drop_last(), outer_len);
            Self::lemma_push_ground(s.drop_last(), s.last(), outer_len);
            assert(s.drop_last().push(s.last()) =~= s);
        }
    }

    proof fn lemma_insert_resolvable(s: Seq<ByteRange>, x: ByteRange, outer_len: usize)
        requires
            Self::spec_all_resolvable(s, outer_len),
            x.spec_resolvable(outer_len),
        ensures
            Self::spec_all_resolvable(Self::spec_insert_sorted(s, x), outer_len),
        decreases s.len(),
    {
        let t = Self::spec_insert_sorted(s, x);
        if s.len() == 0 {
            assert(t =~= seq![x]);
            assert forall|k: int| 0 <= k < t.len() implies (#[trigger] t[k]).spec_resolvable(
                outer_len,
            ) by {
                assert(t[k] == x);
            }
        } else if s.last().spec_le(&x) {
            assert forall|k: int| 0 <= k < t.len() implies (#[trigger] t[k]).spec_resolvable(
                outer_len,
            ) by {
                if k < s.len() {
                    assert(t[k] == s[k]);
                } else {
                    assert(t[k] == x);
                }
            }
        } else {
            assert forall|k: int|
                0 <= k < s.drop_last().len() implies (#[trigger] s.drop_last()[k]).spec_resolvable(
                outer_len,
            ) by {
                assert(s.drop_last()[k] == s[k]);
            }
            Self::lemma_insert_resolvable(s.drop_last(), x, outer_len);
            let inner = Self::spec_insert_sorted(s.drop_last(), x);
            assert forall|k: int| 0 <= k < t.len() implies (#[trigger] t[k]).spec_resolvable(
                outer_len,
            ) by {
                if k < inner.len() {
                    assert(t[k] == inner[k]);
                } else {
                    assert(t[k] == s.last());
                    assert(s.last() == s[s.len() - 1]);
                }
            }
        }
    }

    proof fn lemma_sort_resolvable(s: Seq<ByteRange>, outer_len: usize)
        requires
            Self::spec_all_resolvable(s, outer_len),
        ensures
            Self::spec_all_resolvable(Self::spec_sort(s), outer_len),
        decreases s.len(),
    {
        if s.len() == 0 {
            assert(Self::spec_sort(s) =~= s);
        } else {
            assert forall|k: int|
                0 <= k < s.drop_last().len() implies (#[trigger] s.drop_last()[k]).spec_resolvable(
                outer_len,
            ) by {
                assert(s.drop_last()[k] == s[k]);
            }
            Self::lemma_sort_resolvable(s.drop_last(), outer_len);
            assert(s.last() == s[s.len() - 1]);
            Self::lemma_insert_resolvable(Self::spec_sort(s.drop_last()), s.last(), outer_len);
        }
    }

    proof fn lemma_insert_le_bound(s: Seq<ByteRange>, x: ByteRange, z: ByteRange)
        requires
            forall|i: int| 0 <= i < s.len() ==> (#[trigger] s[i]).spec_le(&z),
            x.spec_le(&z),
        ensures
            forall|i: int|
                0 <= i < Self::spec_insert_sorted(s, x).len() ==> (
                #[trigger] Self::spec_insert_sorted(s, x)[i]).spec_le(&z),
        decreases s.len(),
    {
        let t = Self::spec_insert_sorted(s, x);
        if s.len() == 0 {
            assert(t =~= seq![x]);
            assert forall|i: int| 0 <= i < t.len() implies (#[trigger] t[i]).spec_le(&z) by {
                assert(t[i] == x);
            }
        } else if s.last().spec_le(&x) {
            assert forall|i: int| 0 <= i < t.len() implies (#[trigger] t[i]).spec_le(&z) by {
                if i < s.len() {
                    assert(t[i] == s[i]);
                } else {
                    assert(t[i] == x);
                }
            }
        } else {
            assert forall|i: int|
                0 <= i < s.drop_last().len() implies (#[trigger] s.drop_last()[i]).spec_le(&z) by {
                assert(s.drop_last()[i] == s[i]);
            }
            Self::lemma_insert_le_bound(s.drop_last(), x, z);
            let inner = Self::spec_insert_sorted(s.drop_last(), x);
            assert forall|i: int| 0 <= i < t.len() implies (#[trigger] t[i]).spec_le(&z) by {
                if i < inner.len() {
                    assert(t[i] == inner[i]);
                } else {
                    assert(t[i] == s.last());
                    assert(s.last() == s[s.len() - 1]);
                }
            }
        }
    }

    proof fn lemma_insert_sorted_le(s: Seq<ByteRange>, x: ByteRange)
        requires
            Self::spec_sorted_le(s),
        ensures
            Self::spec_sorted_le(Self::spec_insert_sorted(s, x)),
        decreases s.len(),
    {
        let t = Self::spec_insert_sorted(s, x);
        if s.len() == 0 {
            assert(t =~= seq![x]);
        } else if s.last().spec_le(&x) {
            assert forall|i: int, j: int|
                #![trigger t[i], t[j]]
                0 <= i < j < t.len() implies t[i].spec_le(&t[j]) by {
                if j < s.len() {
                    assert(t[i] == s[i] && t[j] == s[j]);
                } else {
                    assert(t[j] == x);
                    assert(t[i] == s[i]);
                    if i < s.len() - 1 {
                        assert(s[i].spec_le(&s[s.len() - 1]));
                    }
                    assert(s[s.len() - 1] == s.last());
                }
            }
        } else {
            assert forall|i: int, j: int|
                #![trigger s.drop_last()[i], s.drop_last()[j]]
                0 <= i < j < s.drop_last().len() implies s.drop_last()[i].spec_le(
                &s.drop_last()[j],
            ) by {
                assert(s.drop_last()[i] == s[i] && s.drop_last()[j] == s[j]);
            }
            Self::lemma_insert_sorted_le(s.drop_last(), x);
            assert forall|i: int|
                0 <= i < s.drop_last().len() implies (#[trigger] s.drop_last()[i]).spec_le(
                &s.last(),
            ) by {
                assert(s.drop_last()[i] == s[i]);
                assert(s.last() == s[s.len() - 1]);
            }
            assert(x.spec_le(&s.last()));
            Self::lemma_insert_le_bound(s.drop_last(), x, s.last());
            let inner = Self::spec_insert_sorted(s.drop_last(), x);
            assert forall|i: int, j: int|
                #![trigger t[i], t[j]]
                0 <= i < j < t.len() implies t[i].spec_le(&t[j]) by {
                if j < inner.len() {
                    assert(t[i] == inner[i] && t[j] == inner[j]);
                } else {
                    assert(t[j] == s.last());
                    assert(t[i] == inner[i]);
                }
            }
        }
    }

    proof fn lemma_sort_sorted_le(s: Seq<ByteRange>)
        ensures
            Self::spec_sorted_le(Self::spec_sort(s)),
        decreases s.len(),
    {
        if s.len() == 0 {
        } else {
            Self::lemma_sort_sorted_le(s.drop_last());
            Self::lemma_insert_sorted_le(Self::spec_sort(s.drop_last()), s.last());
        }
    }

    proof fn lemma_abs_prefix_props(s: Seq<ByteRange>)
        ensures
            0 <= Self::spec_abs_prefix_len(s) <= s.len(),
            forall|k: int|
                0 <= k < Self::spec_abs_prefix_len(s) ==> (#[trigger] s[k]).spec_is_absolute(),
            Self::spec_abs_prefix_len(s) < s.len() ==> !s[Self::spec_abs_prefix_len(
                s,
            )].spec_is_absolute(),
        decreases s.len(),
    {
        if s.len() == 0 {
        } else if s[0].spec_is_absolute() {
            Self::lemma_abs_prefix_props(s.skip(1));
            let la = Self::spec_abs_prefix_len(s);
            assert forall|k: int| 0 <= k < la implies (#[trigger] s[k]).spec_is_absolute() by {
                if k > 0 {
                    assert(s.skip(1)[k - 1] == s[k]);
                }
            }
            if la < s.len() {
                assert(s.skip(1)[la - 1] == s[la]);
            }
        } else {
        }
    }

    /// In a run whose every adjacent pair is disjoint once resolved, any
    /// earlier member ends at or before any later member starts.
    proof fn lemma_chain_disjoint(
        t: Seq<ByteRange>,
        outer_len: usize,
        lo: int,
        hi: int,
        a: int,
        b: int,
    )
        requires
            0 <= lo <= a < b < hi <= t.len(),
            Self::spec_all_resolvable(t, outer_len),
            forall|p: int|
                lo <= p && p + 1 < hi ==> (#[trigger] t[p]).end.spec_resolved(outer_len) <= t[p
                    + 1].start.spec_resolved(outer_len),
        ensures
            t[a].end.spec_resolved(outer_len) <= t[b].start.spec_resolved(outer_len),
        decreases b - a,
    {
        if b == a + 1 {
        } else {
            Self::lemma_chain_disjoint(t, outer_len, lo, hi, a, b - 1);
            assert(t[b - 1].spec_resolvable(outer_len));
        }
    }

    /// Soundness of the analysis over the sorted ranges: a conclusive
    /// verdict equals the ground truth at any length where all resolve.
    proof fn lemma_classify_sound(t: Seq<ByteRange>, outer_len: usize)
        requires
            Self::spec_sorted_le(t),
            Self::spec_all_resolvable(t, outer_len),
            Self::spec_classify_sorted(t) is Some,
        ensures
            Self::spec_classify_sorted(t) == Some(Self::spec_ground_overlap(t, outer_len)),
    {
        let la = Self::spec_abs_prefix_len(t);
        Self::lemma_abs_prefix_props(t);
        let n = t.len() as int;
        if n < 2 {
            if Self::spec_ground_overlap(t, outer_len) {
                let (i, j) = choose|i: int, j: int|
                    0 <= i < j < t.len() && #[trigger] Self::spec_pair_overlap(
                        t[i],
                        t[j],
                        outer_len,
                    );
                assert(false);
            }
        } else if Self::spec_adjacent_overlap(t, 0, la) {
            let p = choose|p: int|
                0 <= p && p + 1 < la && (#[trigger] t[p]).end.spec_key() > t[p
                    + 1].start.spec_key();
            assert(t[p].spec_is_absolute());
            assert(t[p + 1].spec_is_absolute());
            assert(t[p].spec_le(&t[p + 1]));
            assert(Self::spec_pair_overlap(t[p], t[p + 1], outer_len));
        } else if la == n {
            assert forall|p: int|
                0 <= p && p + 1 < n implies (#[trigger] t[p]).end.spec_resolved(outer_len) <= t[p
                + 1].start.spec_resolved(outer_len) by {
                assert(t[p].spec_is_absolute());
                assert(t[p + 1].spec_is_absolute());
                assert(!(t[p].end.spec_key() > t[p + 1].start.spec_key()));
            }
            assert forall|i: int, j: int|
                0 <= i < j < t.len() implies !#[trigger] Self::spec_pair_overlap(
                t[i],
                t[j],
                outer_len,
            ) by {
                Self::lemma_chain_disjoint(t, outer_len, 0, n, i, j);
            }
            Self::lemma_no_pairs_no_ground(t, outer_len);
        } else if t[la].spec_is_mixed() {
            if la > 0 && t[la - 1].end.spec_key() > t[la].start.spec_key() {
                assert(t[la - 1].spec_is_absolute());
                assert(t[la - 1].spec_le(&t[la]));
                assert(t[la].spec_resolvable(outer_len));
                assert(Self::spec_pair_overlap(t[la - 1], t[la], outer_len));
            } else if la + 1 == n {
                assert forall|p: int|
                    0 <= p && p + 1 < n implies (#[trigger] t[p]).end.spec_resolved(outer_len)
                    <= t[p + 1].start.spec_resolved(outer_len) by {
                    assert(t[p].spec_is_absolute());
                    if p + 1 < la {
                        assert(t[p + 1].spec_is_absolute());
                        assert(!(t[p].end.spec_key() > t[p + 1].start.spec_key()));
                    } else {
                        assert(p + 1 == la);
                        assert(!(t[p].end.spec_key() > t[la].start.spec_key()));
                    }
                }
                assert forall|i: int, j: int|
                    0 <= i < j < t.len() implies !#[trigger] Self::spec_pair_overlap(
                    t[i],
                    t[j],
                    outer_len,
                ) by {
                    Self::lemma_chain_disjoint(t, outer_len, 0, n, i, j);
                }
                Self::lemma_no_pairs_no_ground(t, outer_len);
            } else if la > 0 {
                assert(false);
            } else if !Self::spec_all_fully_relative(t, 1, n) {
                assert(false);
            } else if Self::spec_adjacent_overlap(t, 1, n) {
                let p = choose|p: int|
                    1 <= p && p + 1 < n && (#[trigger] t[p]).end.spec_key() > t[p
                        + 1].start.spec_key();
                assert(t[p].spec_fully_relative());
                assert(t[p + 1].spec_fully_relative());
                assert(t[p].spec_le(&t[p + 1]));
                assert(Self::spec_pair_overlap(t[p], t[p + 1], outer_len));
            } else if t[0].end.spec_key() > t[1].start.spec_key() {
                assert(false);
            } else {
                assert forall|p: int|
                    0 <= p && p + 1 < n implies (#[trigger] t[p]).end.spec_resolved(outer_len)
                    <= t[p + 1].start.spec_resolved(outer_len) by {
                    if p == 0 {
                        assert(t[0].spec_is_mixed());
                        assert(t[1].spec_fully_relative());
                    } else {
                        assert(t[p].spec_fully_relative());
                        assert(t[p + 1].spec_fully_relative());
                        assert(!(t[p].end.spec_key() > t[p + 1].start.spec_key()));
                    }
                }
                assert forall|i: int, j: int|
                    0 <= i < j < t.len() implies !#[trigger] Self::spec_pair_overlap(
                    t[i],
                    t[j],
                    outer_len,
                ) by {
                    Self::lemma_chain_disjoint(t, outer_len, 0, n, i, j);
                }
                Self::lemma_no_pairs_no_ground(t, outer_len);
            }
        } else if la > 0 {
            assert(false);
        } else {
            assert(Self::spec_all_fully_relative(t, 0, n));
            if Self::spec_adjacent_overlap(t, 0, n) {
                let p = choose|p: int|
                    0 <= p && p + 1 < n && (#[trigger] t[p]).end.spec_key() > t[p
                        + 1].start.spec_key();
                assert(t[p].spec_fully_relative());
                assert(t[p + 1].spec_fully_relative());
                assert(t[p].spec_le(&t[p + 1]));
                assert(Self::spec_pair_overlap(t[p], t[p + 1], outer_len));
            } else {
                assert forall|p: int|
                    0 <= p && p + 1 < n implies (#[trigger] t[p]).end.spec_resolved(outer_len)
                    <= t[p + 1].start.spec_resolved(outer_len) by {
                    assert(t[p].spec_fully_relative());
                    assert(t[p + 1].spec_fully_relative());
                    assert(!(t[p].end.spec_key() > t[p + 1].start.spec_key()));
                }
                assert forall|i: int, j: int|
                    0 <= i < j < t.len() implies !#[trigger] Self::spec_pair_overlap(
                    t[i],
                    t[j],
                    outer_len,
                ) by {
                    Self::lemma_chain_disjoint(t, outer_len, 0, n, i, j);
                }
                Self::lemma_no_pairs_no_ground(t, outer_len);
            }
        }
    }

    /// A conclusive length-independent verdict agrees with the ground
    /// truth at every length where all the ranges resolve: the analysis
    /// never declares a set free of overlap that overlaps once resolved,
    /// nor the reverse.
    pub proof fn lemma_cached_verdict_agrees(ranges: Seq<ByteRange>, outer_len: usize)
        requires
            Self::spec_all_resolvable(ranges, outer_len),
            Self::spec_cached_of(ranges) is Some,
        ensures
            Self::spec_cached_of(ranges) == Some(Self::spec_ground_overlap(ranges, outer_len)),
    {
        Self::lemma_sort_sorted_le(ranges);
        Self::lemma_sort_resolvable(ranges, outer_len);
        Self::lemma_classify_sound(Self::spec_sort(ranges), outer_len);
        Self::lemma_sort_ground(ranges, outer_len);
    }

    /// The first index at which resolution fails, characterised.
    pub(crate) proof fn lemma_first_unresolvable(
        ranges: Seq<ByteRange>,
        outer_len: usize,
        i: int,
    )
        requires
            0 <= i < ranges.len(),
            !ranges[i].spec_resolvable(outer_len),
            forall|k: int| 0 <= k < i ==> (#[trigger] ranges[k]).spec_resolvable(outer_len),
        ensures
            Self::spec_first_unresolvable(ranges, outer_len) == i,
        decreases i,
    {
        if i == 0 {
        } else {
            assert(ranges[0].spec_resolvable(outer_len));
            assert(forall|k: int|
                0 <= k < i - 1 ==> (#[trigger] ranges.skip(1)[k]) == ranges[k + 1]);
            assert(ranges.skip(1)[i - 1] == ranges[i]);
            Self::lemma_first_unresolvable(ranges.skip(1), outer_len, i - 1);
        }
    }

    /// The length of the absolute prefix, characterised.
    pub(crate) proof fn lemma_abs_prefix_len(s: Seq<ByteRange>, i: int)
        requires
            0 <= i <= s.len(),
            forall|k: int| 0 <= k < i ==> (#[trigger] s[k]).spec_is_absolute(),
            i < s.len() ==> !s[i].spec_is_absolute(),
        ensures
            Self::spec_abs_prefix_len(s) == i,
        decreases i,
    {
        if s.len() == 0 {
        } else if i == 0 {
        } else {
            assert(s[0].spec_is_absolute());
            assert(forall|k: int| 0 <= k < i - 1 ==> (#[trigger] s.skip(1)[k]) == s[k + 1]);
            if i < s.len() {
                assert(s.skip(1)[i - 1] == s[i]);
            }
            Self::lemma_abs_prefix_len(s.skip(1), i - 1);
        }
    }
}

/// The range with the largest minimum region length; the last such range
/// when several tie.
fn get_tallest_range(byte_ranges: &Vec<ByteRange>) -> (r: ByteRange)
    ensures
        r == IoVec::spec_tallest_of(byte_ranges@),
{
    if byte_ranges.len() == 0 {
        return ByteRange { start: BytePos(0), end: BytePos(0) };
    }
    let mut best = byte_ranges[0];
    let mut i: usize = 1;
    while i < byte_ranges.len()
        invariant
            1 <= i <= byte_ranges@.len(),
            best == IoVec::spec_tallest_of(byte_ranges@.take(i as int)),
        decreases byte_ranges@.len() - i,
    {
        proof {
            assert(byte_ranges@.take(i as int + 1).drop_last() =~= byte_ranges@.take(i as int));
            assert(byte_ranges@.take(i as int + 1).last() == byte_ranges@[i as int]);
        }
        if byte_ranges[i].min_outer_len() >= best.min_outer_len() {
            best = byte_ranges[i];
        }
        i += 1;
    }
    proof {
        assert(byte_ranges@.take(byte_ranges@.len() as int) =~= byte_ranges@);
    }
    best
}

/// Insert one range into an already sorted vector, keeping arrival order
/// among equals.
fn insert_sorted(v: Vec<ByteRange>, x: ByteRange) -> (r: Vec<ByteRange>)
    ensures
        r@ == IoVec::spec_insert_sorted(v@, x),
    decreases v@.len(),
{
    let mut v = v;
    if v.len() == 0 {
        v.push(x);
        proof {
            assert(v@ =~= seq![x]);
        }
        v
    } else {
        let last = v[v.len() - 1];
        if last.le(&x) {
            v.push(x);
            v
        } else {
            let ghost pre = v@;
            v.pop();
            proof {
                assert(v@ =~= pre.drop_last());
            }
            let mut r = insert_sorted(v, x);
            r.push(last);
            r
        }
    }
}

/// Sort the ranges by the length-independent order.
fn sort_ranges_vec(src: &Vec<ByteRange>) -> (r: Vec<ByteRange>)
    ensures
        r@ == IoVec::spec_sort(src@),
{
    let mut out: Vec<ByteRange> = Vec::new();
    let mut i: usize = 0;
    while i < src.len()
        invariant
            0 <= i <= src@.len(),
            out@ == IoVec::spec_sort(src@.take(i as int)),
        decreases src@.len() - i,
    {
        proof {
            assert(src@.take(i as int + 1).drop_last() =~= src@.take(i as int));
            assert(src@.take(i as int + 1).last() == src@[i as int]);
        }
        out = insert_sorted(out, src[i]);
        i += 1;
    }
    proof {
        assert(src@.take(src@.len() as int) =~= src@);
    }
    out
}

/// Whether an adjacent pair inside `[from, to)` overlaps under the
/// length-independent order.  The caller hands in a run whose members all
/// share one sign, so comparing keys compares positions.
fn subrange_has_overlap(s: &Vec<ByteRange>, from: usize, to: usize) -> (r: bool)
    requires
        from <= to,
        to <= s@.len(),
    ensures
        r == IoVec::spec_adjacent_overlap(s@, from as int, to as int),
{
    if from == to {
        return false;
    }
    let mut k = from;
    while k + 1 < to
        invariant
            from <= k < to,
            to <= s@.len(),
            forall|p: int|
                from <= p && p + 1 <= k ==> !((#[trigger] s@[p]).end.spec_key() > s@[p
                    + 1].start.spec_key()),
        decreases to - k,
    {
        if s[k].end.order_key() > s[k + 1].start.order_key() {
            return true;
        }
        k += 1;
    }
    false
}

/// The length-independent overlap analysis over one range vector.
fn get_cached_overlapping(byte_ranges: &Vec<ByteRange>) -> (r: Option<bool>)
    ensures
        r == IoVec::spec_cached_of(byte_ranges@),
{
    let s = sort_ranges_vec(byte_ranges);
    let ghost sq = s@;
    let n = s.len();
    if n < 2 {
        return Some(false);
    }
    let mut la: usize = 0;
    while la < n && s[la].is_absolute()
        invariant
            0 <= la <= n,
            n == sq.len(),
            s@ == sq,
            forall|k: int| 0 <= k < la ==> (#[trigger] sq[k]).spec_is_absolute(),
        decreases n - la,
    {
        la += 1;
    }
    proof {
        IoVec::lemma_abs_prefix_len(sq, la as int);
    }
    if subrange_has_overlap(&s, 0, la) {
        return Some(true);
    }
    if la == n {
        return Some(false);
    }
    if s[la].start.is_absolute() && s[la].end.is_relative() {
        if la > 0 {
            if s[la - 1].end.order_key() > s[la].start.order_key() {
                return Some(true);
            }
        }
        if la + 1 == n {
            return Some(false);
        }
        if la > 0 {
            return None;
        }
        // One mixed range leads; everything after it must be fully
        // relative for the remaining comparisons to be decidable.
        let mut k: usize = 1;
        while k < n
            invariant
                1 <= k <= n,
                2 <= n == sq.len(),
                s@ == sq,
                sq == IoVec::spec_sort(byte_ranges@),
                IoVec::spec_abs_prefix_len(sq) == 0,
                sq[0].spec_is_mixed(),
                forall|p: int| 1 <= p < k ==> (#[trigger] sq[p]).spec_fully_relative(),
            decreases n - k,
        {
            if s[k].start.is_absolute() || s[k].end.is_absolute() {
                proof {
                    assert(!sq[k as int].spec_fully_relative());
                }
                return None;
            }
            k += 1;
        }
        if subrange_has_overlap(&s, 1, n) {
            return Some(true);
        }
        if s[0].end.order_key() > s[1].start.order_key() {
            return None;
        }
        return Some(false);
    }
    if la > 0 {
        return None;
    }
    // A run led by a relative-start range: conclusive only when it is
    // fully relative throughout.
    let mut k: usize = 0;
    while k < n
        invariant
            0 <= k <= n,
            2 <= n == sq.len(),
            s@ == sq,
            sq == IoVec::spec_sort(byte_ranges@),
            IoVec::spec_abs_prefix_len(sq) == 0,
            !sq[0].spec_is_mixed(),
            forall|p: int| 0 <= p < k ==> (#[trigger] sq[p]).spec_fully_relative(),
        decreases n - k,
    {
        if s[k].start.is_absolute() || s[k].end.is_absolute() {
            proof {
                assert(!sq[k as int].spec_fully_relative());
            }
            return None;
        }
        k += 1;
    }
    Some(subrange_has_overlap(&s, 0, n))
}

/// The ground-truth overlap check: resolve every range against `outer_len`
/// and look for any two resolved spans that share a byte.
fn get_overlapping(byte_ranges: &Vec<ByteRange>, outer_len: usize) -> (r: Result<bool, Error>)
    requires
        forall|k: int|
            0 <= k < byte_ranges@.len() ==> (#[trigger] byte_ranges@[k]).spec_representable(
                outer_len,
            ),
    ensures
        IoVec::spec_all_resolvable(byte_ranges@, outer_len) ==> r == Ok::<bool, Error>(
            IoVec::spec_ground_overlap(byte_ranges@, outer_len),
        ),
        !IoVec::spec_all_resolvable(byte_ranges@, outer_len) ==> r == Err::<bool, Error>(
            (Error::InvalidIoVec {
                start: byte_ranges@[IoVec::spec_first_unresolvable(byte_ranges@, outer_len)].start.0,
                end: byte_ranges@[IoVec::spec_first_unresolvable(byte_ranges@, outer_len)].end.0,
                outer_len,
            }),
        ),
{
    let n = byte_ranges.len();
    let mut starts: Vec<i64> = Vec::new();
    let mut ends: Vec<i64> = Vec::new();
    let mut idx: usize = 0;
    while idx < n
        invariant
            0 <= idx <= n,
            n == byte_ranges@.len(),
            starts@.len() == idx,
            ends@.len() == idx,
            forall|k: int|
                0 <= k < byte_ranges@.len() ==> (#[trigger] byte_ranges@[k]).spec_representable(
                    outer_len,
                ),
            forall|k: int| 0 <= k < idx ==> (#[trigger] byte_ranges@[k]).spec_resolvable(outer_len),
            forall|k: int|
                0 <= k < idx ==> starts@[k] == (#[trigger] byte_ranges@[k]).start.spec_resolved(
                    outer_len,
                ) && ends@[k] == byte_ranges@[k].end.spec_resolved(outer_len),
        decreases n - idx,
    {
        let rg = byte_ranges[idx];
        match rg.absolute_start_end(outer_len) {
            Ok((s0, e0)) => {
                starts.push(s0.0);
                ends.push(e0.0);
            },
            Err(_) => {
                proof {
                    IoVec::lemma_first_unresolvable(byte_ranges@, outer_len, idx as int);
                }
                return Err(
                    Error::InvalidIoVec { start: rg.start.0, end: rg.end.0, outer_len },
                );
            },
        }
        idx += 1;
    }
    let mut i: usize = 0;
    while i < n
        invariant
            0 <= i <= n,
            n == byte_ranges@.len(),
            starts@.len() == n,
            ends@.len() == n,
            forall|k: int| 0 <= k < n ==> (#[trigger] byte_ranges@[k]).spec_resolvable(outer_len),
            forall|k: int|
                0 <= k < n ==> starts@[k] == (#[trigger] byte_ranges@[k]).start.spec_resolved(
                    outer_len,
                ) && ends@[k] == byte_ranges@[k].end.spec_resolved(outer_len),
            forall|a: int, b: int|
                0 <= a < i && a < b < n ==> !IoVec::spec_pair_overlap(
                    byte_ranges@[a],
                    byte_ranges@[b],
                    outer_len,
                ),
        decreases n - i,
    {
        let mut j: usize = i + 1;
        while j < n
            invariant
                0 <= i < j <= n,
                n == byte_ranges@.len(),
                starts@.len() == n,
                ends@.len() == n,
                forall|k: int|
                    0 <= k < n ==> (#[trigger] byte_ranges@[k]).spec_resolvable(outer_len),
                forall|k: int|
                    0 <= k < n ==> starts@[k] == (#[trigger] byte_ranges@[k]).start.spec_resolved(
                        outer_len,
                    ) && ends@[k] == byte_ranges@[k].end.spec_resolved(outer_len),
                forall|b: int|
                    i < b < j ==> !IoVec::spec_pair_overlap(
                        byte_ranges@[i as int],
                        byte_ranges@[b],
                        outer_len,
                    ),
            decreases n - j,
        {
            if starts[i] < ends[j] && starts[j] < ends[i] {
                assert(IoVec::spec_pair_overlap(
                    byte_ranges@[i as int],
                    byte_ranges@[j as int],
                    outer_len,
                ));
                return Ok(true);
            }
            j += 1;
        }
        i += 1;
    }
    Ok(false)
}

} // verus!
