use kivio_common::err::Error;
use kivio_common::io_vec::{BytePos, ByteRange, IoVec};

#[test]
fn absolute_positions_resolve_to_themselves() {
    assert_eq!(BytePos(0).to_absolute(3).unwrap(), BytePos(0));
    assert_eq!(BytePos(1).to_absolute(3).unwrap(), BytePos(1));
    assert_eq!(BytePos(3).to_absolute(3).unwrap(), BytePos(3));
}

#[test]
fn relative_positions_resolve_from_the_end() {
    assert_eq!(BytePos(-1).to_absolute(4).unwrap(), BytePos(3));
    assert_eq!(BytePos(-4).to_absolute(4).unwrap(), BytePos(0));
    assert_eq!(BytePos(-2).to_absolute(7).unwrap(), BytePos(5));
}

#[test]
fn out_of_range_positions_are_rejected() {
    assert!(matches!(
        BytePos(5).to_absolute(3),
        Err(Error::InvalidBytePos { pos: 5, outer_len: 3 })
    ));
    assert!(matches!(
        BytePos(-5).to_absolute(3),
        Err(Error::InvalidBytePos { pos: -5, outer_len: 3 })
    ));
}

#[test]
fn extreme_relative_magnitudes_are_rejected_not_fatal() {
    // The most negative position carries a magnitude of 2^63, beyond any
    // region this library is handed.
    assert!(matches!(
        BytePos(i64::MIN).to_absolute(3),
        Err(Error::InvalidBytePos { pos: i64::MIN, outer_len: 3 })
    ));
    let rg = ByteRange::new_i64(i64::MIN, -1).unwrap();
    assert_eq!(rg.min_outer_len(), 9223372036854775808u64);
}

#[test]
fn same_sign_ranges_must_be_ordered() {
    assert!(matches!(
        ByteRange::new_i64(2, 1),
        Err(Error::InvalidByteRangeOrdering { start: 2, end: 1 })
    ));
    assert!(ByteRange::new_i64(1, 2).is_ok());
    assert!(ByteRange::new_i64(1, 1).is_ok());
    // Relative bounds order by distance from the end: -1 lies after -2.
    assert!(matches!(
        ByteRange::new_i64(-1, -2),
        Err(Error::InvalidByteRangeOrdering { start: -1, end: -2 })
    ));
    assert!(ByteRange::new_i64(-2, -1).is_ok());
    // Mixed-sign bounds cannot be ordered without a length.
    assert!(ByteRange::new_i64(5, -1).is_ok());
    assert!(ByteRange::new_i64(-1, 5).is_ok());
}

#[test]
fn range_resolution_and_lengths() {
    let rg = ByteRange::new_i64(1, -1).unwrap();
    assert_eq!(rg.to_offset_len(4).unwrap(), (1, 2));
    assert_eq!(rg.len(4).unwrap(), 2);
    assert_eq!(rg.min_outer_len(), 2);
    let abs = rg.to_absolute(4).unwrap();
    assert_eq!(abs, ByteRange::new_i64(1, 3).unwrap());
    assert!(abs.is_absolute());
    // An empty resolved span is invalid.
    assert!(matches!(
        rg.to_offset_len(2),
        Err(Error::InvalidByteRange { start: 1, end: -1, outer_len: 2 })
    ));
}

#[test]
fn equal_chunks_partition_the_region() {
    let iov = IoVec::from_chunk_size(10, 3);
    let ranges = iov.ranges();
    assert_eq!(ranges.len(), 4);
    assert_eq!(ranges[0], ByteRange::new_usize(0, 3).unwrap());
    assert_eq!(ranges[1], ByteRange::new_usize(3, 6).unwrap());
    assert_eq!(ranges[2], ByteRange::new_usize(6, 9).unwrap());
    assert_eq!(ranges[3], ByteRange::new_usize(9, 10).unwrap());
    assert_eq!(iov.min_outer_len(), 10);
    assert_eq!(iov.is_overlapping(10).unwrap(), false);
}

#[test]
fn equal_chunks_exact_division() {
    let iov = IoVec::from_chunk_size(4, 1);
    assert_eq!(iov.ranges().len(), 4);
    assert_eq!(iov.ranges()[3], ByteRange::new_usize(3, 4).unwrap());

    let iov = IoVec::from_chunk_size(4, 4);
    assert_eq!(iov.ranges().len(), 1);
    assert_eq!(iov.ranges()[0], ByteRange::new_usize(0, 4).unwrap());

    let iov = IoVec::from_chunk_size(5, 10);
    assert_eq!(iov.ranges().len(), 1);
    assert_eq!(iov.ranges()[0], ByteRange::new_usize(0, 5).unwrap());
}

#[test]
fn overlapping_and_adjacent_ranges() {
    // [0,2) and [1,3) overlap at any length that fits them.
    let iov = IoVec::from_vec_byte_range(vec![
        ByteRange::new_usize(0, 2).unwrap(),
        ByteRange::new_usize(1, 3).unwrap(),
    ]);
    assert_eq!(iov.is_overlapping(3).unwrap(), true);
    assert_eq!(iov.is_overlapping(10).unwrap(), true);

    // [0,1) and [1,2) are adjacent, not overlapping.
    let iov = IoVec::from_vec_byte_range(vec![
        ByteRange::new_usize(0, 1).unwrap(),
        ByteRange::new_usize(1, 2).unwrap(),
    ]);
    assert_eq!(iov.is_overlapping(2).unwrap(), false);
}

#[test]
fn too_short_length_is_rejected() {
    let iov = IoVec::from_vec_byte_range(vec![
        ByteRange::new_usize(0, 2).unwrap(),
        ByteRange::new_usize(2, 4).unwrap(),
    ]);
    assert_eq!(iov.min_outer_len(), 4);
    assert!(matches!(
        iov.is_overlapping(3),
        Err(Error::InvalidIoVec { start: 2, end: 4, outer_len: 3 })
    ));
}

#[test]
fn mixed_sign_ranges_resolve_with_a_length() {
    // An absolute-start/relative-end range beside a fully relative one.
    let r1 = ByteRange::new_i64(0, -2).unwrap();
    let r2 = ByteRange::new_i64(-1, -1).unwrap();
    let iov = IoVec::from_vec_byte_range(vec![r1, r2]);
    // At length 4 the first range resolves to [0,2), before the span the
    // second names near the end: the analysis already concluded they are
    // disjoint.
    assert_eq!(r1.to_offset_len(4).unwrap(), (0, 2));
    assert_eq!(iov.is_overlapping(4).unwrap(), false);
    // At length 2 the first range resolves to the empty span [0,0).
    assert!(matches!(
        r1.to_absolute(2),
        Err(Error::InvalidByteRange { start: 0, end: -2, outer_len: 2 })
    ));
}

#[test]
fn undecidable_without_a_length() {
    // A mixed range followed by an absolute one: the static analysis cannot
    // decide, a length can.
    let iov = IoVec::from_vec_byte_range(vec![
        ByteRange::new_i64(0, -2).unwrap(),
        ByteRange::new_i64(6, 8).unwrap(),
    ]);
    // At length 10 the mixed range is [0,8), overlapping [6,8).
    assert_eq!(iov.is_overlapping(10).unwrap(), true);
    // At length 8 it is [0,6), adjacent to [6,8).
    assert_eq!(iov.is_overlapping(8).unwrap(), false);
}

#[test]
fn mixed_range_against_its_absolute_predecessor() {
    // The mixed range starts inside the absolute range before it.
    let iov = IoVec::from_vec_byte_range(vec![
        ByteRange::new_i64(0, 5).unwrap(),
        ByteRange::new_i64(3, -1).unwrap(),
    ]);
    assert_eq!(iov.is_overlapping(5).unwrap(), true);
    assert_eq!(iov.is_overlapping(100).unwrap(), true);
}

#[test]
fn mixed_range_against_its_relative_successor() {
    // The mixed range ends past the start of the fully relative range
    // after it, at every length.
    let iov = IoVec::from_vec_byte_range(vec![
        ByteRange::new_i64(0, -1).unwrap(),
        ByteRange::new_i64(-2, -1).unwrap(),
    ]);
    assert_eq!(iov.is_overlapping(4).unwrap(), true);
}

#[test]
fn fully_relative_runs_are_decided_by_adjacency() {
    let iov = IoVec::from_vec_byte_range(vec![
        ByteRange::new_i64(-4, -2).unwrap(),
        ByteRange::new_i64(-2, -1).unwrap(),
    ]);
    assert_eq!(iov.is_overlapping(4).unwrap(), false);
    let iov = IoVec::from_vec_byte_range(vec![
        ByteRange::new_i64(-4, -1).unwrap(),
        ByteRange::new_i64(-2, -1).unwrap(),
    ]);
    assert_eq!(iov.is_overlapping(4).unwrap(), true);
}

#[test]
fn relative_start_with_absolute_end_needs_a_length() {
    // A range of the shape (relative start, absolute end) leaves the
    // analysis undecided.
    let iov = IoVec::from_vec_byte_range(vec![
        ByteRange::new_usize(0, 1).unwrap(),
        ByteRange::new_i64(-3, 2).unwrap(),
    ]);
    assert_eq!(iov.is_overlapping(4).unwrap(), false);
    assert_eq!(iov.is_overlapping(3).unwrap(), true);
}

#[test]
fn absolute_beside_relative_is_resolved_not_concluded() {
    // An absolute range and a fully relative one can never be compared
    // without a length; the verdict must come from resolution.
    let iov = IoVec::from_vec_byte_range(vec![
        ByteRange::new_i64(0, 10).unwrap(),
        ByteRange::new_i64(-5, -1).unwrap(),
    ]);
    // At length 12 they resolve to [0,10) and [7,11): overlapping.
    assert_eq!(iov.is_overlapping(12).unwrap(), true);
    // At length 15 they resolve to [0,10) and [10,14): disjoint.
    assert_eq!(iov.is_overlapping(15).unwrap(), false);
}

#[test]
fn mixed_against_relative_overlap_is_length_dependent() {
    // The mixed range's end passes the relative range's start in the
    // length-independent order, but whether the spans meet depends on the
    // length: short lengths pull the relative span before the mixed one.
    let iov = IoVec::from_vec_byte_range(vec![
        ByteRange::new_i64(5, -1).unwrap(),
        ByteRange::new_i64(-4, -3).unwrap(),
    ]);
    // At length 7: [5,6) and [3,4), disjoint.
    assert_eq!(iov.is_overlapping(7).unwrap(), false);
    // At length 10: [5,9) and [6,7), overlapping.
    assert_eq!(iov.is_overlapping(10).unwrap(), true);
}

#[test]
fn unsorted_ranges_are_sorted_for_analysis() {
    let iov = IoVec::from_vec_byte_range(vec![
        ByteRange::new_usize(2, 4).unwrap(),
        ByteRange::new_usize(0, 2).unwrap(),
    ]);
    assert_eq!(iov.is_overlapping(4).unwrap(), false);
    let iov = IoVec::from_vec_byte_range(vec![
        ByteRange::new_usize(2, 5).unwrap(),
        ByteRange::new_usize(0, 3).unwrap(),
    ]);
    assert_eq!(iov.is_overlapping(5).unwrap(), true);
}

#[test]
fn single_range_never_overlaps() {
    let iov = IoVec::from_vec_byte_range(vec![ByteRange::new_usize(0, 2).unwrap()]);
    assert_eq!(iov.is_overlapping(2).unwrap(), false);
    let iov = IoVec::from_vec_byte_range(Vec::new());
    assert_eq!(iov.is_overlapping(1).unwrap(), false);
}
