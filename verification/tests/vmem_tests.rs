use kivio_common::err::Error;
use kivio_common::io_vec::{ByteRange, IoVec};
use kivio_common::vmem::{AnonMmap, Handle, HandleMut, Segment, SegmentMut, Vmem};

#[test]
fn split_and_merge_round_trip_keeps_extent() {
    let chunks = [1usize, 2, 3, 7, 8];
    for &c in chunks.iter() {
        let hm = HandleMut::from_vmem(Vmem::new_vec_u8(7));
        let sm = SegmentMut::from_handle_mut(hm);
        assert_eq!(sm.offset(), 0);
        assert_eq!(sm.len(), 7);
        let iov = IoVec::from_chunk_size(7, c);
        let parts = sm.try_split(&iov).unwrap();
        assert_eq!(parts.len(), iov.ranges().len());
        let merged = SegmentMut::try_from_vec_segment_mut(parts).unwrap();
        assert_eq!(merged.offset(), 0);
        assert_eq!(merged.len(), 7);
    }
}

#[test]
fn merge_of_a_strict_subset_fails() {
    let hm = HandleMut::from_vmem(Vmem::new_vec_u8(4));
    let sm = SegmentMut::from_handle_mut(hm);
    let iov = IoVec::from_chunk_size(4, 1);
    let mut parts = sm.try_split(&iov).unwrap();
    let held_back = parts.pop().unwrap();

    // Three of four live segments: the count check must refuse.
    let r = SegmentMut::try_from_vec_segment_mut(parts);
    assert!(matches!(r, Err((Error::ConversionFailed { .. }, _))));

    // The full set merges.
    let (_e, mut parts) = r.err().unwrap();
    parts.push(held_back);
    let merged = SegmentMut::try_from_vec_segment_mut(parts).unwrap();
    assert_eq!(merged.len(), 4);
}

#[test]
fn merge_of_an_empty_vector_fails() {
    let r = SegmentMut::try_from_vec_segment_mut(Vec::new());
    assert!(matches!(r, Err((Error::ConversionFailed { .. }, _))));
}

#[test]
fn merge_of_segments_over_different_regions_fails() {
    let a = SegmentMut::from_handle_mut(HandleMut::from_vmem(Vmem::new_vec_u8(2)));
    let b = SegmentMut::from_handle_mut(HandleMut::from_vmem(Vmem::new_vec_u8(2)));
    let r = SegmentMut::try_from_vec_segment_mut(vec![a, b]);
    assert!(matches!(r, Err((Error::ConversionFailed { .. }, _))));
}

#[test]
fn overlapping_view_set_refuses_a_mutable_split() {
    let hm = HandleMut::from_vmem(Vmem::new_vec_u8(4));
    let sm = SegmentMut::from_handle_mut(hm);
    let iov = IoVec::from_vec_byte_range(vec![
        ByteRange::new_usize(0, 2).unwrap(),
        ByteRange::new_usize(1, 3).unwrap(),
    ]);
    let r = sm.try_split(&iov);
    match r {
        Err((Error::OverlappingIoVec { outer_len }, sm)) => {
            assert_eq!(outer_len, 4);
            assert_eq!(sm.len(), 4);
        },
        _ => panic!("expected an overlapping view-set error"),
    }
}

#[test]
fn mutable_split_resolves_absolute_beside_relative() {
    // [0,10) and [7,11) at length 12 share bytes: the split must refuse.
    let hm = HandleMut::from_vmem(Vmem::new_vec_u8(12));
    let sm = SegmentMut::from_handle_mut(hm);
    let iov = IoVec::from_vec_byte_range(vec![
        ByteRange::new_i64(0, 10).unwrap(),
        ByteRange::new_i64(-5, -1).unwrap(),
    ]);
    let r = sm.try_split(&iov);
    match r {
        Err((Error::OverlappingIoVec { outer_len }, sm)) => {
            assert_eq!(outer_len, 12);
            assert_eq!(sm.len(), 12);
        },
        _ => panic!("expected an overlapping view-set error"),
    }

    // Over a 15-byte region the same ranges resolve to [0,10) and
    // [10,14): disjoint, so the split succeeds.
    let hm = HandleMut::from_vmem(Vmem::new_vec_u8(15));
    let sm = SegmentMut::from_handle_mut(hm);
    let parts = sm.try_split(&iov).unwrap();
    assert_eq!(parts.len(), 2);
    assert_eq!(parts[0].offset(), 0);
    assert_eq!(parts[0].len(), 10);
    assert_eq!(parts[1].offset(), 10);
    assert_eq!(parts[1].len(), 4);
}

#[test]
fn mutable_split_resolves_mixed_against_relative() {
    // [5,6) and [3,4) at length 7 are disjoint: the split must succeed
    // even though the length-independent order could not decide it.
    let hm = HandleMut::from_vmem(Vmem::new_vec_u8(7));
    let sm = SegmentMut::from_handle_mut(hm);
    let iov = IoVec::from_vec_byte_range(vec![
        ByteRange::new_i64(5, -1).unwrap(),
        ByteRange::new_i64(-4, -3).unwrap(),
    ]);
    let parts = sm.try_split(&iov).unwrap();
    assert_eq!(parts.len(), 2);
    assert_eq!(parts[0].offset(), 5);
    assert_eq!(parts[0].len(), 1);
    assert_eq!(parts[1].offset(), 3);
    assert_eq!(parts[1].len(), 1);
}

#[test]
fn read_only_split_allows_overlap() {
    let h = Handle::from_handle_mut(HandleMut::from_vmem(Vmem::from_vec_u8(vec![
        10, 11, 12, 13,
    ])));
    let s = Segment::from_handle(h);
    let iov = IoVec::from_vec_byte_range(vec![
        ByteRange::new_usize(0, 3).unwrap(),
        ByteRange::new_usize(1, 4).unwrap(),
    ]);
    let parts = s.try_split(&iov).unwrap();
    assert_eq!(parts.len(), 2);
    assert_eq!(parts[0].offset(), 0);
    assert_eq!(parts[0].len(), 3);
    assert_eq!(parts[1].offset(), 1);
    assert_eq!(parts[1].len(), 3);
    assert_eq!(parts[0].read_byte(1), 11);
    assert_eq!(parts[1].read_byte(0), 11);
    assert_eq!(parts[1].read_byte(2), 13);
}

#[test]
fn split_reports_a_range_that_fails_to_resolve() {
    let hm = HandleMut::from_vmem(Vmem::new_vec_u8(2));
    let sm = SegmentMut::from_handle_mut(hm);
    // [0,-2] resolves to the empty span at length 2.
    let iov = IoVec::from_vec_byte_range(vec![ByteRange::new_i64(0, -2).unwrap()]);
    let r = sm.try_split(&iov);
    match r {
        Err((Error::InvalidByteRange { start, end, outer_len }, sm)) => {
            assert_eq!((start, end, outer_len), (0, -2, 2));
            assert_eq!(sm.len(), 2);
        },
        _ => panic!("expected an invalid range error"),
    }
}

#[test]
fn shared_to_exclusive_needs_the_last_reference() {
    let hm = HandleMut::from_vmem(Vmem::new_vec_u8(3));
    let h = Handle::from_handle_mut(hm);

    // A derived read-only segment keeps the region alive.
    let s = Segment::from_handle(h.clone());
    let r = HandleMut::try_from_handle(h);
    let h = match r {
        Err((Error::ConversionFailed { .. }, h)) => h,
        _ => panic!("expected the conversion to fail while the segment lives"),
    };

    // After the segment drops, the same conversion succeeds.
    drop(s);
    assert!(HandleMut::try_from_handle(h).is_ok());
}

#[test]
fn duplicated_shared_handles_block_exclusivity() {
    let h = Handle::from_handle_mut(HandleMut::from_vmem(Vmem::new_vec_u8(1)));
    let h2 = h.clone();
    let r = HandleMut::try_from_handle(h);
    assert!(r.is_err());
    drop(h2);
    let h = r.err().unwrap().1;
    assert!(HandleMut::try_from_handle(h).is_ok());
}

#[test]
fn writes_land_on_the_region_after_write_back() {
    let hm = HandleMut::from_vmem(Vmem::new_vec_u8(5));
    let mut sm = SegmentMut::from_handle_mut(hm);
    sm.write_byte(0, 200);
    sm.write_byte(4, 201);
    assert_eq!(sm.read_byte(0), 200);
    assert_eq!(sm.read_byte(1), 0);
    let hm = HandleMut::try_from_segment_mut(sm).unwrap();
    let s = Segment::from_handle(Handle::from_handle_mut(hm));
    assert_eq!(s.read_byte(0), 200);
    assert_eq!(s.read_byte(1), 0);
    assert_eq!(s.read_byte(4), 201);
}

#[test]
fn mapped_regions_carry_address_and_length() {
    let hm = HandleMut::from_vmem(Vmem::from_anon_mmap(AnonMmap { addr: 4096, len: 16 }));
    let sm = SegmentMut::from_handle_mut(hm);
    assert_eq!(sm.len(), 16);
    let iov = IoVec::from_chunk_size(16, 8);
    let parts = sm.try_split(&iov).unwrap();
    assert_eq!(parts.len(), 2);
    assert_eq!(parts[0].offset(), 0);
    assert_eq!(parts[1].offset(), 8);
    let merged = SegmentMut::try_from_vec_segment_mut(parts).unwrap();
    assert_eq!(merged.len(), 16);
    assert!(HandleMut::try_from_segment_mut(merged).is_ok());
}
