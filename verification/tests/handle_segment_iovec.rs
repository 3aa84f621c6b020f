use kivio_common::io_vec;
use kivio_common::vmem;

#[test]
fn test_handle_segment_iovec() {
    // This tests a cycle around the conversion graph for handles and segments

    let iov = io_vec::IoVec::from_chunk_size(4, 1);

    // HandleMut
    let hm = vmem::HandleMut::from_vmem(vmem::Vmem::new_vec_u8(4));

    // -> SegmentMut
    let sm = vmem::SegmentMut::from_handle_mut(hm);

    // -> Vec<SegmentMut>
    let mut vsm = sm.try_split(&iov).unwrap();

    // Write to the elements
    vsm[0].write_byte(0, b'a');
    vsm[1].write_byte(0, b'b');
    vsm[2].write_byte(0, b'c');
    vsm[3].write_byte(0, b'd');

    // -> SegmentMut
    let sm = vmem::SegmentMut::try_from_vec_segment_mut(vsm).unwrap();

    // -> HandleMut
    let hm = vmem::HandleMut::try_from_segment_mut(sm).unwrap();

    // -> Handle
    let h = vmem::Handle::from_handle_mut(hm);

    // -> Segment
    let s = vmem::Segment::from_handle(h);

    // -> Vec<Segment>
    let mut vs = s.try_split(&iov).unwrap();

    // -> Read from it
    assert_eq!(vs[0].read_byte(0), b'a');
    assert_eq!(vs[1].read_byte(0), b'b');
    assert_eq!(vs[2].read_byte(0), b'c');
    assert_eq!(vs[3].read_byte(0), b'd');

    // Get a single segment we can convert into a Handle
    let s = vs.pop().unwrap();

    // -> Handle
    let h = vmem::Handle::from_segment(s);

    // -> Segment (merged, overlapping with what's left in vs)
    let ms = vmem::Segment::from_handle(h.clone());

    // -> Read from merged segment
    assert_eq!(ms.read_byte(0), b'a');
    assert_eq!(ms.read_byte(1), b'b');
    assert_eq!(ms.read_byte(2), b'c');
    assert_eq!(ms.read_byte(3), b'd');

    // -> HandleMut (must not work due to outstanding references in vs and ms)
    let r = vmem::HandleMut::try_from_handle(h);
    assert!(r.is_err());

    // Get rid of outstanding references, then try again -> HandleMut
    drop(vs);
    drop(ms);
    let h = r.err().unwrap().1;
    let r = vmem::HandleMut::try_from_handle(h);
    assert!(r.is_ok());
    let hm = r.ok().unwrap();

    // -> SegmentMut
    let sm = vmem::SegmentMut::from_handle_mut(hm);

    // -> Read from it (before splitting)
    assert_eq!(sm.read_byte(0), b'a');
    assert_eq!(sm.read_byte(1), b'b');
    assert_eq!(sm.read_byte(2), b'c');
    assert_eq!(sm.read_byte(3), b'd');

    // -> Vec<SegmentMut>
    let vsm = sm.try_split(&iov).unwrap();

    // Verify contents after splitting
    assert_eq!(vsm[0].read_byte(0), b'a');
    assert_eq!(vsm[1].read_byte(0), b'b');
    assert_eq!(vsm[2].read_byte(0), b'c');
    assert_eq!(vsm[3].read_byte(0), b'd');
}
