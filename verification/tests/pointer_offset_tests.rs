use zero_copy_transport::pointer_offset::{PointerOffset, SegmentId};

#[test]
fn packing_an_offset_and_a_segment_id_gives_both_back() {
    let ptr = PointerOffset::from_offset_and_segment_id(4096, SegmentId::new(7));
    assert_eq!(ptr.offset(), 4096);
    assert_eq!(ptr.segment_id().value(), 7);
    assert_eq!(ptr.as_value(), (4096u64 << 8) | 7);
}
