use xr819_tx::completion_ring::CompletionRing;
use xr819_tx::phy::{
    classify_dot11_header, Dot11FixedHeaderLayout, Dot11HeaderShape, TxFrameAddress, DOT11_ADDRESS_1_OFFSET,
    DOT11_ADDRESS_2_OFFSET, DOT11_ADDRESS_3_OFFSET, DOT11_DURATION_OFFSET, DOT11_FRAME_CONTROL_OFFSET,
    DOT11_SEQUENCE_CONTROL_OFFSET,
};

#[test]
fn native_completion_ring_contains_only_the_decoded_fifo() {
    assert_eq!(core::mem::size_of::<CompletionRing>(), 0x108);
    let ring = CompletionRing::new();
    assert_eq!(ring.cursors(), (0, 0));
    assert_eq!(ring.frame_node(63), 0);
}

#[test]
fn dot11_header_view_and_classification_make_split_boundaries_explicit() {
    assert_eq!(core::mem::size_of::<Dot11FixedHeaderLayout>(), 24);
    assert_eq!(DOT11_FRAME_CONTROL_OFFSET, 0);
    assert_eq!(DOT11_DURATION_OFFSET, 2);
    assert_eq!(DOT11_ADDRESS_1_OFFSET, 4);
    assert_eq!(DOT11_ADDRESS_2_OFFSET, 10);
    assert_eq!(DOT11_ADDRESS_3_OFFSET, 16);
    assert_eq!(DOT11_SEQUENCE_CONTROL_OFFSET, 22);

    let frame = TxFrameAddress::new(0x0901_4fe8);
    assert_eq!(frame.frame_control(), 0x0901_4fe8);
    assert_eq!(frame.address_1(), 0x0901_4fec);
    assert_eq!(frame.address_2_byte_unchecked(5), 0x0901_4ff7);
    assert_eq!(frame.address_2_halfword_unchecked(2), 0x0901_4ff6);
    assert_eq!(frame.sequence_control(), 0x0901_4ffe);
    assert_eq!(frame.payload_after_fixed_header(), 0x0901_5000);

    assert_eq!(classify_dot11_header(0x0008, false), Dot11HeaderShape { length: 24, qos_data: false });
    assert_eq!(classify_dot11_header(0x0088, false), Dot11HeaderShape { length: 26, qos_data: true });
    assert_eq!(classify_dot11_header(0x8088, false), Dot11HeaderShape { length: 30, qos_data: true });
    assert_eq!(classify_dot11_header(0x0308, false), Dot11HeaderShape { length: 30, qos_data: false });
    assert_eq!(classify_dot11_header(0x0388, false), Dot11HeaderShape { length: 32, qos_data: true });
    assert_eq!(classify_dot11_header(0x8388, false), Dot11HeaderShape { length: 36, qos_data: true });
    assert_eq!(classify_dot11_header(0x0088, true), Dot11HeaderShape { length: 24, qos_data: false });
}
