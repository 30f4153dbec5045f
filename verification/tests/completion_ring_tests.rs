use xr819_tx::completion_ring::{CompletionDrainCursor, CompletionRing};
use xr819_tx::context::FrameNodeAddress;

fn node(raw: u32) -> FrameNodeAddress {
    FrameNodeAddress::new(raw)
}

#[test]
fn completion_ring_pops_in_enqueue_order_and_clears_slots() {
    let mut ring = CompletionRing::new();
    assert_eq!(ring.cursors(), (0, 0));
    ring.enqueue(node(0x0400_90d8));
    ring.enqueue(node(0x0400_9248));
    assert_eq!(ring.cursors(), (0, 2));
    assert_eq!(ring.frame_node(1), 0x0400_9248);

    let (first, next) = ring.pop(0);
    assert_eq!(first, node(0x0400_90d8));
    assert_eq!(next, 1);
    assert_eq!(ring.frame_node(0), 0);
    let (second, next) = ring.pop(next);
    assert_eq!(second, node(0x0400_9248));
    assert_eq!(ring.cursors(), (2, 2));
    assert_eq!(next, 2);
}

#[test]
fn completion_ring_indices_wrap_after_sixty_three() {
    let mut ring = CompletionRing::new();
    for index in 0..64 {
        ring.enqueue(node(0x1000 + index));
        let _ = ring.pop(index);
    }
    assert_eq!(ring.cursors(), (0, 0));
    ring.enqueue(node(0x2000));
    assert_eq!(ring.frame_node(0), 0x2000);
}

#[test]
fn completion_drain_takes_only_the_snapshotted_prefix() {
    let mut ring = CompletionRing::new();
    ring.enqueue(node(0x10));
    ring.enqueue(node(0x20));
    let mut cursor = CompletionDrainCursor::begin(&ring);
    assert!(!cursor.is_empty());
    ring.enqueue(node(0x30));

    assert_eq!(cursor.pop(&mut ring), Some(node(0x10)));
    assert_eq!(cursor.pop(&mut ring), Some(node(0x20)));
    assert!(cursor.is_empty());
    assert_eq!(cursor.pop(&mut ring), None);
    assert_eq!(ring.cursors(), (2, 3));

    let mut later = CompletionDrainCursor::begin(&ring);
    assert_eq!(later.pop(&mut ring), Some(node(0x30)));
    assert!(later.is_empty());
}
