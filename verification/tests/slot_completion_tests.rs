use xr819_tx::aggregate_answer::{
    BA_BITMAP_HIGH, BA_BITMAP_LOW, BA_PIPE_STATE, BA_PIPE_STATE_SIZE, BA_RESPONSE_COUNTER, BA_SEQUENCE,
    BLOCK_ACK_SUBTYPE,
};
use xr819_tx::completion_enqueue::COMPLETION_PENDING_EVENT;
use xr819_tx::completion_ring::CompletionRing;
use xr819_tx::context::FrameNodeAddress;
use xr819_tx::mmio::MacPipeMmio;
use xr819_tx::registers::{
    LOW_MAC_ACTIVE_TX_COUNT, MAC_CURRENT_PIPE_RECORD, PAS_CONTENTION_WINDOWS, SCHEDULER_PENDING_EVENTS,
};
use xr819_tx::slot_completion::{
    complete_tx_pipe_slot, PipeSlotCompletionEffects, SlotCompletionCall, SlotCompletionOutcome,
    MAC_SOFTWARE_RECORDS, MAC_TIMESTAMP, SLOT_CHAIN_LIMIT,
};

struct Memory {
    values: Vec<(u32, u32)>,
}

impl Memory {
    fn new() -> Self {
        Self { values: Vec::new() }
    }

    fn set(&mut self, address: u32, value: u32) {
        self.values.push((address, value));
    }

    fn get(&self, address: u32) -> u32 {
        self.values.iter().rev().find(|(stored, _)| *stored == address).map(|(_, v)| *v).unwrap_or(0)
    }
}

impl MacPipeMmio for Memory {
    fn read_u8(&mut self, address: u32) -> u8 {
        self.get(address) as u8
    }

    fn read_u16(&mut self, address: u32) -> u16 {
        self.get(address) as u16
    }

    fn read_u32(&mut self, address: u32) -> u32 {
        self.get(address)
    }

    fn write_u8(&mut self, address: u32, value: u8) {
        self.set(address, u32::from(value));
    }

    fn write_u16(&mut self, address: u32, value: u16) {
        self.set(address, u32::from(value));
    }

    fn write_u32(&mut self, address: u32, value: u32) {
        self.set(address, value);
    }
}

struct Effects {
    calls: Vec<SlotCompletionCall>,
    block_ack: Option<u32>,
    pipe: u8,
}

impl Effects {
    fn new(block_ack: Option<u32>, pipe: u8) -> Self {
        Self { calls: Vec::new(), block_ack, pipe }
    }
}

impl PipeSlotCompletionEffects for Effects {
    fn link_set_state(&mut self, link: u8, state: u8) {
        self.calls.push(SlotCompletionCall::LinkSetState { link, state });
    }

    fn rate_recovery_on_success(&mut self, frame_node: FrameNodeAddress, status: u16) {
        self.calls.push(SlotCompletionCall::RateRecovery { frame_node, status });
    }

    fn special_completion_gate(&mut self, frame_node: FrameNodeAddress) -> bool {
        self.calls.push(SlotCompletionCall::SpecialGate { frame_node, open: false });
        false
    }

    fn find_rx_frame_by_subtype(&mut self, subtype: u8) -> Option<u32> {
        self.calls.push(SlotCompletionCall::FindRxFrame { subtype, found: self.block_ack });
        self.block_ack
    }

    fn find_tx_pipe_by_mac_tid(&mut self, interface: u8, tid: u8, mac: Option<u32>) -> u8 {
        self.calls.push(SlotCompletionCall::FindTxPipe { interface, tid, mac, pipe: self.pipe });
        self.pipe
    }

    fn process_ba_bitmap(&mut self, pipe: u8) {
        self.calls.push(SlotCompletionCall::ProcessBaBitmap { pipe });
    }

    fn invalid_link_assertion(&mut self) {
        self.calls.push(SlotCompletionCall::InvalidLink);
    }
}

const SLOT: u32 = 0x0400_1720 + 0x0c;
const CONTEXT: u32 = 0x0400_9364;
const NODE: u32 = CONTEXT + 0x54;
const SECOND_CONTEXT: u32 = 0x0400_9500;
const SECOND_NODE: u32 = SECOND_CONTEXT + 0x54;
const DESCRIPTOR: u32 = 0x0400_7000;
const FRAME: u32 = 0x0400_a000;

fn slot_memory(kind: u32, link: u32) -> Memory {
    let mut memory = Memory::new();
    memory.set(MAC_TIMESTAMP, 0x1234_5678);
    memory.set(CONTEXT + 0xc0, link);
    memory.set(SLOT, kind);
    memory.set(SLOT + 0x0c, NODE);
    memory.set(SLOT + 0x10, DESCRIPTOR);
    memory.set(MAC_SOFTWARE_RECORDS, 0x0400_7100);
    memory.set(LOW_MAC_ACTIVE_TX_COUNT, 3);
    memory
}

fn block_ack_frame(memory: &mut Memory) {
    let own = PAS_CONTENTION_WINDOWS + 0x20;
    for (offset, halfword) in [(4_u32, 0x1100_u32), (6, 0x3322), (8, 0x5544)] {
        memory.set(FRAME + offset, halfword);
        memory.set(own + offset - 4, halfword);
    }
    memory.set(FRAME + 0x10, 0x5000);
    memory.set(FRAME + 0x12, 0x0120);
    memory.set(FRAME + 0x14, 0xdead_beef);
    memory.set(FRAME + 0x18, 0x0bad_f00d);
}

#[test]
fn single_frame_is_stamped_queued_and_counted_off() {
    let mut memory = slot_memory(0, 2);
    memory.set(CONTEXT + 0x58, 0x0030_0000);
    memory.set(CONTEXT + 0x53, 6);
    let mut ring = CompletionRing::new();
    let mut effects = Effects::new(None, 8);

    let outcome =
        complete_tx_pipe_slot(&mut memory, &mut ring, &mut effects, FrameNodeAddress::new(NODE), SLOT, 0);

    assert_eq!(outcome, SlotCompletionOutcome::Completed);
    assert_eq!(ring.cursors(), (0, 1));
    assert_eq!(ring.frame_node(0), NODE);
    assert_eq!(memory.get(CONTEXT + 0x70), 0);
    assert_eq!(memory.get(CONTEXT + 0x68), 0x1234_5678);
    assert_eq!(memory.get(CONTEXT + 0x98), 0x0c);
    assert_eq!(memory.get(CONTEXT + 0x80) & 0x0800, 0x0800);
    assert_eq!(memory.get(SLOT + 0x0c), 0);
    assert_eq!(memory.get(LOW_MAC_ACTIVE_TX_COUNT), 2);
    assert_eq!(memory.get(MAC_SOFTWARE_RECORDS), 0x0400_7100);
    assert_eq!(
        effects.calls,
        vec![SlotCompletionCall::RateRecovery { frame_node: FrameNodeAddress::new(NODE), status: 0 }]
    );
}

#[test]
fn single_frame_chain_queues_every_frame_in_order() {
    let mut memory = slot_memory(0, 2);
    memory.set(CONTEXT + 0x53, 6);
    memory.set(SECOND_CONTEXT + 0x53, 6);
    memory.set(CONTEXT + 0x94, SECOND_NODE);
    let mut ring = CompletionRing::new();
    let mut effects = Effects::new(None, 8);

    let outcome =
        complete_tx_pipe_slot(&mut memory, &mut ring, &mut effects, FrameNodeAddress::new(NODE), SLOT, 0x07);

    assert_eq!(outcome, SlotCompletionOutcome::Completed);
    assert_eq!(ring.cursors(), (0, 2));
    assert_eq!(ring.frame_node(0), NODE);
    assert_eq!(ring.frame_node(1), SECOND_NODE);
    assert_eq!(memory.get(SECOND_CONTEXT + 0x70), 0x07);
    assert_eq!(memory.get(LOW_MAC_ACTIVE_TX_COUNT), 2);
}

#[test]
fn slot_of_another_kind_is_only_counted_off() {
    let mut memory = slot_memory(3, 2);
    let mut ring = CompletionRing::new();
    let mut effects = Effects::new(None, 8);

    let outcome =
        complete_tx_pipe_slot(&mut memory, &mut ring, &mut effects, FrameNodeAddress::new(NODE), SLOT, 0);

    assert_eq!(outcome, SlotCompletionOutcome::Completed);
    assert_eq!(memory.get(LOW_MAC_ACTIVE_TX_COUNT), 2);
    assert_eq!(memory.get(SLOT + 0x0c), NODE);
    assert_eq!(memory.get(CONTEXT + 0x70), 0);
    assert_eq!(ring.cursors(), (0, 0));
    assert!(effects.calls.is_empty());
}

#[test]
fn active_count_wraps_when_counted_off_at_zero() {
    let mut memory = slot_memory(5, 2);
    memory.set(LOW_MAC_ACTIVE_TX_COUNT, 0);
    let mut ring = CompletionRing::new();
    let mut effects = Effects::new(None, 8);

    complete_tx_pipe_slot(&mut memory, &mut ring, &mut effects, FrameNodeAddress::new(NODE), SLOT, 0);

    assert_eq!(memory.get(LOW_MAC_ACTIVE_TX_COUNT), 0xff);
}

#[test]
fn failed_aggregate_fails_its_link_and_returns_its_descriptor() {
    let mut memory = slot_memory(1, 2);
    let mut ring = CompletionRing::new();
    let mut effects = Effects::new(None, 8);

    let outcome =
        complete_tx_pipe_slot(&mut memory, &mut ring, &mut effects, FrameNodeAddress::new(NODE), SLOT, 0x0b);

    assert_eq!(outcome, SlotCompletionOutcome::Completed);
    assert_eq!(
        effects.calls,
        vec![
            SlotCompletionCall::LinkSetState { link: 2, state: 10 },
            SlotCompletionCall::RateRecovery { frame_node: FrameNodeAddress::new(NODE), status: 0x0b },
            SlotCompletionCall::LinkSetState { link: 2, state: 0x0b },
        ]
    );
    assert_eq!(memory.get(MAC_SOFTWARE_RECORDS), DESCRIPTOR);
    assert_eq!(memory.get(DESCRIPTOR), 0x0400_7100);
    assert_eq!(memory.get(CONTEXT + 0x80), 0x0400);
    assert_eq!(memory.get(CONTEXT + 0x98), 1);
    assert_eq!(memory.get(SCHEDULER_PENDING_EVENTS), COMPLETION_PENDING_EVENT);
    assert_eq!(memory.get(LOW_MAC_ACTIVE_TX_COUNT), 2);
    assert_eq!(ring.cursors(), (0, 0));
}

#[test]
fn answered_aggregate_takes_the_block_ack_bitmap() {
    let mut memory = slot_memory(1, 3);
    block_ack_frame(&mut memory);
    let state = BA_PIPE_STATE + 3 * BA_PIPE_STATE_SIZE;
    memory.set(state, 5);
    memory.set(BA_RESPONSE_COUNTER, 7);
    let mut ring = CompletionRing::new();
    let mut effects = Effects::new(Some(FRAME), 3);

    let outcome =
        complete_tx_pipe_slot(&mut memory, &mut ring, &mut effects, FrameNodeAddress::new(NODE), SLOT, 0);

    assert_eq!(outcome, SlotCompletionOutcome::Completed);
    assert_eq!(
        effects.calls,
        vec![
            SlotCompletionCall::LinkSetState { link: 3, state: 10 },
            SlotCompletionCall::RateRecovery { frame_node: FrameNodeAddress::new(NODE), status: 0 },
            SlotCompletionCall::LinkSetState { link: 3, state: 10 },
            SlotCompletionCall::FindRxFrame { subtype: BLOCK_ACK_SUBTYPE, found: Some(FRAME) },
            SlotCompletionCall::FindTxPipe { interface: 0, tid: 5, mac: None, pipe: 3 },
            SlotCompletionCall::ProcessBaBitmap { pipe: 3 },
        ]
    );
    assert_eq!(memory.get(state + BA_BITMAP_LOW), 0xdead_beef);
    assert_eq!(memory.get(state + BA_BITMAP_HIGH), 0x0bad_f00d);
    assert_eq!(memory.get(state + BA_SEQUENCE), 0x012);
    assert_eq!(memory.get(BA_RESPONSE_COUNTER), 8);
    assert_eq!(memory.get(LOW_MAC_ACTIVE_TX_COUNT), 2);
    assert_eq!(memory.get(SCHEDULER_PENDING_EVENTS), COMPLETION_PENDING_EVENT);
}

#[test]
fn block_ack_for_another_pipe_fails_the_link() {
    let mut memory = slot_memory(1, 3);
    block_ack_frame(&mut memory);
    let mut ring = CompletionRing::new();
    let mut effects = Effects::new(Some(FRAME), 5);

    let outcome =
        complete_tx_pipe_slot(&mut memory, &mut ring, &mut effects, FrameNodeAddress::new(NODE), SLOT, 0);

    assert_eq!(outcome, SlotCompletionOutcome::Completed);
    assert_eq!(effects.calls.last(), Some(&SlotCompletionCall::LinkSetState { link: 3, state: 0x0b }));
    assert_eq!(memory.get(BA_RESPONSE_COUNTER), 1);
    assert_eq!(memory.get(LOW_MAC_ACTIVE_TX_COUNT), 2);
}

#[test]
fn block_ack_for_an_unknown_receiver_asks_for_no_pipe() {
    let mut memory = slot_memory(1, 3);
    memory.set(FRAME + 4, 0x7777);
    let mut ring = CompletionRing::new();
    let mut effects = Effects::new(Some(FRAME), 3);

    complete_tx_pipe_slot(&mut memory, &mut ring, &mut effects, FrameNodeAddress::new(NODE), SLOT, 0);

    assert!(!effects.calls.iter().any(|call| matches!(call, SlotCompletionCall::FindTxPipe { .. })));
    assert_eq!(effects.calls.last(), Some(&SlotCompletionCall::LinkSetState { link: 3, state: 0x0b }));
}

#[test]
fn answered_aggregate_on_a_link_out_of_range_is_reported() {
    let mut memory = slot_memory(1, 9);
    block_ack_frame(&mut memory);
    let mut ring = CompletionRing::new();
    let mut effects = Effects::new(Some(FRAME), 3);

    let outcome =
        complete_tx_pipe_slot(&mut memory, &mut ring, &mut effects, FrameNodeAddress::new(NODE), SLOT, 0);

    assert_eq!(outcome, SlotCompletionOutcome::InvalidLink);
    assert_eq!(effects.calls.last(), Some(&SlotCompletionCall::InvalidLink));
    assert_eq!(memory.get(LOW_MAC_ACTIVE_TX_COUNT), 3);
}

#[test]
fn unanswered_aggregate_on_the_last_slot_clears_the_bitmap() {
    let mut memory = slot_memory(1, 2);
    let record = 0x0400_1720;
    memory.set(MAC_CURRENT_PIPE_RECORD, record);
    memory.set(record + 1, 4);
    memory.set(record + 2, 4);
    let state = BA_PIPE_STATE + 2 * BA_PIPE_STATE_SIZE;
    memory.set(state + BA_BITMAP_LOW, 0xffff_ffff);
    memory.set(state + BA_BITMAP_HIGH, 0xffff_ffff);
    let mut ring = CompletionRing::new();
    let mut effects = Effects::new(None, 8);

    complete_tx_pipe_slot(&mut memory, &mut ring, &mut effects, FrameNodeAddress::new(NODE), SLOT, 0);

    assert_eq!(memory.get(state + BA_BITMAP_LOW), 0);
    assert_eq!(memory.get(state + BA_BITMAP_HIGH), 0);
    assert_eq!(effects.calls.last(), Some(&SlotCompletionCall::LinkSetState { link: 2, state: 0x0b }));
    assert_eq!(memory.get(LOW_MAC_ACTIVE_TX_COUNT), 2);
}

#[test]
fn unanswered_aggregate_with_slots_left_keeps_its_link() {
    let mut memory = slot_memory(1, 2);
    let record = 0x0400_1720;
    memory.set(MAC_CURRENT_PIPE_RECORD, record);
    memory.set(record + 1, 5);
    memory.set(record + 2, 4);
    let mut ring = CompletionRing::new();
    let mut effects = Effects::new(None, 8);

    complete_tx_pipe_slot(&mut memory, &mut ring, &mut effects, FrameNodeAddress::new(NODE), SLOT, 0);

    assert_eq!(
        effects.calls.last(),
        Some(&SlotCompletionCall::FindRxFrame { subtype: BLOCK_ACK_SUBTYPE, found: None })
    );
    assert_eq!(memory.get(LOW_MAC_ACTIVE_TX_COUNT), 2);
}

#[test]
fn chain_that_never_ends_stops_at_the_limit() {
    let mut memory = slot_memory(1, 2);
    memory.set(CONTEXT + 0x94, NODE);
    let mut ring = CompletionRing::new();
    let mut effects = Effects::new(None, 8);

    let outcome =
        complete_tx_pipe_slot(&mut memory, &mut ring, &mut effects, FrameNodeAddress::new(NODE), SLOT, 0);

    assert_eq!(outcome, SlotCompletionOutcome::ChainTooLong);
    assert_eq!(SLOT_CHAIN_LIMIT, 64);
    assert_eq!(memory.get(LOW_MAC_ACTIVE_TX_COUNT), 3);
}
