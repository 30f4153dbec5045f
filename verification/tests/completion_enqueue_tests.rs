use xr819_tx::completion_enqueue::{
    enqueue_completion_frame_node, enqueue_probe_terminal_completion, COMPLETION_DRAIN_EVENT,
    COMPLETION_PENDING_EVENT,
};
use xr819_tx::completion_ring::CompletionRing;
use xr819_tx::context::FrameNodeAddress;
use xr819_tx::mac_event::MacEvent;
use xr819_tx::mmio::MacPipeMmio;
use xr819_tx::registers::SCHEDULER_PENDING_EVENTS;
use xr819_tx::tracker::{ProbeTxOwnership, ProbeTxTracker};

struct Memory {
    values: Vec<(u32, u32)>,
    reads: Vec<u32>,
    writes: Vec<(u32, u32)>,
}

impl Memory {
    fn new() -> Self {
        Self { values: Vec::new(), reads: Vec::new(), writes: Vec::new() }
    }

    fn set(&mut self, address: u32, value: u32) {
        self.values.push((address, value));
    }

    fn get(&mut self, address: u32) -> u32 {
        self.reads.push(address);
        self.values.iter().rev().find(|(stored, _)| *stored == address).map(|(_, v)| *v).unwrap_or(0)
    }

    fn store(&mut self, address: u32, value: u32) {
        self.writes.push((address, value));
        self.set(address, value);
    }
}

impl MacPipeMmio for Memory {
    fn read_u8(&mut self, address: u32) -> u8 {
        self.get(address) as u8
    }

    fn read_u16(&mut self, address: u32) -> u16 {
        self.get(address) as u16
    }

    fn read_u32(&mut self, address: u32) -> u32 {
        self.get(address)
    }

    fn write_u8(&mut self, address: u32, value: u8) {
        self.store(address, u32::from(value));
    }

    fn write_u16(&mut self, address: u32, value: u16) {
        self.store(address, u32::from(value));
    }

    fn write_u32(&mut self, address: u32, value: u32) {
        self.store(address, value);
    }
}

const CONTEXT: u32 = 0x0400_9364;
const NODE: u32 = CONTEXT + 0x54;

fn never_consulted() -> bool {
    panic!("the special gate is consulted only for class-0 data frames")
}

#[test]
fn enqueue_marks_the_context_and_raises_pending_and_drain_events() {
    let mut memory = Memory::new();
    memory.set(CONTEXT + 0x80, 0x0000_0800);
    memory.set(CONTEXT + 0x53, 6);
    memory.set(SCHEDULER_PENDING_EVENTS, 1);
    let mut ring = CompletionRing::new();

    enqueue_completion_frame_node(&mut memory, &mut ring, FrameNodeAddress::new(NODE), never_consulted);

    assert_eq!(ring.cursors(), (0, 1));
    assert_eq!(ring.frame_node(0), NODE);
    assert_eq!(memory.get(CONTEXT + 0x80), 0x0000_4800);
    assert_eq!(
        memory.get(SCHEDULER_PENDING_EVENTS),
        1 | COMPLETION_PENDING_EVENT | COMPLETION_DRAIN_EVENT
    );
    assert_eq!(COMPLETION_PENDING_EVENT, 1 << 21);
    assert_eq!(COMPLETION_DRAIN_EVENT, 1 << 20);
}

#[test]
fn deferred_terminal_status_is_flagged_instead_of_raised() {
    let mut memory = Memory::new();
    memory.set(CONTEXT + 0x70, 0x16);
    memory.set(CONTEXT + 0x98, 0x0101);
    memory.set(CONTEXT + 0x53, 6);
    let mut ring = CompletionRing::new();

    enqueue_completion_frame_node(&mut memory, &mut ring, FrameNodeAddress::new(NODE), never_consulted);

    assert_eq!(memory.get(CONTEXT + 0x98), 0x0103);
    assert_eq!(memory.get(SCHEDULER_PENDING_EVENTS), COMPLETION_DRAIN_EVENT);
}

#[test]
fn special_gate_holds_back_the_drain_of_a_class_zero_data_frame() {
    let mut memory = Memory::new();
    memory.set(CONTEXT + 0x5e, 0x0008);
    let mut ring = CompletionRing::new();

    enqueue_completion_frame_node(&mut memory, &mut ring, FrameNodeAddress::new(NODE), || true);
    assert_eq!(memory.get(SCHEDULER_PENDING_EVENTS), COMPLETION_PENDING_EVENT);

    let mut memory = Memory::new();
    memory.set(CONTEXT + 0x5e, 0x0008);
    enqueue_completion_frame_node(&mut memory, &mut ring, FrameNodeAddress::new(NODE), || false);
    assert_eq!(
        memory.get(SCHEDULER_PENDING_EVENTS),
        COMPLETION_PENDING_EVENT | COMPLETION_DRAIN_EVENT
    );
    assert_eq!(ring.cursors(), (0, 2));
}

fn terminal_tracker() -> ProbeTxTracker {
    let mut tracker = ProbeTxTracker::new();
    tracker.prepare(CONTEXT).unwrap_or_else(|error| panic!("{error:?}"));
    tracker.publish(0, 2).unwrap_or_else(|error| panic!("{error:?}"));
    let start = MacEvent::decode((1 << 25) | (2 << 16) | (0x37 << 8))
        .unwrap_or_else(|| panic!("valid start event decoded as empty"));
    assert_eq!(tracker.handle_pipe_event(start, true), Ok(true));
    let status = MacEvent::decode((1 << 24) | 0x0b)
        .unwrap_or_else(|| panic!("valid status event decoded as empty"));
    assert_eq!(tracker.handle_pipe_event(status, false), Ok(true));
    assert!(tracker.resolve_terminal_status(0x0b));
    tracker
}

#[test]
fn probe_terminal_completion_is_queued_once() {
    let mut memory = Memory::new();
    let mut ring = CompletionRing::new();
    let mut tracker = terminal_tracker();

    assert!(enqueue_probe_terminal_completion(
        &mut memory,
        &mut ring,
        &mut tracker,
        FrameNodeAddress::new(NODE),
        never_consulted,
    ));
    assert_eq!(
        tracker.ownership(),
        ProbeTxOwnership::CompletionQueued { context: CONTEXT, pipe: 0, slot: 2, status: 0x0b }
    );
    assert_eq!(ring.cursors(), (0, 1));

    let accesses = memory.reads.len() + memory.writes.len();
    assert!(!enqueue_probe_terminal_completion(
        &mut memory,
        &mut ring,
        &mut tracker,
        FrameNodeAddress::new(NODE),
        never_consulted,
    ));
    assert_eq!(ring.cursors(), (0, 1));
    assert_eq!(memory.reads.len() + memory.writes.len(), accesses);
}

#[test]
fn probe_terminal_completion_refuses_another_frame() {
    let mut memory = Memory::new();
    let mut ring = CompletionRing::new();
    let mut tracker = terminal_tracker();

    assert!(!enqueue_probe_terminal_completion(
        &mut memory,
        &mut ring,
        &mut tracker,
        FrameNodeAddress::new(0x0400_90d8),
        never_consulted,
    ));
    assert_eq!(ring.cursors(), (0, 0));
    assert!(memory.writes.is_empty());
    assert!(matches!(tracker.ownership(), ProbeTxOwnership::TerminalObserved { .. }));
}
