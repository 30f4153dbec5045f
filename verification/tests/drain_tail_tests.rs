use xr819_tx::drain_tail::{mac_hardware_idle, mac_pipe_records_idle, service_mac_event_drain_tail};
use xr819_tx::mmio::MacPipeMmio;
use xr819_tx::registers::{
    pipe_state_address, MAC_PENDING_STATUSES, MAC_QUEUED_FRAMES, MAC_RETRY_HARDWARE_STATE,
    MAC_SEQUENCER_STATE, SCHEDULER_PENDING_EVENTS,
};

struct Memory {
    values: Vec<(u32, u32)>,
    reads: Vec<u32>,
    writes: Vec<(u32, u32)>,
}

impl Memory {
    fn new() -> Self {
        Self { values: Vec::new(), reads: Vec::new(), writes: Vec::new() }
    }

    fn set(&mut self, address: u32, value: u32) {
        self.values.push((address, value));
    }

    fn get(&mut self, address: u32) -> u32 {
        self.reads.push(address);
        self.values.iter().rev().find(|(stored, _)| *stored == address).map(|(_, v)| *v).unwrap_or(0)
    }

    fn store(&mut self, address: u32, value: u32) {
        self.writes.push((address, value));
        self.set(address, value);
    }
}

impl MacPipeMmio for Memory {
    fn read_u8(&mut self, address: u32) -> u8 {
        self.get(address) as u8
    }

    fn read_u16(&mut self, address: u32) -> u16 {
        self.get(address) as u16
    }

    fn read_u32(&mut self, address: u32) -> u32 {
        self.get(address)
    }

    fn write_u8(&mut self, address: u32, value: u8) {
        self.store(address, u32::from(value));
    }

    fn write_u16(&mut self, address: u32, value: u16) {
        self.store(address, u32::from(value));
    }

    fn write_u32(&mut self, address: u32, value: u32) {
        self.store(address, value);
    }
}

#[test]
fn hardware_idle_reads_all_three_registers_when_quiet() {
    let mut memory = Memory::new();
    memory.set(MAC_SEQUENCER_STATE, 0x1100);
    memory.set(MAC_QUEUED_FRAMES, 0x000f);
    memory.set(MAC_PENDING_STATUSES, 0x2000_0000);

    assert!(mac_hardware_idle(&mut memory));
    assert_eq!(memory.reads, vec![MAC_SEQUENCER_STATE, MAC_QUEUED_FRAMES, MAC_PENDING_STATUSES]);
}

#[test]
fn hardware_idle_stops_at_a_frame_on_air() {
    let mut memory = Memory::new();
    memory.set(MAC_SEQUENCER_STATE, 0x1200);

    assert!(!mac_hardware_idle(&mut memory));
    assert_eq!(memory.reads, vec![MAC_SEQUENCER_STATE]);
}

#[test]
fn hardware_idle_sees_queued_frames_and_pending_statuses() {
    let mut memory = Memory::new();
    memory.set(MAC_QUEUED_FRAMES, 0x10);
    assert!(!mac_hardware_idle(&mut memory));
    assert_eq!(memory.reads.len(), 2);

    let mut memory = Memory::new();
    memory.set(MAC_PENDING_STATUSES, 0x0100_0000);
    assert!(!mac_hardware_idle(&mut memory));
}

#[test]
fn pipe_records_idle_stops_at_the_first_busy_pipe() {
    let mut memory = Memory::new();
    memory.set(pipe_state_address(2) + 3, 1);

    assert!(!mac_pipe_records_idle(&mut memory));
    assert_eq!(
        memory.reads,
        vec![pipe_state_address(0) + 3, pipe_state_address(1) + 3, pipe_state_address(2) + 3]
    );

    let mut memory = Memory::new();
    assert!(mac_pipe_records_idle(&mut memory));
    assert_eq!(memory.reads.len(), 4);
}

#[test]
fn drain_tail_answers_a_request_when_everything_is_idle() {
    let mut memory = Memory::new();
    memory.set(MAC_RETRY_HARDWARE_STATE, 0x03);
    memory.set(SCHEDULER_PENDING_EVENTS, 0x10);

    service_mac_event_drain_tail(&mut memory);

    assert_eq!(
        memory.writes,
        vec![(MAC_RETRY_HARDWARE_STATE, 0x05), (SCHEDULER_PENDING_EVENTS, 0x8000_0010)]
    );
}

#[test]
fn drain_tail_answers_when_only_the_pipes_are_idle() {
    let mut memory = Memory::new();
    memory.set(MAC_RETRY_HARDWARE_STATE, 0x02);
    memory.set(MAC_SEQUENCER_STATE, 0x1200);

    service_mac_event_drain_tail(&mut memory);

    assert_eq!(memory.get(MAC_RETRY_HARDWARE_STATE), 0x04);
}

#[test]
fn drain_tail_waits_while_hardware_and_a_pipe_are_busy() {
    let mut memory = Memory::new();
    memory.set(MAC_RETRY_HARDWARE_STATE, 0x02);
    memory.set(MAC_SEQUENCER_STATE, 0x1200);
    memory.set(pipe_state_address(0) + 3, 1);

    service_mac_event_drain_tail(&mut memory);

    assert!(memory.writes.is_empty());
}

#[test]
fn drain_tail_without_a_request_still_checks_and_writes_nothing() {
    let mut memory = Memory::new();

    service_mac_event_drain_tail(&mut memory);

    assert!(memory.writes.is_empty());
    assert_eq!(memory.reads.len(), 1 + 3 + 4);
}
