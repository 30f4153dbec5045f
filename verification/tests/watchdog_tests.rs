use xr819_tx::context::FrameNodeAddress;
use xr819_tx::mmio::MacPipeMmio;
use xr819_tx::packet_ram::tx_command;
use xr819_tx::registers::{pipe_state_address, slot_record_address, tx_ring_register, LOW_MAC_PIPE_BUSY};
use xr819_tx::status_exec::TxStatusPolicy;
use xr819_tx::watchdog_exec::{service_pipe_watchdog_tick, RETIRED_SLOT_STATUS};

struct Memory {
    values: Vec<(u32, u32)>,
    writes: Vec<(u32, u32)>,
}

impl Memory {
    fn new() -> Self {
        Self { values: Vec::new(), writes: Vec::new() }
    }

    fn set(&mut self, address: u32, value: u32) {
        self.values.push((address, value));
    }

    fn get(&self, address: u32) -> u32 {
        self.values.iter().rev().find(|(stored, _)| *stored == address).map(|(_, v)| *v).unwrap_or(0)
    }

    fn store(&mut self, address: u32, value: u32) {
        self.writes.push((address, value));
        self.set(address, value);
    }
}

impl MacPipeMmio for Memory {
    fn read_u8(&mut self, address: u32) -> u8 {
        self.get(address) as u8
    }

    fn read_u16(&mut self, address: u32) -> u16 {
        self.get(address) as u16
    }

    fn read_u32(&mut self, address: u32) -> u32 {
        self.get(address)
    }

    fn write_u8(&mut self, address: u32, value: u8) {
        self.store(address, u32::from(value));
    }

    fn write_u16(&mut self, address: u32, value: u16) {
        self.store(address, u32::from(value));
    }

    fn write_u32(&mut self, address: u32, value: u32) {
        self.store(address, value);
    }
}

#[derive(Debug, PartialEq)]
enum Call {
    Reset(u8, u8, u32, u32),
    Complete(FrameNodeAddress, u32, u16),
    Find(u8),
}

struct Policy {
    calls: Vec<Call>,
}

impl TxStatusPolicy for Policy {
    fn reset_status_backoff(&mut self, link: u8, queue: u8, pas_state: u32, queue_table: u32) {
        self.calls.push(Call::Reset(link, queue, pas_state, queue_table));
    }

    fn complete_slot(&mut self, frame_node: FrameNodeAddress, slot: u32, status: u16) {
        self.calls.push(Call::Complete(frame_node, slot, status));
    }

    fn find_rx_frame_by_subtype(&mut self, subtype: u8) -> Option<u32> {
        self.calls.push(Call::Find(subtype));
        None
    }
}

fn watched_pipe(memory: &mut Memory, pipe: u8, control: u8, counter: u8) -> u32 {
    let record = pipe_state_address(pipe);
    memory.set(record + 3, 1);
    memory.set(record + 4, u32::from(control));
    memory.set(record + 5, u32::from(counter));
    record
}

#[test]
fn watchdog_tick_counts_down_armed_programmed_pipes() {
    let mut memory = Memory::new();
    let first = watched_pipe(&mut memory, 0, 1, 5);
    let idle = watched_pipe(&mut memory, 1, 0, 5);
    let nudged = watched_pipe(&mut memory, 2, 1, 2);
    let unarmed = pipe_state_address(3);
    memory.set(unarmed + 4, 1);
    memory.set(unarmed + 5, 4);
    let mut policy = Policy { calls: Vec::new() };

    assert!(service_pipe_watchdog_tick(&mut memory, &mut policy));

    assert_eq!(memory.writes, vec![(first + 5, 4), (nudged + 5, 1)]);
    assert_eq!(memory.get(idle + 5), 5);
    assert_eq!(memory.get(unarmed + 5), 4);
    assert!(policy.calls.is_empty());
}

#[test]
fn watchdog_expired_pipe_retires_an_empty_slot() {
    let mut memory = Memory::new();
    let record = watched_pipe(&mut memory, 1, 0x09, 0);
    memory.set(record + 1, 2);
    memory.set(record + 2, 2);
    let slot = slot_record_address(1, 2);
    memory.set(slot + 0x0c, 0);
    let mut policy = Policy { calls: Vec::new() };

    assert!(service_pipe_watchdog_tick(&mut memory, &mut policy));

    assert_eq!(
        memory.writes,
        vec![
            (slot + 0x0c, 0),
            (record, 3),
            (record + 3, 0),
            (record + 4, 0),
            (record + 5, 5),
            (record + 4, 0),
            (record + 5, 5),
        ]
    );
    assert!(policy.calls.is_empty());
}

#[test]
fn watchdog_expired_pipe_completes_a_live_slot_with_give_up_status() {
    let mut memory = Memory::new();
    let record = watched_pipe(&mut memory, 0, 0x01, 0);
    memory.set(record + 2, 1);
    let ring = tx_ring_register(0);
    memory.set(record + 8, ring);
    memory.set(ring + 0x20, 2 << 27);
    let slot = slot_record_address(0, 1);
    let frame = 0x0400_90d8;
    memory.set(slot + 0x0c, frame);
    memory.set(slot + 0x14, tx_command(0, 1));
    let mut policy = Policy { calls: Vec::new() };

    assert!(service_pipe_watchdog_tick(&mut memory, &mut policy));

    assert_eq!(policy.calls, vec![Call::Complete(FrameNodeAddress::new(frame), slot, RETIRED_SLOT_STATUS)]);
    assert_eq!(RETIRED_SLOT_STATUS, 0x0b);
    assert_eq!(memory.get(record), 2);
    assert_eq!(memory.get(record + 3), 0);
    assert_eq!(memory.get(record + 4), 0);
    assert_eq!(memory.get(record + 5), 5);
    assert!(!memory.writes.iter().any(|(address, _)| *address == LOW_MAC_PIPE_BUSY));
}

#[test]
fn watchdog_retiring_a_retry_owned_slot_releases_its_command_bit() {
    let mut memory = Memory::new();
    let record = watched_pipe(&mut memory, 2, 0x01, 0);
    memory.set(record + 2, 3);
    let ring = tx_ring_register(2);
    memory.set(record + 8, ring);
    memory.set(ring + 0x20, 0xffff_ffff);
    let slot = slot_record_address(2, 3);
    memory.set(slot, 1);
    memory.set(slot + 3, 4);
    memory.set(slot + 0x0c, 0x0400_9248);
    memory.set(slot + 0x14, tx_command(2, 3));
    memory.set(LOW_MAC_PIPE_BUSY, 1);
    let mut policy = Policy { calls: Vec::new() };

    assert!(service_pipe_watchdog_tick(&mut memory, &mut policy));

    assert_eq!(memory.writes[0], (ring + 0x20, 0xffff_ffff & !(1 << 3)));
    assert_eq!(memory.get(LOW_MAC_PIPE_BUSY), 0);
    assert_eq!(memory.get(record), 3);
    assert_eq!(policy.calls.len(), 1);
}

#[test]
fn watchdog_stops_at_a_pipe_whose_ring_is_not_its_own() {
    let mut memory = Memory::new();
    let record = watched_pipe(&mut memory, 0, 0x01, 0);
    memory.set(record + 8, tx_ring_register(1));
    let next = watched_pipe(&mut memory, 1, 0x01, 5);
    let mut policy = Policy { calls: Vec::new() };

    assert!(!service_pipe_watchdog_tick(&mut memory, &mut policy));

    assert!(memory.writes.is_empty());
    assert_eq!(memory.get(next + 5), 5);
}

#[test]
fn watchdog_refuses_an_empty_slot_that_a_retry_still_owns() {
    let mut memory = Memory::new();
    let record = watched_pipe(&mut memory, 3, 0x01, 0);
    memory.set(record + 2, 0);
    let slot = slot_record_address(3, 0);
    memory.set(slot, 1);
    memory.set(slot + 3, 4);
    let mut policy = Policy { calls: Vec::new() };

    assert!(!service_pipe_watchdog_tick(&mut memory, &mut policy));

    assert!(memory.writes.is_empty());
    assert!(policy.calls.is_empty());
}

#[test]
fn stuck_pipe_is_recovered_on_the_sixth_sample_after_arming() {
    let mut memory = Memory::new();
    let record = watched_pipe(&mut memory, 0, 0x01, 5);
    memory.set(record + 2, 1);
    let mut policy = Policy { calls: Vec::new() };

    for expected in [4, 3, 2, 1, 0] {
        assert!(service_pipe_watchdog_tick(&mut memory, &mut policy));
        assert_eq!(memory.get(record + 5), expected);
        assert_eq!(memory.get(record + 3), 1);
    }
    assert!(service_pipe_watchdog_tick(&mut memory, &mut policy));
    assert_eq!(memory.get(record + 3), 0);
    assert_eq!(memory.get(record + 5), 5);
}
