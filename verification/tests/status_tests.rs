use xr819_tx::context::FrameNodeAddress;
use xr819_tx::mmio::MacPipeMmio;
use xr819_tx::registers::{
    pipe_state_address, slot_record_address, MAC_CURRENT_PIPE, MAC_CURRENT_PIPE_RECORD,
    MAC_CURRENT_SLOT, MAC_STATUS_ACCOUNTING, PIPE_STATUS_COUNTER, QUEUE_TO_ACCESS_CATEGORY,
};
use xr819_tx::registers::{
    MAC_BEACON_CONTROL, MAC_BEACON_CONTROL_REGISTER, MAC_BEACON_CONTROL_STATE, MAC_PHY_COMPLETION_STATUS,
    MAC_TX_STATUS_RANGE_COUNTER, MAC_TX_STATUS_TOTAL_COUNTER, MAC_WAKE_CONTROL, RX_FIFO_CLAIM_CURSOR,
};
use xr819_tx::status_exec::{service_mac_irq_tx_status_dispatch, service_txp_pipe_tx_status, TxStatusPolicy};

struct Memory {
    values: Vec<(u32, u32)>,
    writes: Vec<(u32, u32)>,
}

impl Memory {
    fn new() -> Self {
        Self { values: Vec::new(), writes: Vec::new() }
    }

    fn set(&mut self, address: u32, value: u32) {
        self.values.push((address, value));
    }

    fn get(&self, address: u32) -> u32 {
        self.values.iter().rev().find(|(stored, _)| *stored == address).map(|(_, v)| *v).unwrap_or(0)
    }

    fn store(&mut self, address: u32, value: u32) {
        self.writes.push((address, value));
        self.set(address, value);
    }
}

impl MacPipeMmio for Memory {
    fn read_u8(&mut self, address: u32) -> u8 {
        self.get(address) as u8
    }

    fn read_u16(&mut self, address: u32) -> u16 {
        self.get(address) as u16
    }

    fn read_u32(&mut self, address: u32) -> u32 {
        self.get(address)
    }

    fn write_u8(&mut self, address: u32, value: u8) {
        self.store(address, u32::from(value));
    }

    fn write_u16(&mut self, address: u32, value: u16) {
        self.store(address, u32::from(value));
    }

    fn write_u32(&mut self, address: u32, value: u32) {
        self.store(address, value);
    }
}

#[derive(Debug, PartialEq)]
enum Call {
    Reset(u8, u8, u32, u32),
    Complete(FrameNodeAddress, u32, u16),
    Find(u8),
}

struct Policy {
    calls: Vec<Call>,
}

impl TxStatusPolicy for Policy {
    fn reset_status_backoff(&mut self, link: u8, queue: u8, pas_state: u32, queue_table: u32) {
        self.calls.push(Call::Reset(link, queue, pas_state, queue_table));
    }

    fn complete_slot(&mut self, frame_node: FrameNodeAddress, slot: u32, status: u16) {
        self.calls.push(Call::Complete(frame_node, slot, status));
    }

    fn find_rx_frame_by_subtype(&mut self, subtype: u8) -> Option<u32> {
        self.calls.push(Call::Find(subtype));
        None
    }
}

fn armed_pipe(memory: &mut Memory, pipe: u8, current: u8, last: u8, kind: u8, expected: u8) -> u32 {
    let record = pipe_state_address(pipe);
    let slot = slot_record_address(pipe, current);
    memory.set(MAC_CURRENT_PIPE, u32::from(pipe));
    memory.set(record + 1, u32::from(last));
    memory.set(record + 2, u32::from(current));
    memory.set(record + 3, 1);
    memory.set(slot, u32::from(kind));
    memory.set(slot + 1, u32::from(expected));
    memory.set(slot + 3, 3);
    slot
}

#[test]
fn tx_status_completes_the_last_slot_and_recycles_the_pipe() {
    let mut memory = Memory::new();
    let record = pipe_state_address(0);
    let slot = armed_pipe(&mut memory, 0, 2, 2, 0, 0x0b);
    let frame = 0x0400_90d8;
    memory.set(slot + 0x0c, frame);
    memory.set(frame + 0x69, 2);
    memory.set(QUEUE_TO_ACCESS_CATEGORY, 1);
    memory.set(frame + 0x2c, 0x10);
    let mut policy = Policy { calls: Vec::new() };

    service_txp_pipe_tx_status(&mut memory, 0x0b, &mut policy);

    assert_eq!(memory.writes[0], (MAC_CURRENT_PIPE_RECORD, record));
    assert_eq!(memory.writes[1], (MAC_CURRENT_SLOT, slot));
    assert_eq!(memory.writes[2], (slot + 3, 5));
    assert_eq!(memory.writes[3], (record + 5, 1));
    assert_eq!(memory.get(frame + 0x2c), 0x210);
    assert_eq!(memory.get(record), 3);
    assert_eq!(memory.get(record + 3), 0);
    assert_eq!(memory.get(record + 4), 0);
    assert_eq!(memory.get(record + 5), 5);
    assert_eq!(
        policy.calls,
        vec![
            Call::Reset(2, 1, frame + 0x60, QUEUE_TO_ACCESS_CATEGORY),
            Call::Complete(FrameNodeAddress::new(frame), slot, 0),
        ]
    );
}

#[test]
fn tx_status_advances_a_middle_slot_cursor() {
    let mut memory = Memory::new();
    let record = pipe_state_address(3);
    let slot = armed_pipe(&mut memory, 3, 1, 2, 0, 4);
    memory.set(record + 5, 3);
    memory.set(slot + 0x0c, 0x0400_9248);
    let mut policy = Policy { calls: Vec::new() };

    service_txp_pipe_tx_status(&mut memory, 4, &mut policy);

    assert_eq!(memory.get(record + 2), 2);
    assert_eq!(memory.get(record), 2);
    assert_eq!(memory.get(record + 5), 3);
    assert_eq!(policy.calls.len(), 2);
}

#[test]
fn tx_status_counts_and_advances_a_kind_two_slot_without_completion() {
    let mut memory = Memory::new();
    let record = pipe_state_address(1);
    let slot = armed_pipe(&mut memory, 1, 3, 3, 2, 0x11);
    memory.set(record + 5, 2);
    memory.set(PIPE_STATUS_COUNTER, 9);
    memory.set(MAC_STATUS_ACCOUNTING, u32::MAX);
    let mut policy = Policy { calls: Vec::new() };

    service_txp_pipe_tx_status(&mut memory, 0x11, &mut policy);

    assert_eq!(memory.get(slot + 3), 5);
    assert_eq!(memory.get(PIPE_STATUS_COUNTER), 10);
    assert_eq!(memory.get(MAC_STATUS_ACCOUNTING), 0);
    assert_eq!(memory.get(record + 2), 0);
    assert!(policy.calls.is_empty());
}

#[test]
fn tx_status_ignores_a_status_the_slot_does_not_expect() {
    let mut memory = Memory::new();
    armed_pipe(&mut memory, 2, 0, 0, 0, 0x0b);
    let mut policy = Policy { calls: Vec::new() };

    service_txp_pipe_tx_status(&mut memory, 4, &mut policy);

    assert_eq!(memory.writes.len(), 2);
    assert!(policy.calls.is_empty());
}

#[test]
fn tx_status_on_a_busy_mac_only_marks_the_slot() {
    let mut memory = Memory::new();
    let slot = armed_pipe(&mut memory, 2, 0, 0, 0, 0x0b);
    memory.set(0x0400_1f8c, 1);
    let mut policy = Policy { calls: Vec::new() };

    service_txp_pipe_tx_status(&mut memory, 0x0b, &mut policy);

    assert_eq!(memory.writes.len(), 3);
    assert_eq!(memory.writes[2], (slot + 3, 5));
    assert!(policy.calls.is_empty());
}

#[test]
fn interrupt_status_three_is_counted_before_dispatch() {
    let mut memory = Memory::new();
    memory.set(0xfff0_1a90, 7);
    memory.set(MAC_TX_STATUS_TOTAL_COUNTER, 9);
    let mut policy = Policy { calls: Vec::new() };

    service_mac_irq_tx_status_dispatch(&mut memory, 3, &mut policy);

    assert_eq!(memory.writes[0], (0xfff0_1a90, 8));
    assert_eq!(memory.writes[1], (MAC_TX_STATUS_TOTAL_COUNTER, 10));
    assert_eq!(memory.get(MAC_TX_STATUS_RANGE_COUNTER), 0);
}

#[test]
fn interrupt_status_0e_samples_the_rx_fifo_and_stops_beacon_wake() {
    let mut memory = Memory::new();
    memory.set(RX_FIFO_CLAIM_CURSOR, 0x55);
    memory.set(MAC_WAKE_CONTROL, 1);
    memory.set(MAC_BEACON_CONTROL, 0x0000_0103);
    let mut policy = Policy { calls: Vec::new() };

    service_mac_irq_tx_status_dispatch(&mut memory, 0x0e, &mut policy);

    assert_eq!(
        memory.writes[..5].to_vec(),
        vec![
            (MAC_TX_STATUS_RANGE_COUNTER, 1),
            (MAC_PHY_COMPLETION_STATUS, 0x55),
            (MAC_BEACON_CONTROL, 0x0000_0102),
            (MAC_BEACON_CONTROL_REGISTER, 0x0000_0102),
            (MAC_BEACON_CONTROL_STATE, 1),
        ]
    );
    assert_eq!(policy.calls.first(), Some(&Call::Find(0x80)));
}

#[test]
fn interrupt_status_outside_every_counter_goes_straight_to_dispatch() {
    let mut memory = Memory::new();
    let mut policy = Policy { calls: Vec::new() };
    let mut direct = Memory::new();
    let mut direct_policy = Policy { calls: Vec::new() };

    service_mac_irq_tx_status_dispatch(&mut memory, 0x1a, &mut policy);
    service_txp_pipe_tx_status(&mut direct, 0x1a, &mut direct_policy);

    assert_eq!(memory.writes, direct.writes);
    assert_eq!(policy.calls, direct_policy.calls);
}
