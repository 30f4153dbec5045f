use xr819_tx::mac_effects::{
    service_mac_beacon_event, service_mac_nonpipe_completion_event, service_mac_sideband,
    BEACON_SCHEDULER_BIT, RADIO_TIMER_EVENT, SIDEBAND_EVENT,
};
use xr819_tx::mmio::MacPipeMmio;
use xr819_tx::registers::{
    LOW_MAC_OPTIONAL_PIPE_OBJECT_WORD, MAC_BEACON_CONTROL_STATE, MAC_SIDEBAND_CAPTURE,
    MAC_SIDEBAND_COUNTER, MAC_SIDEBAND_SOURCE, RADIO_TIMER_STATE, SCHEDULER_PENDING_EVENTS,
};

struct Memory {
    values: Vec<(u32, u32)>,
    reads: Vec<u32>,
    writes: Vec<(u32, u32)>,
}

impl Memory {
    fn new() -> Self {
        Self { values: Vec::new(), reads: Vec::new(), writes: Vec::new() }
    }

    fn set(&mut self, address: u32, value: u32) {
        self.values.push((address, value));
    }

    fn get(&mut self, address: u32) -> u32 {
        self.reads.push(address);
        self.values.iter().rev().find(|(stored, _)| *stored == address).map(|(_, v)| *v).unwrap_or(0)
    }

    fn store(&mut self, address: u32, value: u32) {
        self.writes.push((address, value));
        self.set(address, value);
    }
}

impl MacPipeMmio for Memory {
    fn read_u8(&mut self, address: u32) -> u8 {
        self.get(address) as u8
    }

    fn read_u16(&mut self, address: u32) -> u16 {
        self.get(address) as u16
    }

    fn read_u32(&mut self, address: u32) -> u32 {
        self.get(address)
    }

    fn write_u8(&mut self, address: u32, value: u8) {
        self.store(address, u32::from(value));
    }

    fn write_u16(&mut self, address: u32, value: u16) {
        self.store(address, u32::from(value));
    }

    fn write_u32(&mut self, address: u32, value: u32) {
        self.store(address, value);
    }
}

#[test]
fn beacon_service_marks_the_beacon_then_raises_its_bit() {
    let mut memory = Memory::new();
    memory.set(SCHEDULER_PENDING_EVENTS, 2);

    service_mac_beacon_event(&mut memory);

    assert_eq!(
        memory.writes,
        vec![(MAC_BEACON_CONTROL_STATE, 5), (SCHEDULER_PENDING_EVENTS, 2 | BEACON_SCHEDULER_BIT)]
    );
    assert_eq!(memory.reads, vec![LOW_MAC_OPTIONAL_PIPE_OBJECT_WORD, SCHEDULER_PENDING_EVENTS]);
}

#[test]
fn held_beacon_completion_only_raises_the_beacon_bit() {
    let mut memory = Memory::new();
    memory.set(MAC_BEACON_CONTROL_STATE, 4);

    service_mac_nonpipe_completion_event(&mut memory, 0x19);

    assert_eq!(
        memory.writes,
        vec![(SCHEDULER_PENDING_EVENTS, BEACON_SCHEDULER_BIT), (MAC_BEACON_CONTROL_STATE, 1)]
    );
}

#[test]
fn unmarked_beacon_completion_runs_the_marker() {
    let mut memory = Memory::new();
    memory.set(MAC_BEACON_CONTROL_STATE, 2);

    service_mac_nonpipe_completion_event(&mut memory, 0x19);

    assert_eq!(
        memory.writes,
        vec![
            (MAC_BEACON_CONTROL_STATE, 5),
            (SCHEDULER_PENDING_EVENTS, BEACON_SCHEDULER_BIT),
            (MAC_BEACON_CONTROL_STATE, 1),
        ]
    );
}

#[test]
fn marked_beacon_completion_only_resets_the_state() {
    let mut memory = Memory::new();
    memory.set(MAC_BEACON_CONTROL_STATE, 5);

    service_mac_nonpipe_completion_event(&mut memory, 0x19);

    assert_eq!(memory.writes, vec![(MAC_BEACON_CONTROL_STATE, 1)]);
}

#[test]
fn armed_radio_timer_fires_once() {
    let mut memory = Memory::new();
    memory.set(RADIO_TIMER_STATE, 2);

    service_mac_nonpipe_completion_event(&mut memory, 0x35);
    assert_eq!(memory.get(RADIO_TIMER_STATE), 4);
    assert_eq!(memory.get(SCHEDULER_PENDING_EVENTS), RADIO_TIMER_EVENT);

    let writes = memory.writes.len();
    service_mac_nonpipe_completion_event(&mut memory, 0x35);
    assert_eq!(memory.writes.len(), writes);
}

#[test]
fn other_nonpipe_events_touch_nothing() {
    let mut memory = Memory::new();
    service_mac_nonpipe_completion_event(&mut memory, 0x20);
    assert!(memory.reads.is_empty());
    assert!(memory.writes.is_empty());
}

#[test]
fn sideband_capture_is_copied_counted_and_signalled() {
    let mut memory = Memory::new();
    memory.set(MAC_SIDEBAND_SOURCE, 0x1234_5678);
    memory.set(MAC_SIDEBAND_COUNTER, u32::MAX);

    service_mac_sideband(&mut memory);

    assert_eq!(memory.get(MAC_SIDEBAND_CAPTURE), 0x1234_5678);
    assert_eq!(memory.get(MAC_SIDEBAND_COUNTER), 0);
    assert_eq!(memory.get(SCHEDULER_PENDING_EVENTS), SIDEBAND_EVENT);
}
