use xr819_tx::context::{ContextAddress, FrameNodeAddress, PublishedSlotIdentity};
use xr819_tx::live_slot::LiveTxSlot;
use xr819_tx::mmio::MacPipeMmio;
use xr819_tx::packet_ram::{ampdu_spacing_word, ampdu_spacing_word_address, ampdu_transfer_word, tx_command};
use xr819_tx::registers::slot_record_address;

struct Memory {
    values: Vec<(u32, u32)>,
    reads: Vec<u32>,
    writes: Vec<(u32, u32)>,
}

impl Memory {
    fn new() -> Self {
        Self { values: Vec::new(), reads: Vec::new(), writes: Vec::new() }
    }

    fn set(&mut self, address: u32, value: u32) {
        self.values.push((address, value));
    }

    fn get(&mut self, address: u32) -> u32 {
        self.reads.push(address);
        self.values.iter().rev().find(|(stored, _)| *stored == address).map(|(_, v)| *v).unwrap_or(0)
    }

    fn store(&mut self, address: u32, value: u32) {
        self.writes.push((address, value));
        self.set(address, value);
    }
}

impl MacPipeMmio for Memory {
    fn read_u8(&mut self, address: u32) -> u8 {
        self.get(address) as u8
    }

    fn read_u16(&mut self, address: u32) -> u16 {
        self.get(address) as u16
    }

    fn read_u32(&mut self, address: u32) -> u32 {
        self.get(address)
    }

    fn write_u8(&mut self, address: u32, value: u8) {
        self.store(address, u32::from(value));
    }

    fn write_u16(&mut self, address: u32, value: u16) {
        self.store(address, u32::from(value));
    }

    fn write_u32(&mut self, address: u32, value: u32) {
        self.store(address, value);
    }
}

#[test]
fn live_slot_is_read_from_its_own_record() {
    let mut memory = Memory::new();
    let record = slot_record_address(1, 2);
    memory.set(record + 0x0c, 0x0400_90d8);
    memory.set(record + 0x14, tx_command(1, 2));

    let live = LiveTxSlot::from_pipe_slot(&mut memory, 1, 2);

    assert_eq!(
        live,
        Some(LiveTxSlot { address: record, frame_node: FrameNodeAddress::new(0x0400_90d8), command: tx_command(1, 2) })
    );
    assert!(LiveTxSlot::from_pipe_slot(&mut memory, 4, 0).is_none());
    assert!(LiveTxSlot::from_pipe_slot(&mut memory, 1, 3).is_none());
}

#[test]
fn published_slot_stays_live_until_its_frame_changes() {
    let identity = PublishedSlotIdentity::new(ContextAddress::new(0x0400_9084), 2, 1)
        .unwrap_or_else(|| panic!("valid publication"));
    let record = slot_record_address(2, 1);
    let mut memory = Memory::new();
    memory.set(record + 0x0c, identity.frame_node.raw());
    memory.set(record + 0x14, identity.command);

    assert_eq!(identity.live_slot(&mut memory), Some(record));

    memory.set(record + 0x14, tx_command(2, 2));
    assert_eq!(identity.live_slot(&mut memory), None);

    memory.set(record + 0x0c, 0);
    memory.reads.clear();
    assert_eq!(identity.live_slot(&mut memory), None);
    assert_eq!(memory.reads, vec![record + 0x0c]);
}

#[test]
fn spacing_word_exists_for_every_selector_but_zero() {
    assert_eq!(ampdu_spacing_word(0), None);
    assert_eq!(ampdu_spacing_word(3), ampdu_transfer_word(ampdu_spacing_word_address(3)));
    assert!(ampdu_spacing_word(255).is_some());
}
