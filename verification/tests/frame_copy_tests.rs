use xr819_tx::frame_copy::{copy_to_packet_ram, packet_ram_matches};
use xr819_tx::mmio::MacPipeMmio;

struct Memory {
    values: Vec<(u32, u32)>,
    reads: Vec<u32>,
    writes: Vec<(u32, u32)>,
}

impl Memory {
    fn new() -> Self {
        Self { values: Vec::new(), reads: Vec::new(), writes: Vec::new() }
    }

    fn set(&mut self, address: u32, value: u32) {
        self.values.push((address, value));
    }

    fn get(&mut self, address: u32) -> u32 {
        self.reads.push(address);
        self.values.iter().rev().find(|(stored, _)| *stored == address).map(|(_, v)| *v).unwrap_or(0)
    }

    fn store(&mut self, address: u32, value: u32) {
        self.writes.push((address, value));
        self.set(address, value);
    }
}

impl MacPipeMmio for Memory {
    fn read_u8(&mut self, address: u32) -> u8 {
        self.get(address) as u8
    }

    fn read_u16(&mut self, address: u32) -> u16 {
        self.get(address) as u16
    }

    fn read_u32(&mut self, address: u32) -> u32 {
        self.get(address)
    }

    fn write_u8(&mut self, address: u32, value: u8) {
        self.store(address, u32::from(value));
    }

    fn write_u16(&mut self, address: u32, value: u16) {
        self.store(address, u32::from(value));
    }

    fn write_u32(&mut self, address: u32, value: u32) {
        self.store(address, value);
    }
}

#[test]
fn copy_writes_whole_words_little_endian_and_merges_the_tail() {
    let mut memory = Memory::new();
    memory.set(0x0900_0104, 0xaabb_ccdd);

    copy_to_packet_ram(&mut memory, 0x0900_0100, &[1, 2, 3, 4, 5, 6]);

    assert_eq!(memory.writes, vec![(0x0900_0100, 0x0403_0201), (0x0900_0104, 0xaabb_0605)]);
    assert_eq!(memory.reads, vec![0x0900_0104]);
}

#[test]
fn copy_of_whole_words_reads_nothing() {
    let mut memory = Memory::new();

    copy_to_packet_ram(&mut memory, 0x0900_0200, &[0x10, 0x20, 0x30, 0x40, 0x50, 0x60, 0x70, 0x80]);

    assert_eq!(memory.writes, vec![(0x0900_0200, 0x4030_2010), (0x0900_0204, 0x8070_6050)]);
    assert!(memory.reads.is_empty());
}

#[test]
fn copied_frame_reads_back_as_a_match() {
    let frame = [0x40, 0x00, 0x00, 0x00, 0xff, 0xff, 0xff];
    let mut memory = Memory::new();
    memory.set(0x0900_0304, 0x1234_5678);

    copy_to_packet_ram(&mut memory, 0x0900_0300, &frame);
    assert!(packet_ram_matches(&mut memory, 0x0900_0300, &frame));
    assert_eq!(memory.get(0x0900_0304), 0x12ff_ffff);
}

#[test]
fn match_stops_at_the_first_differing_word() {
    let mut memory = Memory::new();
    memory.set(0x0900_0400, 0x0403_0209);
    memory.set(0x0900_0404, 0x0807_0605);

    assert!(!packet_ram_matches(&mut memory, 0x0900_0400, &[1, 2, 3, 4, 5, 6, 7, 8]));
    assert_eq!(memory.reads, vec![0x0900_0400]);
}

#[test]
fn match_compares_only_the_low_bytes_of_the_tail_word() {
    let mut memory = Memory::new();
    memory.set(0x0900_0500, 0xeeee_0201);
    assert!(packet_ram_matches(&mut memory, 0x0900_0500, &[1, 2]));

    let mut memory = Memory::new();
    memory.set(0x0900_0500, 0xeeee_0301);
    assert!(!packet_ram_matches(&mut memory, 0x0900_0500, &[1, 2]));
}

#[test]
fn empty_frame_touches_nothing_and_matches() {
    let mut memory = Memory::new();
    copy_to_packet_ram(&mut memory, 0x0900_0600, &[]);
    assert!(packet_ram_matches(&mut memory, 0x0900_0600, &[]));
    assert!(memory.reads.is_empty());
    assert!(memory.writes.is_empty());
}
