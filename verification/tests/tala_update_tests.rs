use xr819_tx::context::FrameNodeAddress;
use xr819_tx::mmio::MacPipeMmio;
use xr819_tx::tala_update::{
    update_tala_for_completion, TalaUpdate, TalaVifCall, TalaVifEffects, MAC_ACCOUNTING_PARAMETER0,
    MAC_ACCOUNTING_PARAMETER1, MAC_SILICON_CONTROL, RATE_POLICY_SHORT_RETRY, TALA_FAILURE,
    TALA_GROWTH_STREAK, TALA_LENGTH_REPORT, TALA_OVERRIDES, TALA_PENALTY, TALA_STATS, TALA_STATS_STRIDE,
    TALA_SUCCESS, TALA_TRIES,
};

struct Memory {
    values: Vec<(u32, u32)>,
    writes: usize,
}

impl Memory {
    fn new() -> Self {
        Self { values: Vec::new(), writes: 0 }
    }

    fn set(&mut self, address: u32, value: u32) {
        self.values.push((address, value));
    }

    fn get(&self, address: u32) -> u32 {
        self.values.iter().rev().find(|(stored, _)| *stored == address).map(|(_, v)| *v).unwrap_or(0)
    }
}

impl MacPipeMmio for Memory {
    fn read_u8(&mut self, address: u32) -> u8 {
        self.get(address) as u8
    }

    fn read_u16(&mut self, address: u32) -> u16 {
        self.get(address) as u16
    }

    fn read_u32(&mut self, address: u32) -> u32 {
        self.get(address)
    }

    fn write_u8(&mut self, address: u32, value: u8) {
        self.writes += 1;
        self.set(address, u32::from(value));
    }

    fn write_u16(&mut self, address: u32, value: u16) {
        self.writes += 1;
        self.set(address, u32::from(value));
    }

    fn write_u32(&mut self, address: u32, value: u32) {
        self.writes += 1;
        self.set(address, value);
    }
}

struct Vif {
    calls: Vec<TalaVifCall>,
    rts: Option<u16>,
    length: u16,
    accept: bool,
}

impl TalaVifEffects for Vif {
    fn rts_threshold(&mut self, interface: u8) -> Option<u16> {
        self.calls.push(TalaVifCall::RtsThreshold { interface, threshold: self.rts });
        self.rts
    }

    fn ampdu_length(&mut self, interface: u8) -> Option<u16> {
        self.calls.push(TalaVifCall::AmpduLength { interface, length: Some(self.length) });
        Some(self.length)
    }

    fn set_ampdu_length(&mut self, interface: u8, length: u16) -> bool {
        self.calls.push(TalaVifCall::SetAmpduLength { interface, length, accepted: self.accept });
        if self.accept {
            self.length = length;
        }
        self.accept
    }
}

const CONTEXT: u32 = 0x0400_9364;
const NODE: u32 = CONTEXT + 0x54;

fn stat(field: u32) -> u32 {
    TALA_STATS + TALA_STATS_STRIDE + field
}

fn frame_on_interface_one(memory: &mut Memory) {
    memory.set(CONTEXT + 0xbd, 1);
    memory.set(CONTEXT + 0x70, 0);
    memory.set(CONTEXT + 0x62, 3);
    memory.set(CONTEXT + 0x72, 4);
    memory.set(RATE_POLICY_SHORT_RETRY + 3, 7);
    memory.set(stat(TALA_SUCCESS), 5);
    memory.set(stat(TALA_FAILURE), 2);
    memory.set(stat(TALA_TRIES), 10);
    memory.set(stat(TALA_PENALTY), 20);
}

fn vif(rts: Option<u16>, accept: bool) -> Vif {
    Vif { calls: Vec::new(), rts, length: 0x18, accept }
}

#[test]
fn overridden_interface_under_a_high_rts_threshold_keeps_everything() {
    let mut memory = Memory::new();
    frame_on_interface_one(&mut memory);
    memory.set(TALA_OVERRIDES + 2, 1);
    let mut vif = vif(Some(0x700), true);

    let outcome = update_tala_for_completion(&mut memory, &mut vif, FrameNodeAddress::new(NODE));

    assert_eq!(outcome, TalaUpdate::Overridden);
    assert_eq!(memory.writes, 0);
    assert_eq!(vif.calls, vec![TalaVifCall::RtsThreshold { interface: 1, threshold: Some(0x700) }]);
}

#[test]
fn frame_is_counted_without_evaluation_inside_the_window() {
    let mut memory = Memory::new();
    frame_on_interface_one(&mut memory);
    memory.set(MAC_ACCOUNTING_PARAMETER0, 0x0001_0000);
    let mut vif = vif(None, true);

    let outcome = update_tala_for_completion(&mut memory, &mut vif, FrameNodeAddress::new(NODE));

    assert_eq!(outcome, TalaUpdate::Counted);
    assert_eq!(memory.get(stat(TALA_SUCCESS)), 6);
    assert_eq!(memory.get(stat(TALA_TRIES)), 14);
    assert_eq!(memory.get(stat(TALA_PENALTY)), 28);
    assert!(vif.calls.is_empty());
}

#[test]
fn full_window_cuts_the_length_by_half_and_restarts_the_counters() {
    let mut memory = Memory::new();
    frame_on_interface_one(&mut memory);
    memory.set(MAC_ACCOUNTING_PARAMETER0, 0x0300_0420);
    memory.set(MAC_ACCOUNTING_PARAMETER1, 0x2010_0804);
    memory.set(stat(TALA_GROWTH_STREAK), 2);
    let mut vif = vif(None, true);

    let outcome = update_tala_for_completion(&mut memory, &mut vif, FrameNodeAddress::new(NODE));

    assert_eq!(outcome, TalaUpdate::Evaluated);
    assert_eq!(
        vif.calls,
        vec![
            TalaVifCall::AmpduLength { interface: 1, length: Some(0x18) },
            TalaVifCall::SetAmpduLength { interface: 1, length: 12, accepted: true },
            TalaVifCall::AmpduLength { interface: 1, length: Some(12) },
        ]
    );
    assert_eq!(memory.get(stat(TALA_GROWTH_STREAK)), 0);
    assert_eq!(memory.get(MAC_SILICON_CONTROL), 1);
    for field in [TALA_SUCCESS, TALA_FAILURE, TALA_TRIES, TALA_PENALTY] {
        assert_eq!(memory.get(stat(field)), 0);
    }
    assert_eq!(memory.get(TALA_LENGTH_REPORT), 12);
}

#[test]
fn refused_length_leaves_the_counters() {
    let mut memory = Memory::new();
    frame_on_interface_one(&mut memory);
    memory.set(MAC_ACCOUNTING_PARAMETER0, 0x0300_0420);
    memory.set(MAC_ACCOUNTING_PARAMETER1, 0x2010_0804);
    let mut vif = vif(None, false);

    let outcome = update_tala_for_completion(&mut memory, &mut vif, FrameNodeAddress::new(NODE));

    assert_eq!(outcome, TalaUpdate::LengthRefused);
    assert_eq!(memory.get(stat(TALA_SUCCESS)), 6);
    assert_eq!(memory.get(TALA_LENGTH_REPORT), 0);
}
