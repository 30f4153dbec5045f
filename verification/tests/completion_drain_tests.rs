use xr819_tx::completion_drain::{
    service_completion_drain, CompletionDrainEffects, DrainCall, ACTIVE_PAS_CONTEXTS, AMPDU_COMPLETION_CONTROL,
    AMPDU_TX_COUNTED_FRAMES, AMPDU_TX_DURATION_HIGH, AMPDU_TX_DURATION_LOW, AMPDU_TX_ERROR_FRAMES,
    DEFERRED_RADIO_OWNER, PAS_MODE,
};
use xr819_tx::completion_ring::CompletionRing;
use xr819_tx::context::FrameNodeAddress;
use xr819_tx::context_return::LMC_MESSAGE_CONTROL;
use xr819_tx::mmio::MacPipeMmio;
use xr819_tx::registers::{LOW_MAC_OPTIONAL_PIPE_OBJECT_WORD, PAS_CONTENTION_WINDOWS, PAS_STRIDE};
use xr819_tx::tala_update::{TalaVifCall, TalaVifEffects};

struct Memory {
    values: Vec<(u32, u32)>,
}

impl Memory {
    fn new() -> Self {
        Self { values: Vec::new() }
    }

    fn set(&mut self, address: u32, value: u32) {
        self.values.push((address, value));
    }

    fn get(&self, address: u32) -> u32 {
        self.values.iter().rev().find(|(stored, _)| *stored == address).map(|(_, v)| *v).unwrap_or(0)
    }
}

impl MacPipeMmio for Memory {
    fn read_u8(&mut self, address: u32) -> u8 {
        self.get(address) as u8
    }

    fn read_u16(&mut self, address: u32) -> u16 {
        self.get(address) as u16
    }

    fn read_u32(&mut self, address: u32) -> u32 {
        self.get(address)
    }

    fn write_u8(&mut self, address: u32, value: u8) {
        self.set(address, u32::from(value));
    }

    fn write_u16(&mut self, address: u32, value: u16) {
        self.set(address, u32::from(value));
    }

    fn write_u32(&mut self, address: u32, value: u32) {
        self.set(address, value);
    }
}

struct Effects {
    calls: Vec<DrainCall>,
    messages: bool,
    idle: bool,
}

impl Effects {
    fn new(messages: bool, idle: bool) -> Self {
        Self { calls: Vec::new(), messages, idle }
    }

    fn completed(&self) -> Vec<u32> {
        self.calls
            .iter()
            .filter_map(|call| match call {
                DrainCall::CompleteContext { frame_node, .. } => Some(*frame_node),
                _ => None,
            })
            .collect()
    }
}

impl CompletionDrainEffects for Effects {
    fn completion_messages_enabled(&mut self) -> bool {
        self.calls.push(DrainCall::MessagesEnabled { enabled: self.messages });
        self.messages
    }

    fn send_completion_message(&mut self, frame_node: FrameNodeAddress, interface: u8) {
        self.calls.push(DrainCall::SendCompletionMessage { frame_node: frame_node.raw(), interface });
    }

    fn find_pipe_by_mac_upper(&mut self, mac_upper: u32) -> Option<u32> {
        let pipe = if mac_upper == 0x0901_4fec { Some(BA_PIPE) } else { None };
        self.calls.push(DrainCall::FindPipeByMacUpper { mac_upper, pipe });
        pipe
    }

    fn adjust_tx_busy(&mut self, interface: u8) {
        self.calls.push(DrainCall::AdjustTxBusy { interface });
    }

    fn power_save_completion(&mut self, frame_node: FrameNodeAddress) {
        self.calls.push(DrainCall::PowerSaveCompletion { frame_node: frame_node.raw() });
    }

    fn complete_context(&mut self, frame_node: FrameNodeAddress, status: u16) {
        self.calls.push(DrainCall::CompleteContext { frame_node: frame_node.raw(), status });
    }

    fn completion_idle_policy_enabled(&mut self) -> bool {
        self.calls.push(DrainCall::IdlePolicyEnabled { enabled: self.idle });
        self.idle
    }

    fn start_phy_operation_7(&mut self) {
        self.calls.push(DrainCall::StartPhyOperation7);
    }

    fn release_radio_scheduler(&mut self, owner: u32) {
        self.calls.push(DrainCall::ReleaseRadio { owner });
    }
}

struct Vif {
    calls: Vec<TalaVifCall>,
    accept: bool,
}

impl Vif {
    fn new(accept: bool) -> Self {
        Self { calls: Vec::new(), accept }
    }
}

impl TalaVifEffects for Vif {
    fn rts_threshold(&mut self, interface: u8) -> Option<u16> {
        self.calls.push(TalaVifCall::RtsThreshold { interface, threshold: None });
        None
    }

    fn ampdu_length(&mut self, interface: u8) -> Option<u16> {
        self.calls.push(TalaVifCall::AmpduLength { interface, length: Some(16) });
        Some(16)
    }

    fn set_ampdu_length(&mut self, interface: u8, length: u16) -> bool {
        self.calls.push(TalaVifCall::SetAmpduLength { interface, length, accepted: self.accept });
        self.accept
    }
}

const BA_PIPE: u32 = 0x0400_7700;
const FIRST: u32 = 0x0400_9364;
const SECOND: u32 = 0x0400_9500;

fn node(context: u32) -> u32 {
    context + 0x54
}

fn ring_of(contexts: &[u32]) -> CompletionRing {
    let mut ring = CompletionRing::new();
    for context in contexts {
        ring.enqueue(FrameNodeAddress::new(node(*context)));
    }
    ring
}

#[test]
fn drain_hands_back_every_queued_frame_in_order_and_empties_the_ring() {
    let mut memory = Memory::new();
    memory.set(FIRST + 0x70, 0);
    memory.set(FIRST + 0x98, 0x0123_4567);
    memory.set(FIRST + 0xbd, 5);
    memory.set(SECOND + 0x70, 7);
    memory.set(SECOND + 0xbd, 5);
    memory.set(ACTIVE_PAS_CONTEXTS, 4);
    let mut ring = ring_of(&[FIRST, SECOND]);
    let mut effects = Effects::new(false, false);

    assert!(service_completion_drain(&mut memory, &mut ring, &mut effects, &mut Vif::new(true)));

    assert_eq!(effects.completed(), vec![node(FIRST), node(SECOND)]);
    assert_eq!(ring.cursors(), (2, 2));
    assert_eq!(memory.get(FIRST + 0x26), 0x4567);
    assert_eq!(memory.get(FIRST + 0x80), 0x8000);
    assert_eq!(memory.get(SECOND + 0x80), 0x8000);
    assert_eq!(memory.get(ACTIVE_PAS_CONTEXTS), 2);
    assert_eq!(
        effects.calls.last(),
        Some(&DrainCall::CompleteContext { frame_node: node(SECOND), status: 7 })
    );
}

#[test]
fn drain_of_an_empty_ring_only_settles_the_end() {
    let mut memory = Memory::new();
    memory.set(ACTIVE_PAS_CONTEXTS, 0);
    memory.set(DEFERRED_RADIO_OWNER, 0x0400_7777);
    let mut ring = CompletionRing::new();
    let mut effects = Effects::new(false, true);

    assert!(service_completion_drain(&mut memory, &mut ring, &mut effects, &mut Vif::new(true)));

    assert_eq!(
        effects.calls,
        vec![
            DrainCall::IdlePolicyEnabled { enabled: true },
            DrainCall::StartPhyOperation7,
            DrainCall::ReleaseRadio { owner: 0x0400_7777 },
        ]
    );
}

#[test]
fn failed_ampdu_member_is_counted_and_reported() {
    let mut memory = Memory::new();
    memory.set(FIRST + 0x58, 0x0010_0060);
    memory.set(FIRST + 0x5c, 0x0100);
    memory.set(FIRST + 0xbd, 1);
    memory.set(AMPDU_TX_DURATION_LOW, 0xffff_ff80);
    memory.set(AMPDU_TX_DURATION_HIGH, 2);
    memory.set(AMPDU_TX_COUNTED_FRAMES, 9);
    memory.set(AMPDU_TX_ERROR_FRAMES, 3);
    memory.set(LMC_MESSAGE_CONTROL, 1);
    memory.set(ACTIVE_PAS_CONTEXTS, 1);
    let mut ring = ring_of(&[FIRST]);
    let mut effects = Effects::new(true, false);

    assert!(service_completion_drain(&mut memory, &mut ring, &mut effects, &mut Vif::new(true)));

    assert_eq!(memory.get(AMPDU_TX_DURATION_LOW), 0x80);
    assert_eq!(memory.get(AMPDU_TX_DURATION_HIGH), 3);
    assert_eq!(memory.get(AMPDU_TX_COUNTED_FRAMES), 10);
    assert_eq!(memory.get(AMPDU_TX_ERROR_FRAMES), 4);
    assert_eq!(
        effects.calls,
        vec![
            DrainCall::MessagesEnabled { enabled: true },
            DrainCall::SendCompletionMessage { frame_node: node(FIRST), interface: 1 },
            DrainCall::AdjustTxBusy { interface: 1 },
            DrainCall::PowerSaveCompletion { frame_node: node(FIRST) },
            DrainCall::CompleteContext { frame_node: node(FIRST), status: 0 },
            DrainCall::IdlePolicyEnabled { enabled: false },
        ]
    );
}

#[test]
fn failed_frame_on_a_block_ack_interface_marks_its_session() {
    let mut memory = Memory::new();
    memory.set(FIRST + 0x70, 0x0b);
    memory.set(FIRST + 0xbd, 2);
    memory.set(PAS_CONTENTION_WINDOWS + 2 * PAS_STRIDE + PAS_MODE, 2);
    memory.set(LOW_MAC_OPTIONAL_PIPE_OBJECT_WORD, 1);
    memory.set(FIRST + 0x54, 0x0901_4fe8);
    memory.set(ACTIVE_PAS_CONTEXTS, 3);
    let mut ring = ring_of(&[FIRST]);
    let mut effects = Effects::new(false, false);

    assert!(service_completion_drain(&mut memory, &mut ring, &mut effects, &mut Vif::new(true)));

    assert_eq!(
        effects.calls,
        vec![
            DrainCall::FindPipeByMacUpper { mac_upper: 0x0901_4fec, pipe: Some(BA_PIPE) },
            DrainCall::AdjustTxBusy { interface: 2 },
            DrainCall::CompleteContext { frame_node: node(FIRST), status: 0x0b },
        ]
    );
    assert_eq!(memory.get(BA_PIPE), 5);
}

#[test]
fn class_zero_frames_but_the_last_of_an_aggregate_are_flagged() {
    let mut memory = Memory::new();
    memory.set(AMPDU_COMPLETION_CONTROL, 1);
    memory.set(FIRST + 0x53, 0);
    memory.set(SECOND + 0x53, 0);
    memory.set(FIRST + 0xbd, 5);
    memory.set(SECOND + 0xbd, 5);
    memory.set(FIRST + 0x98, 0x0001);
    memory.set(SECOND + 0x98, 0x0001);
    memory.set(ACTIVE_PAS_CONTEXTS, 2);
    let mut ring = ring_of(&[FIRST, SECOND]);
    let mut effects = Effects::new(false, false);

    assert!(service_completion_drain(&mut memory, &mut ring, &mut effects, &mut Vif::new(true)));

    assert_eq!(memory.get(FIRST + 0x26), 0x0021);
    assert_eq!(memory.get(SECOND + 0x26), 0x0001);
    assert_eq!(effects.completed(), vec![node(FIRST), node(SECOND)]);
}

#[test]
fn refused_ampdu_length_stops_the_drain_at_its_frame() {
    let mut memory = Memory::new();
    memory.set(FIRST + 0xbd, 5);
    memory.set(ACTIVE_PAS_CONTEXTS, 2);
    let mut ring = ring_of(&[FIRST, SECOND]);
    let mut effects = Effects::new(false, true);
    let mut vif = Vif::new(false);

    assert!(!service_completion_drain(&mut memory, &mut ring, &mut effects, &mut vif));

    assert!(effects.calls.is_empty());
    assert_eq!(ring.cursors(), (1, 2));
    assert_eq!(
        vif.calls.last(),
        Some(&TalaVifCall::SetAmpduLength { interface: 5, length: 0, accepted: false })
    );
    assert_eq!(memory.get(ACTIVE_PAS_CONTEXTS), 2);
}

#[test]
fn every_drained_frame_adapts_its_interface_length() {
    let mut memory = Memory::new();
    memory.set(FIRST + 0xbd, 1);
    memory.set(SECOND + 0xbd, 1);
    memory.set(ACTIVE_PAS_CONTEXTS, 2);
    let mut ring = ring_of(&[FIRST, SECOND]);
    let mut effects = Effects::new(false, false);
    let mut vif = Vif::new(true);

    assert!(service_completion_drain(&mut memory, &mut ring, &mut effects, &mut vif));

    let sets = vif.calls.iter().filter(|call| matches!(call, TalaVifCall::SetAmpduLength { .. })).count();
    assert_eq!(sets, 2);
}
