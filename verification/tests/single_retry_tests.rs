use xr819_tx::context::{FrameNodeAddress, FRAME_NODE_OFFSET, HOST_TX_CONTEXTS};
use xr819_tx::mmio::MacPipeMmio;
use xr819_tx::plans::SingleTxRetryDecision;
use xr819_tx::probe_backend::SingleProbeMacBackend;
use xr819_tx::rate_retry::{RateCall, RatePolicy, RateRetryStep};
use xr819_tx::registers::slot_record_address;

struct Memory {
    values: Vec<(u32, u32)>,
}

impl Memory {
    fn new() -> Self {
        Self { values: Vec::new() }
    }

    fn set(&mut self, address: u32, value: u32) {
        self.values.push((address, value));
    }

    fn get(&self, address: u32) -> u32 {
        self.values.iter().rev().find(|(stored, _)| *stored == address).map(|(_, v)| *v).unwrap_or(0)
    }
}

impl MacPipeMmio for Memory {
    fn read_u8(&mut self, address: u32) -> u8 {
        self.get(address) as u8
    }

    fn read_u16(&mut self, address: u32) -> u16 {
        self.get(address) as u16
    }

    fn read_u32(&mut self, address: u32) -> u32 {
        self.get(address)
    }

    fn write_u8(&mut self, address: u32, value: u8) {
        self.set(address, u32::from(value));
    }

    fn write_u16(&mut self, address: u32, value: u16) {
        self.set(address, u32::from(value));
    }

    fn write_u32(&mut self, address: u32, value: u32) {
        self.set(address, value);
    }
}

struct Rates {
    calls: Vec<RateCall>,
    exists: bool,
    step: RateRetryStep,
}

impl RatePolicy for Rates {
    fn policy_exists(&mut self, policy: u8) -> bool {
        self.calls.push(RateCall::PolicyExists { policy, exists: self.exists });
        self.exists
    }

    fn retry_step(&mut self, policy: u8, rate: u8, try_count: u16, long_frame: bool) -> RateRetryStep {
        self.calls.push(RateCall::RetryStep { policy, rate, try_count, long_frame, step: self.step });
        self.step
    }
}

const CONTEXT: u32 = HOST_TX_CONTEXTS;

fn node() -> FrameNodeAddress {
    FrameNodeAddress::new(CONTEXT + FRAME_NODE_OFFSET)
}

fn rates(exists: bool, step: RateRetryStep) -> Rates {
    Rates { calls: Vec::new(), exists, step }
}

#[test]
fn aggregate_slot_waits_for_its_block_ack() {
    let mut memory = Memory::new();
    let slot = slot_record_address(1, 2);
    memory.set(slot, 1);
    let mut backend = SingleProbeMacBackend::new(3);
    let mut rates = rates(true, RateRetryStep::GiveUp);

    let decision = backend.decide_single_retry(&mut memory, &mut rates, 1, slot, node());

    assert_eq!(decision, SingleTxRetryDecision::AwaitBlockAck);
    assert!(rates.calls.is_empty());
}

#[test]
fn frame_outside_the_host_pool_takes_the_bounded_decision() {
    let mut memory = Memory::new();
    let slot = slot_record_address(0, 0);
    let mut backend = SingleProbeMacBackend::new(1);
    let mut rates = rates(true, RateRetryStep::GiveUp);
    let internal = FrameNodeAddress::new(0x0400_9084 + FRAME_NODE_OFFSET);

    assert_eq!(
        backend.decide_single_retry(&mut memory, &mut rates, 0, slot, internal),
        SingleTxRetryDecision::Rearm
    );
    assert_eq!(
        backend.decide_single_retry(&mut memory, &mut rates, 0, slot, internal),
        SingleTxRetryDecision::GiveUp
    );
    assert!(rates.calls.is_empty());
}

#[test]
fn policy_rearm_at_a_new_rate_counts_the_try_and_marks_the_frame() {
    let mut memory = Memory::new();
    let slot = slot_record_address(2, 1);
    memory.set(CONTEXT + 0x63, 10);
    memory.set(CONTEXT + 0x2c, 0x0000_0300);
    memory.set(CONTEXT + 0x62, 5);
    memory.set(CONTEXT + 0x72, 2);
    let mut backend = SingleProbeMacBackend::new(3);
    let mut rates = rates(true, RateRetryStep::Rearm { rate: 9 });

    let decision = backend.decide_single_retry(&mut memory, &mut rates, 2, slot, node());

    assert_eq!(decision, SingleTxRetryDecision::Rearm);
    assert_eq!(memory.get(CONTEXT + 0x2c), 0x0000_0400);
    assert_eq!(memory.get(CONTEXT + 0x63), 9);
    assert_eq!(memory.get(CONTEXT + 0x58), 0x0008_0010);
    assert_eq!(memory.get(CONTEXT + 0x72), 3);
    assert_eq!(
        rates.calls,
        vec![
            RateCall::PolicyExists { policy: 5, exists: true },
            RateCall::RetryStep { policy: 5, rate: 10, try_count: 2, long_frame: false, step: RateRetryStep::Rearm { rate: 9 } },
        ]
    );
}

#[test]
fn policy_give_up_leaves_the_frame_and_retry_state() {
    let mut memory = Memory::new();
    let slot = slot_record_address(2, 1);
    memory.set(CONTEXT + 0x63, 2);
    memory.set(CONTEXT + 0x58, 0x0000_0200);
    let mut backend = SingleProbeMacBackend::new(0);
    let mut rates = rates(true, RateRetryStep::GiveUp);

    let decision = backend.decide_single_retry(&mut memory, &mut rates, 2, slot, node());

    assert_eq!(decision, SingleTxRetryDecision::GiveUp);
    assert_eq!(memory.get(CONTEXT + 0x28), 0x0000_0100);
    assert_eq!(
        rates.calls.last(),
        Some(&RateCall::RetryStep { policy: 0, rate: 2, try_count: 0, long_frame: true, step: RateRetryStep::GiveUp })
    );
}

#[test]
fn missing_policy_takes_the_bounded_decision() {
    let mut memory = Memory::new();
    let slot = slot_record_address(3, 3);
    memory.set(CONTEXT + 0x63, 0);
    let mut backend = SingleProbeMacBackend::new(0);
    let mut rates = rates(false, RateRetryStep::GiveUp);

    let decision = backend.decide_single_retry(&mut memory, &mut rates, 3, slot, node());

    assert_eq!(decision, SingleTxRetryDecision::GiveUp);
    assert_eq!(rates.calls, vec![RateCall::PolicyExists { policy: 0, exists: false }]);
    assert_eq!(memory.get(CONTEXT + 0x28), 1);
}
