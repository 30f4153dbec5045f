use xr819_tx::context::FrameNodeAddress;
use xr819_tx::event_loop::{
    execute_popped_single_outstanding_event, service_mac_event_backend, MacEventBackend,
    PoppedMacEventEffects,
};
use xr819_tx::mac_event::{
    MacEvent, MacEventEffect, MacEventLoopReport, MacEventStopReason, SchedulerWord,
};
use xr819_tx::live_slot::{release_aggregate_retry_command_mask, LiveTxSlot};
use xr819_tx::mac_effects::{capture_mac_fatal_postmortem, execute_mac_beacon_event};
use xr819_tx::mac_event::MacFatalPostmortem;
use xr819_tx::mmio::MacPipeMmio;
use xr819_tx::packet_ram::tx_command;
use xr819_tx::pipe_exec::{
    advance_pipe_slot, claim_scheduler_mask, current_slot_address, hardware_pipe_cursor,
    pipe_cursor_diagnostic, resync_pipe_cursor,
};
use xr819_tx::plans::{BoundedSingleTxRetry, SingleTxRetryDecision};
use xr819_tx::rearm::{
    execute_fixed_rate_single_frame_rearm, SingleFrameRearmBackend, SingleFrameRearmOutcome,
};
use xr819_tx::registers::{
    duration_quantum_pointer, pipe_state_address, LOW_MAC_ACTIVE_TX_COUNT, LOW_MAC_CONTROLLER_CONFIG,
    LOW_MAC_OPTIONAL_PIPE_OBJECT_WORD, MAC_BEACON_CONTROL_STATE, MAC_BEACON_SECONDARY_COMMAND,
    MAC_BEACON_TIMER, MAC_EVENT_READINESS, slot_record_address, tx_ring_register, TxDescriptorAddress,
    TxDescriptorLayout, TxHardwareRingAddress, TxHardwareRingLayout, LOW_MAC_PIPE_BUSY,
    LOW_MAC_SLOT_TIME_BASE, LOW_MAC_SLOT_TIME_INITIAL, MAC_CURRENT_PIPE, MAC_CURRENT_PIPE_RECORD,
    MAC_CURRENT_SLOT, MAC_RETRY_HARDWARE_STATE, MAC_RETRY_RATES, PAS_CONTENTION_WINDOWS,
    PIPE_IRQ_PENDING, PIPE_IRQ_TRIGGER, PIPE_QUANTUM, PIPE_RETRY_INACTIVE_SENTINEL,
    PIPE_RETRY_RANDOM_STATS, RETRY_RANDOM_LFSR, TX_DURATION_TIMINGS,
};
use xr819_tx::retry_exec::{
    execute_single_outstanding_tx_retry, SingleTxRetryBackend, SingleTxRetryOutcome,
};
use xr819_tx::service_exec::{execute_mac_pipe_service, TxPolicy};
use xr819_tx::staged::finalize_staged_pipe;
use xr819_tx::timer_list::{insert_scheduler_timer_list, unlink_scheduler_timer_list};

struct MockPipeMmio {
    values: Vec<(u32, u32)>,
    writes: Vec<(u32, u32)>,
}

impl MockPipeMmio {
    fn new() -> Self {
        Self { values: Vec::new(), writes: Vec::new() }
    }

    fn set(&mut self, address: u32, value: u32) {
        self.values.push((address, value));
    }

    fn get(&self, address: u32) -> u32 {
        self.values
            .iter()
            .rev()
            .find(|(stored, _)| *stored == address)
            .map(|(_, value)| *value)
            .unwrap_or(0)
    }

    fn write_count(&self) -> usize {
        self.writes.len()
    }
}

impl MacPipeMmio for MockPipeMmio {
    fn read_u8(&mut self, address: u32) -> u8 {
        self.get(address) as u8
    }

    fn read_u16(&mut self, address: u32) -> u16 {
        self.get(address) as u16
    }

    fn read_u32(&mut self, address: u32) -> u32 {
        self.get(address)
    }

    fn write_u8(&mut self, address: u32, value: u8) {
        self.set(address, u32::from(value));
    }

    fn write_u16(&mut self, address: u32, value: u16) {
        self.set(address, u32::from(value));
    }

    fn write_u32(&mut self, address: u32, value: u32) {
        self.writes.push((address, value));
        self.set(address, value);
    }
}

struct MockTxPolicy {
    calls: Vec<(u8, u32, u32)>,
}

impl TxPolicy for MockTxPolicy {
    fn program_random_backoff(&mut self, pipe: u8, backoff_word: u32, pas: u32) {
        self.calls.push((pipe, backoff_word, pas));
    }
}

struct MockRetryBackend {
    decision: SingleTxRetryDecision,
    decided: Option<(u8, u32, FrameNodeAddress)>,
    rearmed: Option<(u8, u32, FrameNodeAddress, u32)>,
    completed: Option<(u8, FrameNodeAddress, u32, u16)>,
}

impl MockRetryBackend {
    fn new(decision: SingleTxRetryDecision) -> Self {
        Self { decision, decided: None, rearmed: None, completed: None }
    }
}

impl SingleTxRetryBackend for MockRetryBackend {
    fn decide_retry(
        &mut self,
        pipe: u8,
        slot: u32,
        frame_node: FrameNodeAddress,
    ) -> SingleTxRetryDecision {
        self.decided = Some((pipe, slot, frame_node));
        self.decision
    }

    fn rearm_and_ack(&mut self, pipe: u8, slot: u32, frame_node: FrameNodeAddress, pending_mask: u32) {
        self.rearmed = Some((pipe, slot, frame_node, pending_mask));
    }

    fn complete_success(&mut self, pipe: u8, frame_node: FrameNodeAddress, slot: u32) {
        self.completed = Some((pipe, frame_node, slot, 0));
    }

    fn complete_give_up(&mut self, pipe: u8, frame_node: FrameNodeAddress, slot: u32, status: u16) {
        self.completed = Some((pipe, frame_node, slot, status));
    }

    fn fatal_unsupported_multi_slot_retry(
        &mut self,
        _pipe: u8,
        _slot: u32,
        _frame_node: FrameNodeAddress,
    ) {
        panic!("unexpected multi-slot retry")
    }
}

struct MockRearmBackend {
    rebuilt: bool,
}

impl SingleFrameRearmBackend for MockRearmBackend {
    fn rebuild_rate_descriptor(&mut self, _pipe: u8, _slot: u32, _frame_node: FrameNodeAddress) {
        self.rebuilt = true;
    }

    fn fatal_unsupported_rearm_shape(&mut self, _pipe: u8, _slot: u32, _frame_node: FrameNodeAddress) {
        panic!("unsupported rearm shape")
    }
}

struct MockMacEventBackend {
    events: Vec<i32>,
    event_index: usize,
    readiness: i32,
    readiness_reads: u32,
    effects: Vec<MacEventEffect>,
    drain_tails: u32,
}

impl MockMacEventBackend {
    fn new(events: &[i32], readiness: i32) -> Self {
        Self {
            events: events.to_vec(),
            event_index: 0,
            readiness,
            readiness_reads: 0,
            effects: Vec::new(),
            drain_tails: 0,
        }
    }
}

impl MacEventBackend for MockMacEventBackend {
    fn pop_event(&mut self) -> i32 {
        let event = if self.event_index < self.events.len() {
            self.events[self.event_index]
        } else {
            -1
        };
        self.event_index += 1;
        event
    }

    fn readiness(&mut self) -> i32 {
        self.readiness_reads += 1;
        self.readiness
    }

    fn apply_effect(&mut self, _event: MacEvent, effect: MacEventEffect) {
        self.effects.push(effect);
    }

    fn drain_tail(&mut self) {
        self.drain_tails += 1;
    }
}

struct MockPoppedEventEffects {
    log: Vec<u8>,
    service_scheduler: Option<SchedulerWord>,
    status_scheduler: Option<SchedulerWord>,
}

impl PoppedMacEventEffects for MockPoppedEventEffects {
    fn trace(&mut self, _event: MacEvent) {
        self.log.push(1);
    }

    fn fatal(&mut self, _event: MacEvent) {
        self.log.push(0xfa);
    }

    fn pipe_phase(&mut self, _event: MacEvent, _event_type: u8, _phase: u8, _latch: Option<u8>) {
        self.log.push(2);
    }

    fn capture_scheduler_word(&mut self) -> SchedulerWord {
        self.log.push(3);
        SchedulerWord::new(0x1234_5678)
    }

    fn pipe_service(&mut self, _event: MacEvent, saved_scheduler_word: SchedulerWord) {
        self.log.push(4);
        self.service_scheduler = Some(saved_scheduler_word);
    }

    fn tx_status(
        &mut self,
        _event: MacEvent,
        _status: u8,
        _pipe_service_escalation: bool,
        saved_scheduler_word: SchedulerWord,
    ) {
        self.log.push(5);
        self.status_scheduler = Some(saved_scheduler_word);
    }

    fn beacon(&mut self, _event: MacEvent) {
        self.log.push(6);
    }

    fn sideband(&mut self, _event: MacEvent) {
        self.log.push(7);
    }

    fn archive(&mut self, _event: MacEvent) {
        self.log.push(8);
    }
}

#[test]
fn mac_pipe_service_executor_preserves_pointer_and_low_nibble_order() {
    let mut mmio = MockPipeMmio::new();
    mmio.set(MAC_CURRENT_PIPE, 2);
    mmio.set(pipe_state_address(2) + 2, 1);
    let current_slot = current_slot_address(&mut mmio, 2);
    mmio.set(current_slot + 0x0c, 0x1234);
    mmio.set(current_slot + 0x14, 0x5678);
    let mut policy = MockTxPolicy { calls: Vec::new() };

    execute_mac_pipe_service(&mut mmio, SchedulerWord::new(0x0f), &mut policy);

    assert_eq!(mmio.writes[0], (MAC_CURRENT_PIPE_RECORD, pipe_state_address(2)));
    assert_eq!(mmio.writes[1], (MAC_CURRENT_SLOT, pipe_state_address(2) + 0x0c + 0x18));
    assert_eq!(policy.calls.len(), 3);
    assert_eq!(policy.calls[0].0, 0);
    assert_eq!(policy.calls[1].0, 1);
    assert_eq!(policy.calls[2].0, 2);
    assert_eq!(policy.calls[2], (2, 0x5678, 0x1234));
    assert_eq!(mmio.writes[2], (PIPE_IRQ_TRIGGER, 0x1e00_0000));
    assert_eq!(mmio.writes[3], (PIPE_IRQ_PENDING, !0x0f_u32));
}

#[test]
fn mac_pipe_service_executor_middle_publishes_quantum_before_ack() {
    let mut mmio = MockPipeMmio::new();
    mmio.set(MAC_CURRENT_PIPE, 0);
    let selected = 3;
    let selected_state = pipe_state_address(selected);
    mmio.set(selected_state + 2, 2);
    mmio.set(duration_quantum_pointer(3), 0x1234);
    let mut policy = MockTxPolicy { calls: Vec::new() };

    execute_mac_pipe_service(&mut mmio, SchedulerWord::new(0x0080), &mut policy);

    assert_eq!(mmio.writes[2], (0x1234, PIPE_QUANTUM));
    assert_eq!(mmio.writes[3], (PIPE_IRQ_TRIGGER, 1 << 28));
    assert_eq!(mmio.writes[4], (MAC_CURRENT_PIPE_RECORD, selected_state));
    assert_eq!(mmio.writes[5], (MAC_CURRENT_SLOT, selected_state + 0x0c + 2 * 0x18));
    assert_eq!(mmio.writes[6], (PIPE_IRQ_PENDING, !0x80_u32));
    assert_eq!(policy.calls.len(), 0);
}

#[test]
fn advance_pipe_slot_retires_armed_pipe_to_last_plus_one() {
    let mut mmio = MockPipeMmio::new();
    let pipe_state = pipe_state_address(2);
    mmio.set(pipe_state, 1);
    mmio.set(pipe_state + 1, 2);
    mmio.set(pipe_state + 3, 1);
    mmio.set(pipe_state + 6, 7);
    let ring = tx_ring_register(2);
    mmio.set(pipe_state + 8, ring);
    mmio.set(ring + 0x20, 0x8000_000f | (1 << 24) | (1 << 27));

    assert_eq!(advance_pipe_slot(&mut mmio, 2), Some(true));

    assert_eq!(mmio.get(pipe_state + 3), 0);
    assert_eq!(mmio.get(pipe_state + 6), 8);
    assert_eq!(mmio.get(ring + 0x18), PIPE_RETRY_INACTIVE_SENTINEL);
    assert_eq!(mmio.get(PIPE_IRQ_PENDING), 0_u32.wrapping_sub(0x4450));
    assert_eq!(mmio.get(ring + 0x20), 0x8000_000f | (3 << 24) | (3 << 27));
}

#[test]
fn advance_pipe_slot_on_idle_pipe_republishes_producer() {
    let mut mmio = MockPipeMmio::new();
    let pipe_state = pipe_state_address(0);
    mmio.set(pipe_state, 2);
    mmio.set(pipe_state + 1, 3);
    mmio.set(pipe_state + 3, 0);
    mmio.set(pipe_state + 6, 0xff);
    let ring = tx_ring_register(0);
    mmio.set(pipe_state + 8, ring);

    assert_eq!(advance_pipe_slot(&mut mmio, 0), Some(false));

    assert_eq!(mmio.get(pipe_state + 6), 0xff);
    assert_eq!(mmio.get(ring + 0x20), (2 << 24) | (2 << 27));
}

#[test]
fn advance_pipe_slot_rejects_a_foreign_ring_before_any_write() {
    let mut mmio = MockPipeMmio::new();
    let pipe_state = pipe_state_address(2);
    mmio.set(pipe_state + 8, tx_ring_register(1));

    assert_eq!(advance_pipe_slot(&mut mmio, 2), None);
    assert!(!resync_pipe_cursor(&mut mmio, 2));
    assert_eq!(mmio.write_count(), 0);
}

#[test]
fn hardware_ring_view_matches_cursor_and_sentinel_offsets() {
    let ring = TxHardwareRingAddress::new(0x9000);
    assert_eq!(core::mem::size_of::<TxHardwareRingLayout>(), 0x24);
    assert_eq!(ring.raw(), 0x9000);
    assert_eq!(ring.duration_fifo(), 0x9000);
    assert_eq!(ring.diagnostic_word_0c(), 0x900c);
    assert_eq!(ring.diagnostic_word_10(), 0x9010);
    assert_eq!(ring.go(), 0x9014);
    assert_eq!(ring.inactive_sentinel(), 0x9018);
    assert_eq!(ring.completion_word(), 0x901c);
    assert_eq!(ring.cursor_and_pending_mask(), 0x9020);
    let descriptor = TxDescriptorAddress::new(0xa000);
    assert_eq!(core::mem::size_of::<TxDescriptorLayout>(), 12);
    assert_eq!(descriptor.raw(), 0xa000);
    assert_eq!(descriptor.command(), 0xa000);
    assert_eq!(descriptor.flags(), 0xa004);
    assert_eq!(descriptor.duration(), 0xa008);
}

#[test]
fn hardware_ring_identity_is_exact_for_each_pipe() {
    for pipe in 0..4 {
        let expected = tx_ring_register(pipe);
        assert_eq!(
            TxHardwareRingAddress::for_pipe(pipe, expected),
            Some(TxHardwareRingAddress::new(expected)),
        );
        assert_eq!(TxHardwareRingAddress::for_pipe(pipe, expected + 0x80), None);
    }
    assert_eq!(TxHardwareRingAddress::for_pipe(4, tx_ring_register(0)), None);
}

#[test]
fn resync_pipe_cursor_matches_vendor_invariant_and_keeps_mask() {
    let mut mmio = MockPipeMmio::new();
    let pipe_state = pipe_state_address(1);
    mmio.set(pipe_state, 3);
    let ring = tx_ring_register(1);
    mmio.set(pipe_state + 8, ring);
    mmio.set(ring + 0x20, 0xc000_00aa | (1 << 24) | (1 << 27));

    assert!(resync_pipe_cursor(&mut mmio, 1));

    let word = mmio.get(ring + 0x20);
    assert_eq!(word & 0x00ff_ffff, 0xaa);
    assert_eq!(word & 0xc000_0000, 0xc000_0000);
    assert_eq!((word & 0x3fff_ffff) >> 27, mmio.get(pipe_state));
    assert_eq!((word >> 24) & 7, 3);
}

#[test]
fn resync_pipe_cursor_ignores_unprogrammed_ring() {
    let mut mmio = MockPipeMmio::new();
    resync_pipe_cursor(&mut mmio, 3);
    assert_eq!(mmio.write_count(), 0);
}

#[test]
fn single_retry_inactive_pipe_marks_selected_commands_before_ack() {
    let mut mmio = MockPipeMmio::new();
    mmio.set(MAC_CURRENT_PIPE, 1);
    mmio.set(pipe_state_address(1) + 2, 0);
    let slot = current_slot_address(&mut mmio, 1);
    mmio.set(slot + 3, 3);
    let ring_1 = tx_ring_register(1);
    let ring_3 = tx_ring_register(3);
    mmio.set(pipe_state_address(1) + 8, ring_1);
    mmio.set(pipe_state_address(3) + 8, ring_3);
    let mut backend = MockRetryBackend::new(SingleTxRetryDecision::GiveUp);

    let outcome =
        execute_single_outstanding_tx_retry(&mut mmio, SchedulerWord::new(0x0a00), &mut backend);

    assert_eq!(outcome, SingleTxRetryOutcome::InactivePipeAcknowledged);
    assert_eq!(mmio.writes[0], (MAC_CURRENT_PIPE_RECORD, pipe_state_address(1)));
    assert_eq!(mmio.writes[1], (MAC_CURRENT_SLOT, slot));
    assert_eq!(mmio.get(slot + 3), 4);
    assert_eq!(mmio.get(LOW_MAC_PIPE_BUSY), 1);
    assert_eq!(mmio.writes[2], (ring_1 + 0x18, PIPE_RETRY_INACTIVE_SENTINEL));
    assert_eq!(mmio.writes[3], (ring_3 + 0x18, PIPE_RETRY_INACTIVE_SENTINEL));
    assert_eq!(mmio.writes[4], (PIPE_IRQ_PENDING, 0xffff_fdff));
    assert_eq!(backend.decided, None);
}

#[test]
fn single_retry_give_up_completes_before_command_and_ack() {
    let mut mmio = MockPipeMmio::new();
    mmio.set(MAC_CURRENT_PIPE, 0);
    let pipe_state = pipe_state_address(0);
    mmio.set(pipe_state + 1, 0);
    mmio.set(pipe_state + 2, 0);
    mmio.set(pipe_state + 3, 1);
    mmio.set(pipe_state + 5, 0);
    let ring = tx_ring_register(0);
    mmio.set(pipe_state + 8, ring);
    let slot = current_slot_address(&mut mmio, 0);
    mmio.set(slot + 1, 4);
    mmio.set(slot + 3, 3);
    mmio.set(slot + 0x0c, 0x0400_90d8);
    let mut backend = MockRetryBackend::new(SingleTxRetryDecision::GiveUp);

    let outcome =
        execute_single_outstanding_tx_retry(&mut mmio, SchedulerWord::new(0x0100), &mut backend);

    assert_eq!(outcome, SingleTxRetryOutcome::GivenUp);
    assert_eq!(backend.completed, Some((0, FrameNodeAddress::new(0x0400_90d8), slot, 0x0b)));
    assert_eq!(mmio.get(PIPE_IRQ_TRIGGER), 1 << 25);
    assert_eq!(mmio.get(ring + 0x1c), 1);
    assert_eq!(mmio.get(pipe_state), 1);
    assert_eq!(mmio.get(pipe_state + 2), 1);
    assert_eq!(mmio.get(pipe_state + 3), 0);
    assert_eq!(mmio.get(pipe_state + 4), 0);
    assert_eq!(mmio.get(pipe_state + 5), 5);
    assert_eq!(mmio.get(PIPE_IRQ_PENDING), 0xffff_fef0);
}

#[test]
fn block_ack_success_keeps_the_selected_pipe_through_completion() {
    let mut mmio = MockPipeMmio::new();
    mmio.set(MAC_CURRENT_PIPE, 2);
    let pipe_state = pipe_state_address(2);
    mmio.set(pipe_state + 1, 0);
    mmio.set(pipe_state + 2, 0);
    mmio.set(pipe_state + 3, 1);
    mmio.set(pipe_state + 5, 0);
    let ring = tx_ring_register(2);
    mmio.set(pipe_state + 8, ring);
    let slot = current_slot_address(&mut mmio, 2);
    mmio.set(slot + 1, 4);
    mmio.set(slot + 3, 3);
    mmio.set(slot + 0x0c, 0x0400_90d8);
    let mut backend = MockRetryBackend::new(SingleTxRetryDecision::CompleteSuccess);

    let outcome =
        execute_single_outstanding_tx_retry(&mut mmio, SchedulerWord::new(0x0400), &mut backend);

    assert_eq!(outcome, SingleTxRetryOutcome::Completed);
    assert_eq!(backend.completed, Some((2, FrameNodeAddress::new(0x0400_90d8), slot, 0)));
    assert_eq!(mmio.get(PIPE_IRQ_TRIGGER), 1 << 27);
    assert_eq!(mmio.get(ring + 0x1c), 1);
    assert_eq!(mmio.get(pipe_state + 2), 1);
    assert_eq!(mmio.get(pipe_state + 3), 0);
    assert_eq!(mmio.get(pipe_state + 4), 0);
    assert_eq!(mmio.get(pipe_state + 5), 5);
    assert_eq!(mmio.get(PIPE_IRQ_PENDING), 0xffff_fbf0);
}

#[test]
fn single_retry_rearm_retains_slot_ownership_for_backend() {
    let mut mmio = MockPipeMmio::new();
    mmio.set(MAC_CURRENT_PIPE, 2);
    let pipe_state = pipe_state_address(2);
    mmio.set(pipe_state + 2, 1);
    mmio.set(pipe_state + 3, 1);
    mmio.set(pipe_state + 5, 1);
    mmio.set(pipe_state + 8, tx_ring_register(2));
    let slot = current_slot_address(&mut mmio, 2);
    mmio.set(slot + 1, 4);
    mmio.set(slot + 3, 3);
    mmio.set(slot + 0x0c, 0x0400_9248);
    let mut backend = MockRetryBackend::new(SingleTxRetryDecision::Rearm);

    let outcome =
        execute_single_outstanding_tx_retry(&mut mmio, SchedulerWord::new(0x0400), &mut backend);

    assert_eq!(outcome, SingleTxRetryOutcome::Rearmed);
    assert_eq!(mmio.get(slot + 3), 4);
    assert_eq!(mmio.get(LOW_MAC_PIPE_BUSY), 1);
    assert_eq!(backend.rearmed, Some((2, slot, FrameNodeAddress::new(0x0400_9248), 0x400)));
    assert_eq!(backend.completed, None);
}

#[test]
fn single_retry_publishes_the_current_slot_then_ignores_an_unowned_mask() {
    let mut mmio = MockPipeMmio::new();
    let mut backend = MockRetryBackend::new(SingleTxRetryDecision::Rearm);

    let outcome =
        execute_single_outstanding_tx_retry(&mut mmio, SchedulerWord::new(0x0000), &mut backend);

    assert_eq!(outcome, SingleTxRetryOutcome::MaskNotOwned);
    assert_eq!(mmio.write_count(), 2);
    assert_eq!(mmio.writes[0], (MAC_CURRENT_PIPE_RECORD, pipe_state_address(0)));
    assert_eq!(mmio.writes[1], (MAC_CURRENT_SLOT, pipe_state_address(0) + 0x0c));
    assert_eq!(backend.decided, None);
    assert_eq!(backend.completed, None);
}

#[test]
fn bounded_single_retry_counts_only_hardware_rearms() {
    let mut retry = BoundedSingleTxRetry::new(2);
    assert_eq!(retry.attempts(), 0);
    assert_eq!(retry.decide(), SingleTxRetryDecision::Rearm);
    assert_eq!(retry.attempts(), 1);
    assert_eq!(retry.decide(), SingleTxRetryDecision::Rearm);
    assert_eq!(retry.attempts(), 2);
    assert_eq!(retry.decide(), SingleTxRetryDecision::GiveUp);
    assert_eq!(retry.attempts(), 2);
    retry.reset();
    assert_eq!(retry.attempts(), 0);

    let mut no_retry = BoundedSingleTxRetry::new(0);
    assert_eq!(no_retry.decide(), SingleTxRetryDecision::GiveUp);
}

#[test]
fn scheduler_claim_clears_only_requested_pending_bits() {
    let mut mmio = MockPipeMmio::new();
    mmio.set(0x0400_1fd4, (1 << 24) | (1 << 20) | (1 << 10));

    assert_eq!(claim_scheduler_mask(&mut mmio, 1 << 20), 1 << 20);
    assert_eq!(mmio.get(0x0400_1fd4), (1 << 24) | (1 << 10));
    assert_eq!(claim_scheduler_mask(&mut mmio, 1 << 20), 0);
    assert_eq!(mmio.get(0x0400_1fd4), (1 << 24) | (1 << 10));
}

fn fixed_rate_setup(
    mmio: &mut MockPipeMmio,
    frame: FrameNodeAddress,
    lfsr: u32,
    window: u32,
    rate: u32,
    timing_index: u32,
    timing: u32,
) {
    mmio.set(frame.raw() + 0x0c, 0);
    mmio.set(frame.raw() + 0x0f, rate);
    mmio.set(frame.raw() + 0x69, 0);
    mmio.set(RETRY_RANDOM_LFSR, lfsr);
    mmio.set(PAS_CONTENTION_WINDOWS, window);
    mmio.set(MAC_RETRY_RATES + rate, timing_index);
    mmio.set(TX_DURATION_TIMINGS + 2 * timing_index, timing);
}

#[test]
fn fixed_rate_rearm_rebuilds_before_clearing_command_mask_and_ack() {
    let mut mmio = MockPipeMmio::new();
    let pipe = 0;
    let pipe_state = pipe_state_address(pipe);
    mmio.set(pipe_state, 0);
    mmio.set(pipe_state + 2, 0);
    let ring = tx_ring_register(pipe);
    mmio.set(pipe_state + 8, ring);
    mmio.set(ring + 0x20, 0x0f);
    let slot = pipe_state + 0x0c;
    mmio.set(slot, 0);
    mmio.set(slot + 1, 0xff);
    mmio.set(slot + 0x14, 0xa000);
    mmio.set(0xa004, 0x20);
    let frame = FrameNodeAddress::new(0x0400_90d8);
    mmio.set(frame.raw() + 4, 0x1018);
    mmio.set(frame.raw() + 0x56, 0xff);
    fixed_rate_setup(&mut mmio, frame, 0x0012_3456, 0x001f, 2, 3, 0x20);
    mmio.set(LOW_MAC_SLOT_TIME_BASE, 2);
    mmio.set(LOW_MAC_SLOT_TIME_INITIAL, 3);
    mmio.set(MAC_RETRY_HARDWARE_STATE, 0);
    let mut backend = MockRearmBackend { rebuilt: false };

    let outcome =
        execute_fixed_rate_single_frame_rearm(&mut mmio, pipe, slot, frame, 0x100, &mut backend);

    assert_eq!(outcome, SingleFrameRearmOutcome::CommandMaskAcknowledged);
    let trigger_index = mmio
        .writes
        .iter()
        .position(|write| *write == (PIPE_IRQ_TRIGGER, 1 << 25))
        .unwrap_or_else(|| panic!("missing retry trigger write"));
    let descriptor_index = mmio
        .writes
        .iter()
        .rposition(|(address, _)| *address == 0xa004)
        .unwrap_or_else(|| panic!("missing rebuilt descriptor write"));
    let command_mask_index = mmio
        .writes
        .iter()
        .position(|(address, _)| *address == ring + 0x20)
        .unwrap_or_else(|| panic!("missing retry command-mask write"));
    assert!(descriptor_index < trigger_index);
    assert!(trigger_index < command_mask_index);
    assert_eq!(mmio.get(0xa000), 0);
    assert_eq!(mmio.get(RETRY_RANDOM_LFSR), 0xb013_1713);
    assert_eq!(mmio.get(PIPE_RETRY_RANDOM_STATS), 0x13);
    assert_eq!(mmio.get(PIPE_RETRY_RANDOM_STATS + 12), 1);
    assert_eq!(mmio.get(frame.raw() + 0x5a), 0x13);
    assert_eq!(mmio.get(0xa004), 0x4d7f);
    assert_eq!(mmio.get(0xa008), 0xd800_2138);
    assert_eq!(mmio.get(ring + 0x20), 0x0e);
    assert_eq!(mmio.get(PIPE_IRQ_PENDING), 0xffff_feff);
    assert!(!backend.rebuilt);
}

#[test]
fn ordinary_batch_retry_keeps_producer_and_clears_only_current_mask_bit() {
    let mut mmio = MockPipeMmio::new();
    let pipe = 0;
    let pipe_state = pipe_state_address(pipe);
    mmio.set(pipe_state, 0);
    mmio.set(pipe_state + 2, 1);
    let ring = tx_ring_register(pipe);
    mmio.set(pipe_state + 8, ring);
    mmio.set(ring + 0x20, 0x0f);
    let slot = pipe_state + 0x0c + 0x18;
    mmio.set(slot, 0);
    mmio.set(slot + 1, 0x11);
    mmio.set(slot + 0x14, 0xa000);
    mmio.set(0xa004, 0x20);
    let frame = FrameNodeAddress::new(0x0400_90d8);
    mmio.set(frame.raw() + 4, 0);
    mmio.set(frame.raw() + 0x56, 0x11);
    fixed_rate_setup(&mut mmio, frame, 0x0012_3456, 0x001f, 2, 3, 0x20);
    mmio.set(LOW_MAC_SLOT_TIME_BASE, 2);
    mmio.set(LOW_MAC_SLOT_TIME_INITIAL, 3);
    mmio.set(MAC_RETRY_HARDWARE_STATE, 0);
    let mut backend = MockRearmBackend { rebuilt: false };

    let outcome =
        execute_fixed_rate_single_frame_rearm(&mut mmio, pipe, slot, frame, 0x100, &mut backend);

    assert_eq!(outcome, SingleFrameRearmOutcome::CommandMaskAcknowledged);
    assert_eq!(mmio.get(pipe_state), 0);
    assert_eq!(mmio.get(pipe_state + 2), 1);
    assert_eq!(mmio.get(ring + 0x20), 0x0d);
    assert_eq!(mmio.get(PIPE_IRQ_PENDING), 0xffff_feff);
    assert!(!backend.rebuilt);
}

#[test]
fn rate_change_rebuilds_phy_descriptor_before_retry_duration() {
    let mut mmio = MockPipeMmio::new();
    let pipe = 0;
    let pipe_state = pipe_state_address(pipe);
    mmio.set(pipe_state, 0);
    mmio.set(pipe_state + 2, 0);
    let ring = tx_ring_register(pipe);
    mmio.set(pipe_state + 8, ring);
    mmio.set(ring + 0x20, 1);
    let slot = pipe_state + 0x0c;
    mmio.set(slot, 0);
    mmio.set(slot + 1, 0xff);
    mmio.set(slot + 0x14, 0xa000);
    mmio.set(0xa004, 0);
    let frame = FrameNodeAddress::new(0x0400_90d8);
    mmio.set(frame.raw() + 4, 0x0008_1018);
    mmio.set(frame.raw() + 0x56, 0xff);
    fixed_rate_setup(&mut mmio, frame, 1, 0, 2, 0, 0);
    mmio.set(MAC_RETRY_HARDWARE_STATE, 0);
    let mut backend = MockRearmBackend { rebuilt: false };

    let outcome =
        execute_fixed_rate_single_frame_rearm(&mut mmio, pipe, slot, frame, 0x100, &mut backend);

    assert_eq!(outcome, SingleFrameRearmOutcome::CommandMaskAcknowledged);
    assert!(backend.rebuilt);
}

#[test]
fn fixed_rate_rearm_hardware_state_uses_matching_payload_sentinel() {
    let mut mmio = MockPipeMmio::new();
    let pipe = 1;
    let pipe_state = pipe_state_address(pipe);
    mmio.set(pipe_state, 3);
    mmio.set(pipe_state + 2, 3);
    let ring = tx_ring_register(pipe);
    mmio.set(pipe_state + 8, ring);
    let slot = pipe_state + 0x0c + 3 * 0x18;
    mmio.set(slot, 0);
    mmio.set(slot + 1, 4);
    mmio.set(slot + 0x14, 0xa000);
    let frame = FrameNodeAddress::new(0x0400_9248);
    mmio.set(frame.raw() + 4, 0x1018);
    mmio.set(frame.raw() + 0x56, 0xff);
    fixed_rate_setup(&mut mmio, frame, 1, 0, 1, 0, 0);
    mmio.set(MAC_RETRY_HARDWARE_STATE, 2);
    let mut backend = MockRearmBackend { rebuilt: false };

    let outcome =
        execute_fixed_rate_single_frame_rearm(&mut mmio, pipe, slot, frame, 0x200, &mut backend);

    assert_eq!(outcome, SingleFrameRearmOutcome::HardwareSentinelAcknowledged);
    assert_eq!(mmio.get(ring + 0x18), 0xff00_ffff);
    assert_eq!(mmio.get(PIPE_IRQ_PENDING), 0xffff_0df0);
}

#[test]
fn mac_event_backend_zero_budget_performs_no_mmio_equivalent_calls() {
    let mut backend = MockMacEventBackend::new(&[0], 0);
    assert_eq!(
        service_mac_event_backend(&mut backend, 0),
        MacEventLoopReport {
            processed: 0,
            stop: MacEventStopReason::BudgetExhausted,
            reschedule_required: true,
        }
    );
    assert_eq!(backend.event_index, 0);
    assert_eq!(backend.readiness_reads, 0);
    assert_eq!(backend.drain_tails, 0);
}

#[test]
fn mac_event_backend_budget_stops_before_readiness_or_next_pop() {
    let raw = (1 << 25) | (2 << 16) | (0x37 << 8);
    let mut backend = MockMacEventBackend::new(&[raw], 0);
    assert_eq!(
        service_mac_event_backend(&mut backend, 1),
        MacEventLoopReport {
            processed: 1,
            stop: MacEventStopReason::BudgetExhausted,
            reschedule_required: true,
        }
    );
    assert_eq!(backend.event_index, 1);
    assert_eq!(backend.readiness_reads, 0);
    assert_eq!(backend.drain_tails, 0);
    assert!(!backend.effects.is_empty());
}

#[test]
fn mac_event_backend_runs_drain_tail_only_after_fifo_empty() {
    let mut backend = MockMacEventBackend::new(&[0], -1);
    assert_eq!(
        service_mac_event_backend(&mut backend, 2),
        MacEventLoopReport { processed: 1, stop: MacEventStopReason::Empty, reschedule_required: false }
    );
    assert_eq!(backend.event_index, 1);
    assert_eq!(backend.readiness_reads, 1);
    assert_eq!(backend.drain_tails, 1);
}

#[test]
fn popped_event_executor_captures_scheduler_once_before_service_and_status() {
    let raw = (1 << 26) | (1 << 25) | (1 << 24) | (1 << 23) | (3 << 16) | (0x37 << 8) | (1 << 7) | 4;
    let event = MacEvent::decode(raw).unwrap_or_else(|| panic!("valid event decoded empty"));
    let mut backend =
        MockPoppedEventEffects { log: Vec::new(), service_scheduler: None, status_scheduler: None };

    execute_popped_single_outstanding_event(event, &mut backend);

    assert_eq!(&backend.log[..], &[1, 2, 3, 4, 5, 6, 7, 8]);
    assert_eq!(backend.service_scheduler, Some(SchedulerWord::new(0x1234_5678)));
    assert_eq!(backend.status_scheduler, backend.service_scheduler);
}

#[test]
fn pipe_cursor_diagnostic_exposes_divergence() {
    let mut mmio = MockPipeMmio::new();
    let pipe_state = pipe_state_address(2);
    mmio.set(pipe_state, 3);
    mmio.set(pipe_state + 1, 2);
    mmio.set(pipe_state + 2, 2);
    mmio.set(pipe_state + 3, 1);
    let ring = tx_ring_register(2);
    mmio.set(pipe_state + 8, ring);
    mmio.set(ring + 0x20, (1 << 24) | (1 << 27));

    let (packed, ring_word) = pipe_cursor_diagnostic(&mut mmio, 2);

    assert_eq!(ring_word, (1 << 24) | (1 << 27));
    assert_eq!(packed & 0x0f, 2);
    assert_eq!((packed >> 4) & 0x0f, 3);
    assert_eq!((packed >> 8) & 0x0f, 2);
    assert_eq!((packed >> 12) & 0x0f, 2);
    assert_eq!((packed >> 16) & 0x0f, 1);
    assert_eq!((packed >> 20) & 0x0f, 1);
    assert_eq!((packed >> 24) & 0x0f, 1);
    assert_ne!((packed >> 4) & 0x0f, (packed >> 24) & 0x0f);
}

#[test]
fn pipe_cursor_diagnostic_of_an_unretained_ring_reports_no_ring_word() {
    let mut mmio = MockPipeMmio::new();
    let pipe_state = pipe_state_address(1);
    mmio.set(pipe_state, 2);
    mmio.set(pipe_state + 8, tx_ring_register(3));
    let (packed, ring_word) = pipe_cursor_diagnostic(&mut mmio, 1);
    assert_eq!(ring_word, 0);
    assert_eq!(packed, 1 | (2 << 4));
    assert_eq!(pipe_cursor_diagnostic(&mut mmio, 6), (6, 0));
}

#[test]
fn hardware_pipe_cursor_distinguishes_missing_foreign_and_own_rings() {
    let mut mmio = MockPipeMmio::new();
    assert_eq!(hardware_pipe_cursor(&mut mmio, 4), Err(()));
    assert_eq!(hardware_pipe_cursor(&mut mmio, 2), Ok(None));
    let pipe_state = pipe_state_address(2);
    mmio.set(pipe_state + 8, tx_ring_register(1));
    assert_eq!(hardware_pipe_cursor(&mut mmio, 2), Err(()));
    let ring = tx_ring_register(2);
    mmio.set(pipe_state + 8, ring);
    mmio.set(ring + 0x20, (7 << 24) | (2 << 27));
    assert_eq!(hardware_pipe_cursor(&mut mmio, 2), Ok(Some(2)));
    assert_eq!(mmio.write_count(), 0);
}

#[test]
fn retry_command_release_requires_complete_live_slot_identity() {
    let mut mmio = MockPipeMmio::new();
    let pipe = 2_u8;
    let current = 1_u8;
    let record = pipe_state_address(pipe);
    let slot = slot_record_address(pipe, current);
    let frame_node = FrameNodeAddress::from_raw(0x0400_9248).unwrap();
    let ring = tx_ring_register(pipe);
    mmio.set(record + 2, u32::from(current));
    mmio.set(record + 8, ring);
    mmio.set(slot, 1);
    mmio.set(slot + 3, 4);
    mmio.set(slot + 0x0c, frame_node.raw());
    mmio.set(slot + 0x14, tx_command(pipe, current));
    mmio.set(ring + 0x20, 0x8000_000f);

    assert_eq!(mmio.get(slot + 0x14), tx_command(pipe, current));
    assert_eq!(FrameNodeAddress::from_raw(mmio.get(slot + 0x0c)), Some(frame_node));
    assert!(LiveTxSlot::from_mmio(&mut mmio, pipe, current, slot, Some(frame_node)).is_some());
    assert_eq!(release_aggregate_retry_command_mask(&mut mmio, pipe, slot, frame_node), Some(true));
    assert_eq!(mmio.get(ring + 0x20), 0x8000_000d);

    mmio.set(ring + 0x20, 0x8000_000f);
    assert_eq!(
        release_aggregate_retry_command_mask(&mut mmio, pipe, slot + 0x18, frame_node),
        None
    );
    assert_eq!(mmio.get(ring + 0x20), 0x8000_000f);

    mmio.set(slot + 0x14, tx_command(0, 0));
    assert_eq!(release_aggregate_retry_command_mask(&mut mmio, pipe, slot, frame_node), None);
    assert_eq!(mmio.get(ring + 0x20), 0x8000_000f);
}

#[test]
fn retry_command_release_leaves_the_mask_when_no_retry_owns_the_command() {
    let mut mmio = MockPipeMmio::new();
    let pipe = 1_u8;
    let record = pipe_state_address(pipe);
    let slot = slot_record_address(pipe, 0);
    let frame_node = FrameNodeAddress::from_raw(0x0400_90d8).unwrap();
    let ring = tx_ring_register(pipe);
    mmio.set(record + 8, ring);
    mmio.set(slot, 1);
    mmio.set(slot + 3, 3);
    mmio.set(slot + 0x0c, frame_node.raw());
    mmio.set(slot + 0x14, tx_command(pipe, 0));
    mmio.set(ring + 0x20, 0x0f);

    assert_eq!(release_aggregate_retry_command_mask(&mut mmio, pipe, slot, frame_node), Some(false));
    assert_eq!(mmio.write_count(), 0);
    assert_eq!(release_aggregate_retry_command_mask(&mut mmio, 4, slot, frame_node), None);
    let other = FrameNodeAddress::from_raw(0x0400_9248).unwrap();
    assert_eq!(LiveTxSlot::from_mmio(&mut mmio, pipe, 0, slot, Some(other)), None);
}

#[test]
fn scheduler_timer_list_preserves_deadline_order_and_backlinks() {
    let mut mmio = MockPipeMmio::new();
    let first = 0x1000;
    let second = 0x2000;
    let inserted = 0x1800;
    mmio.set(0x0400_2014, first);
    mmio.set(first, second);
    mmio.set(first + 4, 0x0400_2014);
    mmio.set(first + 8, 100);
    mmio.set(second, 0);
    mmio.set(second + 4, first);
    mmio.set(second + 8, 300);

    assert!(!insert_scheduler_timer_list(&mut mmio, inserted, 200));
    assert_eq!(mmio.get(first), inserted);
    assert_eq!(mmio.get(inserted), second);
    assert_eq!(mmio.get(inserted + 4), first);
    assert_eq!(mmio.get(inserted + 8), 200);
    assert_eq!(mmio.get(second + 4), inserted);

    assert!(unlink_scheduler_timer_list(&mut mmio, inserted));
    assert_eq!(mmio.get(first), second);
    assert_eq!(mmio.get(second + 4), first);
    assert_eq!(mmio.get(inserted + 4), 0);
    assert!(!unlink_scheduler_timer_list(&mut mmio, inserted));
}

#[test]
fn scheduler_timer_list_puts_the_earliest_deadline_at_the_head_across_wrap() {
    let mut mmio = MockPipeMmio::new();
    let listed = 0x1000;
    let inserted = 0x3000;
    mmio.set(0x0400_2014, listed);
    mmio.set(listed, 0);
    mmio.set(listed + 4, 0x0400_2014);
    mmio.set(listed + 8, 5);

    assert!(insert_scheduler_timer_list(&mut mmio, inserted, 0xffff_fff0));
    assert_eq!(mmio.get(0x0400_2014), inserted);
    assert_eq!(mmio.get(inserted), listed);
    assert_eq!(mmio.get(inserted + 4), 0x0400_2014);
    assert_eq!(mmio.get(listed + 4), inserted);

    let mut empty = MockPipeMmio::new();
    assert!(insert_scheduler_timer_list(&mut empty, inserted, 7));
    assert_eq!(empty.get(inserted), 0);
}

#[test]
fn fatal_postmortem_captures_pre_acknowledgement_ownership_state() {
    let mut mmio = MockPipeMmio::new();
    mmio.set(MAC_CURRENT_PIPE, 2);
    mmio.set(MAC_CURRENT_PIPE_RECORD, 0x0400_17f8);
    mmio.set(MAC_CURRENT_SLOT, 0x0400_181c);
    mmio.set(LOW_MAC_PIPE_BUSY, 1);
    mmio.set(MAC_EVENT_READINESS, 0xffff_ffff);
    mmio.set(PIPE_IRQ_PENDING, 0x400);
    mmio.set(PIPE_IRQ_TRIGGER, 1 << 27);
    let event =
        MacEvent::decode((1 << 30) | (1 << 24) | 4).unwrap_or_else(|| panic!("fatal event decoded empty"));
    let mut record = MacFatalPostmortem::empty();

    capture_mac_fatal_postmortem(&mut mmio, event, SchedulerWord::new(0x0400), 0x6000_00d3, &mut record);

    assert_eq!(record.valid, 0);
    assert_eq!(record.version, 1);
    assert_eq!(record.line, 222);
    assert_eq!(record.code, 0x29);
    assert_eq!(record.event, event.raw);
    assert_eq!(record.saved_scheduler_word, 0x400);
    assert_eq!(record.cpsr, 0x6000_00d3);
    assert_eq!(record.current_pipe, 2);
    assert_eq!(record.current_pipe_record, 0x0400_17f8);
    assert_eq!(record.current_slot, 0x0400_181c);
    assert_eq!(record.pipe_busy, 1);
    assert_eq!(record.event_readiness, u32::MAX);
    assert_eq!(record.pipe_irq_pending, 0x400);
    assert_eq!(record.pipe_irq_trigger, 1 << 27);
    assert_eq!(mmio.write_count(), 0);
}

#[test]
fn beacon_event_programs_timer_before_scheduler_publication() {
    let mut mmio = MockPipeMmio::new();
    mmio.set(LOW_MAC_OPTIONAL_PIPE_OBJECT_WORD, 0x20);
    mmio.set(MAC_BEACON_SECONDARY_COMMAND, 0x1234);
    let mut raised = 0;

    execute_mac_beacon_event(&mut mmio, |bits| raised = bits);

    assert_eq!(mmio.get(MAC_BEACON_CONTROL_STATE), 5);
    assert_eq!(mmio.get(LOW_MAC_CONTROLLER_CONFIG), 0x2000);
    assert_eq!(mmio.get(MAC_BEACON_TIMER + 0x14), 0x8000_9234);
    assert_eq!(raised, 1 << 24);
}

#[test]
fn beacon_event_without_a_pipe_object_only_raises_the_scheduler() {
    let mut mmio = MockPipeMmio::new();
    let mut raised = 0;

    execute_mac_beacon_event(&mut mmio, |bits| raised = bits);

    assert_eq!(mmio.writes, vec![(MAC_BEACON_CONTROL_STATE, 5)]);
    assert_eq!(mmio.get(LOW_MAC_CONTROLLER_CONFIG), 0);
    assert_eq!(raised, 1 << 24);
}

fn duration_writes(mmio: &MockPipeMmio, hardware_ring: u32) -> Vec<u32> {
    mmio.writes.iter().filter(|&&(address, _)| address == hardware_ring).map(|&(_, value)| value).collect()
}

#[test]
fn staged_two_slot_batch_triggers_once_and_publishes_both_durations() {
    let mut mmio = MockPipeMmio::new();
    let pipe = 1_u8;
    let pipe_state = pipe_state_address(pipe);
    let hardware_ring = tx_ring_register(pipe);
    let first_slot = slot_record_address(pipe, 3);
    let last_slot = slot_record_address(pipe, 0);
    mmio.set(first_slot + 8, 0x1111);
    mmio.set(last_slot + 8, 0x2222);
    mmio.set(pipe_state + 4, 8);
    mmio.set(LOW_MAC_ACTIVE_TX_COUNT, 4);

    assert!(finalize_staged_pipe(&mut mmio, pipe, pipe_state, hardware_ring, 3, 0));

    assert_eq!(mmio.get(PIPE_IRQ_TRIGGER), (1_u32 << pipe) << 25);
    assert_eq!(mmio.get(first_slot + 3), 1);
    assert_eq!(mmio.get(last_slot + 3), 1);
    assert_eq!(mmio.get(hardware_ring), 0x2222);
    assert_eq!(mmio.get(LOW_MAC_ACTIVE_TX_COUNT), 6);
    assert_eq!(mmio.get(pipe_state + 3), 1);
    assert_eq!(mmio.get(pipe_state + 4), 9);
    assert_eq!(mmio.get(pipe_state + 5), 5);
    assert_eq!(mmio.get(hardware_ring + 0x14), 1);
    assert_eq!(duration_writes(&mmio, hardware_ring), [0x1111, 0x2222]);
}

#[test]
fn staged_four_slot_batch_wraps_once_and_triggers_once() {
    let mut mmio = MockPipeMmio::new();
    let pipe = 2_u8;
    let pipe_state = pipe_state_address(pipe);
    let hardware_ring = tx_ring_register(pipe);
    for (slot, duration) in [(2, 0x1111), (3, 0x2222), (0, 0x3333), (1, 0x4444)] {
        mmio.set(slot_record_address(pipe, slot) + 8, duration);
    }
    mmio.set(pipe_state + 4, 8);
    mmio.set(LOW_MAC_ACTIVE_TX_COUNT, 7);

    assert!(finalize_staged_pipe(&mut mmio, pipe, pipe_state, hardware_ring, 2, 1));

    assert_eq!(mmio.get(PIPE_IRQ_TRIGGER), (1_u32 << pipe) << 25);
    for slot in 0..4 {
        assert_eq!(mmio.get(slot_record_address(pipe, slot) + 3), 1);
    }
    assert_eq!(mmio.get(LOW_MAC_ACTIVE_TX_COUNT), 11);
    assert_eq!(mmio.get(hardware_ring + 0x14), 1);
    assert_eq!(duration_writes(&mmio, hardware_ring), [0x1111, 0x2222, 0x3333, 0x4444]);
}

#[test]
fn staged_batch_rejects_a_foreign_ring_or_record_before_any_write() {
    let mut mmio = MockPipeMmio::new();
    let pipe_state = pipe_state_address(2);
    assert!(!finalize_staged_pipe(&mut mmio, 2, pipe_state, tx_ring_register(1), 0, 0));
    assert!(!finalize_staged_pipe(&mut mmio, 2, pipe_state_address(1), tx_ring_register(2), 0, 0));
    assert!(!finalize_staged_pipe(&mut mmio, 2, pipe_state, tx_ring_register(2), 4, 0));
    assert!(!finalize_staged_pipe(&mut mmio, 4, pipe_state, tx_ring_register(2), 0, 0));
    assert_eq!(mmio.write_count(), 0);

    assert!(finalize_staged_pipe(&mut mmio, 2, pipe_state, tx_ring_register(2), 1, 1));
    assert_eq!(duration_writes(&mmio, tx_ring_register(2)), [0]);
}
