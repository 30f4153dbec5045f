use std::cell::Cell;

use xr819_tx::context::{ContextAddress, INTERNAL_CONTEXT_POOL};
use xr819_tx::context_dispatch::{
    dispatch_completed_context, dispatch_probe_completed_context, return_probe_context_after_callback,
    validated_context_tx_frame, CompletedContextDispatch,
};
use xr819_tx::context_return::{
    allocate_lmc_message, completion_device_address, initialize_completion_callback_presence,
    lmc_message_address, lmc_vif_address, phy_dispatch_switch_target, phy_operation_7_timer,
    release_context_address, return_completed_context, CLASS0_INTERNAL_CONTEXT_COUNT,
    COMPLETION_CALLBACK_PRESENCE, LMC_MESSAGE_CONSUMER, LMC_MESSAGE_CONTROL, LMC_MESSAGE_PRODUCER,
    MAC_PHY_OPERATION_TIMER, MESSAGE_EVENT, PENDING_SERVICE_NEEDED,
};
use xr819_tx::mac_event::MacEvent;
use xr819_tx::mmio::MacPipeMmio;
use xr819_tx::plans::completion_retry_limit_offset;
use xr819_tx::registers::SCHEDULER_PENDING_EVENTS;
use xr819_tx::tracker::{ProbeTxOwnership, ProbeTxTracker};

struct Memory {
    values: Vec<(u32, u32)>,
    reads: Vec<u32>,
    writes: Vec<(u32, u32)>,
}

impl Memory {
    fn new() -> Self {
        Self { values: Vec::new(), reads: Vec::new(), writes: Vec::new() }
    }

    fn set(&mut self, address: u32, value: u32) {
        self.values.push((address, value));
    }

    fn get(&mut self, address: u32) -> u32 {
        self.reads.push(address);
        self.values.iter().rev().find(|(stored, _)| *stored == address).map(|(_, v)| *v).unwrap_or(0)
    }

    fn store(&mut self, address: u32, value: u32) {
        self.writes.push((address, value));
        self.set(address, value);
    }
}

impl MacPipeMmio for Memory {
    fn read_u8(&mut self, address: u32) -> u8 {
        self.get(address) as u8
    }

    fn read_u16(&mut self, address: u32) -> u16 {
        self.get(address) as u16
    }

    fn read_u32(&mut self, address: u32) -> u32 {
        self.get(address)
    }

    fn write_u8(&mut self, address: u32, value: u8) {
        self.store(address, u32::from(value));
    }

    fn write_u16(&mut self, address: u32, value: u16) {
        self.store(address, u32::from(value));
    }

    fn write_u32(&mut self, address: u32, value: u32) {
        self.store(address, value);
    }
}

const CONTEXT: u32 = 0x0400_9084;

fn no_callback(_class: u8, _context: ContextAddress) {
    panic!("no callback runs here")
}

fn no_pending_service() {
    panic!("the pending queue is serviced only when asked for")
}

#[test]
fn completion_callback_tables_use_exact_interface_layout() {
    assert_eq!(completion_device_address(0), 0x0400_3eb0);
    assert_eq!(completion_device_address(1), 0x0400_4260);
    assert_eq!(completion_retry_limit_offset(false), 0x114);
    assert_eq!(completion_retry_limit_offset(true), 0x115);
}

#[test]
fn completion_helper_layout_matches_vendor_records() {
    assert_eq!(lmc_message_address(0), 0x0400_8bb8);
    assert_eq!(lmc_message_address(15), 0x0400_8e4c);
    assert_eq!(lmc_vif_address(0), 0x0400_3e98);
    assert_eq!(lmc_vif_address(2), 0x0400_45f8);
    assert_eq!(phy_operation_7_timer(), (MAC_PHY_OPERATION_TIMER, 0x0098_9680));
    assert_eq!(phy_dispatch_switch_target(2), 0x0001_6f92);
    assert_eq!(phy_dispatch_switch_target(3), 0x0001_6fa0);
    assert_eq!(phy_dispatch_switch_target(7), 0x0001_6fb6);
}

#[test]
fn only_class_zero_keeps_its_vendor_allocation_counter() {
    assert_eq!(CLASS0_INTERNAL_CONTEXT_COUNT, 0x0400_8f71);
}

#[test]
fn layout_helpers_cover_every_dispatch_case_and_unknown_interfaces() {
    assert_eq!(phy_dispatch_switch_target(0), 0x0001_6fb0);
    assert_eq!(phy_dispatch_switch_target(8), 0x0001_6f90);
    assert_eq!(phy_dispatch_switch_target(200), 0x0001_6f90);
    assert_eq!(lmc_vif_address(3), 0);
    assert_eq!(completion_device_address(3), 0);
}

#[test]
fn returned_context_goes_on_the_free_list_and_answers_requests() {
    let mut memory = Memory::new();
    memory.set(INTERNAL_CONTEXT_POOL, 0x0400_91f4);
    memory.set(CONTEXT + 0x80, 0x0001_0000);
    memory.set(CONTEXT + 0x53, 6);
    memory.set(PENDING_SERVICE_NEEDED, 1);
    memory.set(LMC_MESSAGE_CONTROL, 0x05);
    let mut active = 3u8;
    let serviced = Cell::new(false);

    return_completed_context(&mut memory, &mut active, ContextAddress::new(CONTEXT), || serviced.set(true));

    assert_eq!(memory.get(CONTEXT + 0x04), 0x0400_91f4);
    assert_eq!(memory.get(CONTEXT + 0x70), 0xff);
    assert_eq!(memory.get(CONTEXT + 0x80), 0x0003_0000);
    assert_eq!(memory.get(INTERNAL_CONTEXT_POOL), CONTEXT);
    assert_eq!(active, 2);
    assert!(serviced.get());
    assert_eq!(memory.get(LMC_MESSAGE_CONTROL), 0x01);
    assert_eq!(memory.get(SCHEDULER_PENDING_EVENTS), MESSAGE_EVENT);
}

#[test]
fn returned_class_zero_context_lowers_its_own_count() {
    let mut memory = Memory::new();
    memory.set(CLASS0_INTERNAL_CONTEXT_COUNT, 2);
    let mut active = 3u8;

    return_completed_context(&mut memory, &mut active, ContextAddress::new(CONTEXT), no_pending_service);

    assert_eq!(memory.get(CLASS0_INTERNAL_CONTEXT_COUNT), 1);
    assert_eq!(active, 3);
    assert!(!memory.writes.iter().any(|(address, _)| *address == SCHEDULER_PENDING_EVENTS));
}

#[test]
fn released_context_gets_no_callback() {
    let mut memory = Memory::new();
    memory.set(CONTEXT + 0x70, 0xff);
    let mut active = 1u8;

    let dispatched = dispatch_completed_context(
        &mut memory,
        &mut active,
        ContextAddress::new(CONTEXT),
        0,
        no_callback,
        no_pending_service,
    );

    assert_eq!(dispatched, CompletedContextDispatch::NoCallback);
    assert_eq!(memory.reads, vec![CONTEXT + 0x70]);
    assert!(memory.writes.is_empty());
}

#[test]
fn class_without_callback_still_records_the_status() {
    let mut memory = Memory::new();
    memory.set(CONTEXT + 0x72, 0x0102);
    memory.set(CONTEXT + 0x53, 4);
    memory.set(CONTEXT + 0xbd, 2);
    let mut active = 1u8;

    let dispatched = dispatch_completed_context(
        &mut memory,
        &mut active,
        ContextAddress::new(CONTEXT),
        0x0b,
        no_callback,
        no_pending_service,
    );

    assert_eq!(dispatched, CompletedContextDispatch::NoCallback);
    assert_eq!(memory.get(CONTEXT + 0x25), 0x02);
    assert_eq!(memory.get(CONTEXT + 0x70), 0x0b);
    assert_eq!(memory.get(CONTEXT + 0x20), 0x0b);
    assert_eq!(active, 1);
}

#[test]
fn successful_data_frame_runs_its_callback_and_returns_the_context() {
    let mut memory = Memory::new();
    let device = completion_device_address(0);
    memory.set(CONTEXT + 0x72, 1);
    memory.set(CONTEXT + 0x53, 3);
    memory.set(CONTEXT + 0x5e, 0x0088);
    memory.set(COMPLETION_CALLBACK_PRESENCE + 12, 1);
    memory.set(device + 0x114, 3);
    memory.set(CONTEXT + 0x63, 2);
    memory.set(device + 0x0f, 1);
    let mut active = 2u8;
    let called = Cell::new(None);

    let dispatched = dispatch_completed_context(
        &mut memory,
        &mut active,
        ContextAddress::new(CONTEXT),
        0,
        |class, context| called.set(Some((class, context))),
        no_pending_service,
    );

    assert_eq!(dispatched, CompletedContextDispatch::Returned);
    assert_eq!(called.get(), Some((3, ContextAddress::new(CONTEXT))));
    assert_eq!(memory.get(device + 0x3ac), 1);
    assert_eq!(memory.get(device + 0x0f), 1);
    assert!(memory.writes.contains(&(device + 0x0f, 2)));
    assert_eq!(memory.get(SCHEDULER_PENDING_EVENTS), 1 << 21);
    assert_eq!(memory.get(CONTEXT + 0x80), 0x0003_0000);
    assert_eq!(memory.get(INTERNAL_CONTEXT_POOL), CONTEXT);
    assert_eq!(active, 1);
}

#[test]
fn class_zero_callback_keeps_its_context_and_charges_the_budget() {
    let mut memory = Memory::new();
    memory.set(CONTEXT + 0x4c, 0x0400_7000);
    memory.set(0x0400_7007, 3);
    memory.set(COMPLETION_CALLBACK_PRESENCE, 1);
    let mut active = 2u8;
    let called = Cell::new(false);

    let dispatched = dispatch_completed_context(
        &mut memory,
        &mut active,
        ContextAddress::new(CONTEXT),
        0x0b,
        |class, _context| {
            assert_eq!(class, 0);
            called.set(true);
        },
        no_pending_service,
    );

    assert_eq!(dispatched, CompletedContextDispatch::ClassZeroCallbackOwnsReturn);
    assert!(called.get());
    assert_eq!(memory.get(0x0400_7007), 2);
    assert_eq!(memory.get(INTERNAL_CONTEXT_POOL), 0);
    assert_eq!(active, 2);
}

#[test]
fn power_save_countdown_expiry_moves_the_request_bit() {
    let mut memory = Memory::new();
    let device = completion_device_address(1);
    memory.set(CONTEXT + 0xbd, 1);
    memory.set(device + 4, 0x8000_0006);
    memory.set(device + 0x14b, 1);
    memory.set(CONTEXT + 0x54, 0x0900_1000);
    memory.set(CONTEXT + 0x5c, 30);
    memory.set(0x0900_1004, 1);
    let mut active = 1u8;

    dispatch_completed_context(
        &mut memory,
        &mut active,
        ContextAddress::new(CONTEXT),
        0x0b,
        no_callback,
        no_pending_service,
    );

    assert_eq!(memory.get(device + 0x14b), 0);
    assert_eq!(memory.get(device + 4), 0x2000_0006);
}

fn running_tracker() -> ProbeTxTracker {
    let mut tracker = ProbeTxTracker::new();
    tracker.prepare(CONTEXT).unwrap_or_else(|error| panic!("{error:?}"));
    tracker.publish(0, 2).unwrap_or_else(|error| panic!("{error:?}"));
    let start = MacEvent::decode((1 << 25) | (2 << 16) | (0x37 << 8))
        .unwrap_or_else(|| panic!("valid start event decoded as empty"));
    assert_eq!(tracker.handle_pipe_event(start, true), Ok(true));
    let status = MacEvent::decode(1 << 24).unwrap_or_else(|| panic!("valid status event decoded as empty"));
    assert_eq!(tracker.handle_pipe_event(status, false), Ok(true));
    assert!(tracker.resolve_terminal_status(0));
    assert!(tracker.queue_terminal_completion());
    assert!(tracker.begin_completion_callback());
    tracker
}

#[test]
fn probe_dispatch_records_the_return_only_when_it_happens() {
    let mut memory = Memory::new();
    memory.set(CONTEXT + 0x53, 6);
    memory.set(COMPLETION_CALLBACK_PRESENCE + 24, 1);
    let mut active = 1u8;
    let mut tracker = running_tracker();

    assert!(dispatch_probe_completed_context(
        &mut memory,
        &mut active,
        &mut tracker,
        0,
        |_class, _context| {},
        no_pending_service,
    ));
    assert_eq!(tracker.ownership(), ProbeTxOwnership::Returned);
    assert_eq!(active, 0);

    let mut memory = Memory::new();
    let mut tracker = running_tracker();
    assert!(!dispatch_probe_completed_context(
        &mut memory,
        &mut active,
        &mut tracker,
        0,
        no_callback,
        no_pending_service,
    ));
    assert!(matches!(tracker.ownership(), ProbeTxOwnership::CallbackRunning { .. }));
}

#[test]
fn probe_return_requires_a_running_callback() {
    let mut memory = Memory::new();
    let mut active = 1u8;
    let mut tracker = ProbeTxTracker::new();
    assert!(!return_probe_context_after_callback(&mut memory, &mut active, &mut tracker, no_pending_service));
    assert!(memory.reads.is_empty());

    let mut tracker = running_tracker();
    memory.set(CONTEXT + 0x53, 6);
    assert!(return_probe_context_after_callback(&mut memory, &mut active, &mut tracker, no_pending_service));
    assert_eq!(tracker.ownership(), ProbeTxOwnership::Returned);
    assert_eq!(memory.get(INTERNAL_CONTEXT_POOL), CONTEXT);
    assert_eq!(active, 0);
}

#[test]
fn every_completion_class_is_marked_present() {
    let mut memory = Memory::new();
    initialize_completion_callback_presence(&mut memory);
    let expected: Vec<(u32, u32)> = (0..10).map(|class| (COMPLETION_CALLBACK_PRESENCE + 4 * class, 1)).collect();
    assert_eq!(memory.writes, expected);
}

#[test]
fn message_ring_allocates_until_it_would_reach_the_consumer() {
    let mut memory = Memory::new();
    memory.set(LMC_MESSAGE_PRODUCER, 15);
    memory.set(LMC_MESSAGE_CONSUMER, 3);
    assert_eq!(allocate_lmc_message(&mut memory, || panic!("the ring has room")), Some(lmc_message_address(0)));
    assert_eq!(memory.get(LMC_MESSAGE_PRODUCER), 0);

    memory.set(LMC_MESSAGE_PRODUCER, 2);
    let failed = Cell::new(false);
    assert_eq!(allocate_lmc_message(&mut memory, || failed.set(true)), None);
    assert!(failed.get());
    assert_eq!(memory.get(LMC_MESSAGE_PRODUCER), 2);
}

#[test]
fn released_context_goes_back_without_a_callback() {
    let mut memory = Memory::new();
    memory.set(INTERNAL_CONTEXT_POOL, 0x0400_91f4);
    let mut active = 1u8;

    release_context_address(&mut memory, &mut active, CONTEXT);

    assert_eq!(
        memory.writes,
        vec![
            (CONTEXT + 0x70, 0xff),
            (CONTEXT + 0x80, 0x0002_0000),
            (CONTEXT + 0x04, 0x0400_91f4),
            (INTERNAL_CONTEXT_POOL, CONTEXT),
        ]
    );
    assert_eq!(active, 0);
}

#[test]
fn context_frame_must_hold_a_header_inside_packet_ram() {
    let mut memory = Memory::new();
    memory.set(CONTEXT + 0x54, 0x0900_1000);
    memory.set(CONTEXT + 0x5c, 24);
    assert_eq!(
        validated_context_tx_frame(&mut memory, ContextAddress::new(CONTEXT)).map(|frame| frame.raw()),
        Some(0x0900_1000)
    );

    memory.set(CONTEXT + 0x5c, 23);
    assert!(validated_context_tx_frame(&mut memory, ContextAddress::new(CONTEXT)).is_none());

    memory.set(CONTEXT + 0x54, 0x0800_0000);
    memory.set(CONTEXT + 0x5c, 30);
    assert!(validated_context_tx_frame(&mut memory, ContextAddress::new(CONTEXT)).is_none());
}
