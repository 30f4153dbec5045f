use std::cell::RefCell;
use std::rc::Rc;

use xr819_tx::completion_ring::CompletionRing;
use xr819_tx::context::FrameNodeAddress;
use xr819_tx::mmio::MacPipeMmio;
use xr819_tx::registers::{pipe_state_address, slot_record_address, LOW_MAC_ACTIVE_TX_COUNT, MAC_CURRENT_PIPE};
use xr819_tx::slot_completion::{PipeSlotCompletionEffects, SlotCompletionCall};
use xr819_tx::slot_policy::{SlotCompletingPolicy, StatusBackoffEffects};
use xr819_tx::status_exec::service_txp_pipe_tx_status;

#[derive(Clone)]
struct Shared(Rc<RefCell<Vec<(u32, u32)>>>);

impl Shared {
    fn set(&self, address: u32, value: u32) {
        self.0.borrow_mut().push((address, value));
    }

    fn get(&self, address: u32) -> u32 {
        self.0.borrow().iter().rev().find(|(stored, _)| *stored == address).map(|(_, v)| *v).unwrap_or(0)
    }
}

impl MacPipeMmio for Shared {
    fn read_u8(&mut self, address: u32) -> u8 {
        self.get(address) as u8
    }

    fn read_u16(&mut self, address: u32) -> u16 {
        self.get(address) as u16
    }

    fn read_u32(&mut self, address: u32) -> u32 {
        self.get(address)
    }

    fn write_u8(&mut self, address: u32, value: u8) {
        self.set(address, u32::from(value));
    }

    fn write_u16(&mut self, address: u32, value: u16) {
        self.set(address, u32::from(value));
    }

    fn write_u32(&mut self, address: u32, value: u32) {
        self.set(address, value);
    }
}

#[derive(Default)]
struct Effects {
    calls: Vec<SlotCompletionCall>,
    resets: Vec<(u8, u8, u32, u32)>,
}

impl PipeSlotCompletionEffects for Effects {
    fn link_set_state(&mut self, link: u8, state: u8) {
        self.calls.push(SlotCompletionCall::LinkSetState { link, state });
    }

    fn rate_recovery_on_success(&mut self, frame_node: FrameNodeAddress, status: u16) {
        self.calls.push(SlotCompletionCall::RateRecovery { frame_node, status });
    }

    fn special_completion_gate(&mut self, frame_node: FrameNodeAddress) -> bool {
        self.calls.push(SlotCompletionCall::SpecialGate { frame_node, open: false });
        false
    }

    fn find_rx_frame_by_subtype(&mut self, subtype: u8) -> Option<u32> {
        self.calls.push(SlotCompletionCall::FindRxFrame { subtype, found: None });
        None
    }

    fn find_tx_pipe_by_mac_tid(&mut self, interface: u8, tid: u8, mac: Option<u32>) -> u8 {
        self.calls.push(SlotCompletionCall::FindTxPipe { interface, tid, mac, pipe: 8 });
        8
    }

    fn process_ba_bitmap(&mut self, pipe: u8) {
        self.calls.push(SlotCompletionCall::ProcessBaBitmap { pipe });
    }

    fn invalid_link_assertion(&mut self) {
        self.calls.push(SlotCompletionCall::InvalidLink);
    }
}

impl StatusBackoffEffects for Effects {
    fn reset_status_backoff(&mut self, link: u8, queue: u8, pas_state: u32, queue_table: u32) {
        self.resets.push((link, queue, pas_state, queue_table));
    }
}

#[test]
fn completed_tx_status_runs_the_slot_completion() {
    let memory = Shared(Rc::new(RefCell::new(Vec::new())));
    let record = pipe_state_address(0);
    let slot = slot_record_address(0, 2);
    let context = 0x0400_9364;
    let node = context + 0x54;
    memory.set(MAC_CURRENT_PIPE, 0);
    memory.set(record + 1, 2);
    memory.set(record + 2, 2);
    memory.set(record + 3, 1);
    memory.set(slot + 1, 0x0b);
    memory.set(slot + 3, 3);
    memory.set(slot + 0x0c, node);
    memory.set(context + 0x53, 6);
    memory.set(LOW_MAC_ACTIVE_TX_COUNT, 2);
    let mut policy = SlotCompletingPolicy::new(memory.clone(), CompletionRing::new(), Effects::default());
    let mut mmio = memory.clone();

    service_txp_pipe_tx_status(&mut mmio, 0x0b, &mut policy);

    assert_eq!(policy.ring.cursors(), (0, 1));
    assert_eq!(policy.ring.frame_node(0), node);
    assert_eq!(memory.get(context + 0x70), 0);
    assert_eq!(memory.get(slot + 0x0c), 0);
    assert_eq!(memory.get(LOW_MAC_ACTIVE_TX_COUNT), 1);
    assert_eq!(
        policy.effects.calls,
        vec![SlotCompletionCall::RateRecovery { frame_node: FrameNodeAddress::new(node), status: 0 }]
    );
    assert_eq!(policy.effects.resets.len(), 1);
}
