//! The TX status policy the firmware runs with: a slot's completion is
//! carried out by `complete_tx_pipe_slot`, on the policy's own MMIO handle
//! and completion ring, and the backoff reset and receive lookups go to the
//! rate and receive effects.

use vstd::prelude::*;

use crate::completion_ring::CompletionRing;
use crate::context::FrameNodeAddress;
use crate::mmio::{trace_after, MacPipeMmio};
use crate::slot_completion::{complete_tx_pipe_slot, slot_completion_step, PipeSlotCompletionEffects};
use crate::status_exec::{TxStatusCall, TxStatusPolicy};

verus! {

/// The backoff reset a completed TX status asks for, beside the effects of
/// completing its slot.
pub trait StatusBackoffEffects: PipeSlotCompletionEffects {
    /// Resets the backoff of the link's queue after a completed frame. It
    /// is no call of the slot's completion, whose log it leaves alone.
    fn reset_status_backoff(&mut self, link: u8, queue: u8, pas_state: u32, queue_table: u32)
        ensures
            final(self).calls() == old(self).calls(),
    ;
}

/// A TX status policy that completes slots with `complete_tx_pipe_slot`.
pub struct SlotCompletingPolicy<M: MacPipeMmio, B: StatusBackoffEffects> {
    pub mmio: M,
    pub ring: CompletionRing,
    pub effects: B,
    pub log: Ghost<Seq<TxStatusCall>>,
}

impl<M: MacPipeMmio, B: StatusBackoffEffects> SlotCompletingPolicy<M, B> {
    pub fn new(mmio: M, ring: CompletionRing, effects: B) -> (policy: Self)
        ensures
            policy.mmio == mmio,
            policy.ring == ring,
            policy.effects == effects,
            policy.log@ == Seq::<TxStatusCall>::empty(),
    {
        SlotCompletingPolicy { mmio, ring, effects, log: Ghost(Seq::empty()) }
    }
}

impl<M: MacPipeMmio, B: StatusBackoffEffects> TxStatusPolicy for SlotCompletingPolicy<M, B> {
    open spec fn calls(&self) -> Seq<TxStatusCall> {
        self.log@
    }

    fn reset_status_backoff(&mut self, link: u8, queue: u8, pas_state: u32, queue_table: u32) {
        self.effects.reset_status_backoff(link, queue, pas_state, queue_table);
        self.log = Ghost(
            self.log@.push(TxStatusCall::ResetStatusBackoff { link, queue, pas_state, queue_table }),
        );
    }

    /// Completes the slot on the policy's own MMIO handle and ring, exactly
    /// as `complete_tx_pipe_slot` states.
    fn complete_slot(&mut self, frame_node: FrameNodeAddress, slot: u32, status: u16)
        ensures
            ({
                let t = trace_after(final(self).mmio.accesses(), old(self).mmio.accesses().len() as int);
                let c = final(self).effects.calls().skip(old(self).effects.calls().len() as int);
                let step = slot_completion_step(frame_node@, slot, status, t, c);
                &&& final(self).mmio.accesses() == old(self).mmio.accesses() + step.0
                &&& final(self).effects.calls() == old(self).effects.calls() + step.1
            }),
    {
        complete_tx_pipe_slot(&mut self.mmio, &mut self.ring, &mut self.effects, frame_node, slot, status);
        self.log = Ghost(self.log@.push(TxStatusCall::CompleteSlot { frame_node, slot, status }));
    }

    fn find_rx_frame_by_subtype(&mut self, subtype: u8) -> (found: Option<u32>) {
        let found = self.effects.find_rx_frame_by_subtype(subtype);
        self.log = Ghost(self.log@.push(TxStatusCall::FindRxFrame { subtype, found }));
        found
    }
}

} // verus!
