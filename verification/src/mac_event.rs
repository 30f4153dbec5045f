//! MAC event decoding and the per-event dispatch plan.
//!
//! Events are popped from the MAC event FIFO as raw words. Bit 31 marks an
//! empty FIFO. The independent marker bits of an event select its effects,
//! which always run in one fixed order.

use vstd::prelude::*;

use crate::registers::{duration_quantum_pointer, duration_quantum_pointer_of, MAC_FIQ_SOURCE};

verus! {

#[derive(Clone, Copy, Debug, PartialEq, Eq, Structural)]
pub struct MacEvent {
    pub raw: u32,
    pub event_type: u8,
    pub pipe: u8,
    pub phase: u8,
    pub status: u8,
    pub pipe_marker: bool,
    pub completion_marker: bool,
    pub fatal_marker: bool,
    pub pipe_service_marker: bool,
    pub beacon_marker: bool,
    pub sideband_marker: bool,
}

#[derive(Clone, Copy, Debug, PartialEq, Eq, Structural)]
pub enum MacEventEffect {
    Trace,
    Fatal,
    PipePhase { event_type: u8, phase: u8, latch_index: Option<u8> },
    PipeService,
    TxStatus { event_type: u8, status: u8, pipe_service_escalation: bool },
    Beacon,
    Sideband,
    Archive,
}

#[derive(Clone, Copy, Debug, PartialEq, Eq)]
pub struct MacEventDispatchPlan {
    pub effects: [Option<MacEventEffect>; 8],
    pub len: u8,
}

/// The event a raw FIFO word decodes to, when it is not the empty sentinel.
pub open spec fn decoded_event(raw: u32) -> MacEvent {
    MacEvent {
        raw,
        event_type: ((raw & 0x3fff) >> 8) as u8,
        pipe: ((raw >> 18) & 3) as u8,
        phase: ((raw >> 16) & 3) as u8,
        status: (raw & 0x3f) as u8,
        pipe_marker: raw & (1u32 << 25) != 0,
        completion_marker: raw & (1u32 << 24) != 0,
        fatal_marker: raw & (1u32 << 30) != 0,
        pipe_service_marker: raw & (1u32 << 23) != 0,
        beacon_marker: raw & (1u32 << 26) != 0,
        sideband_marker: raw & (1u32 << 7) != 0,
    }
}

/// Pipe latched by a pipe event of type 0x37.
pub open spec fn pipe_index_of(event: MacEvent) -> Option<u8> {
    if event.pipe_marker && event.event_type == 0x37 {
        Some(event.pipe)
    } else {
        None
    }
}

/// TX status carried by a completion-marker event.
pub open spec fn completion_status_of(event: MacEvent) -> Option<u8> {
    if event.completion_marker {
        Some(event.status)
    } else {
        None
    }
}

/// Effects of one event in dispatch order. A fatal event stops after the
/// fatal effect; every other event ends with the archive effect.
pub open spec fn plan_effects(event: MacEvent) -> Seq<MacEventEffect> {
    if event.fatal_marker {
        seq![MacEventEffect::Trace, MacEventEffect::Fatal]
    } else {
        seq![MacEventEffect::Trace] + (if event.pipe_marker {
            seq![
                MacEventEffect::PipePhase {
                    event_type: event.event_type,
                    phase: event.phase,
                    latch_index: pipe_index_of(event),
                },
            ]
        } else {
            Seq::empty()
        }) + (if event.pipe_service_marker {
            seq![MacEventEffect::PipeService]
        } else {
            Seq::empty()
        }) + (if event.completion_marker {
            seq![
                MacEventEffect::TxStatus {
                    event_type: event.event_type,
                    status: event.status,
                    pipe_service_escalation: event.pipe_service_marker,
                },
            ]
        } else {
            Seq::empty()
        }) + (if event.beacon_marker {
            seq![MacEventEffect::Beacon]
        } else {
            Seq::empty()
        }) + (if event.sideband_marker {
            seq![MacEventEffect::Sideband]
        } else {
            Seq::empty()
        }) + seq![MacEventEffect::Archive]
    }
}

impl MacEventDispatchPlan {
    /// The planned effects, in order.
    pub open spec fn planned(self) -> Seq<Option<MacEventEffect>> {
        self.effects@.subrange(0, self.len as int)
    }

    pub fn effects(&self) -> (effects: &[Option<MacEventEffect>])
        requires
            self.len <= 8,
        ensures
            effects@ == self.planned(),
    {
        let all = self.effects.as_slice();
        &all[0..self.len as usize]
    }

    fn push(&mut self, effect: MacEventEffect)
        requires
            old(self).len < 8,
        ensures
            final(self).len == old(self).len + 1,
            final(self).planned() == old(self).planned().push(Some(effect)),
    {
        let index = self.len as usize;
        self.effects[index] = Some(effect);
        self.len = self.len + 1;
        assert(self.planned() =~= old(self).planned().push(Some(effect)));
    }
}

impl MacEvent {
    /// Decodes one FIFO word; bit 31 is the empty sentinel.
    pub fn decode(raw: u32) -> (event: Option<Self>)
        ensures
            event is Some <==> raw & 0x8000_0000 == 0,
            event matches Some(e) ==> e == decoded_event(raw),
    {
        if raw & 0x8000_0000 != 0 {
            return None;
        }
        proof {
            assert((raw & 0x3fff) >> 8 <= 0xff) by (bit_vector);
            assert((raw >> 18) & 3 <= 3) by (bit_vector);
            assert((raw >> 16) & 3 <= 3) by (bit_vector);
            assert(raw & 0x3f <= 0x3f) by (bit_vector);
        }
        Some(
            MacEvent {
                raw,
                event_type: ((raw & 0x3fff) >> 8) as u8,
                pipe: ((raw >> 18) & 3) as u8,
                phase: ((raw >> 16) & 3) as u8,
                status: (raw & 0x3f) as u8,
                pipe_marker: raw & (1u32 << 25) != 0,
                completion_marker: raw & (1u32 << 24) != 0,
                fatal_marker: raw & (1u32 << 30) != 0,
                pipe_service_marker: raw & (1u32 << 23) != 0,
                beacon_marker: raw & (1u32 << 26) != 0,
                sideband_marker: raw & (1u32 << 7) != 0,
            },
        )
    }

    /// Pipe index that a type-0x37 pipe event latches globally.
    pub fn pipe_index(self) -> (index: Option<u8>)
        ensures
            index == pipe_index_of(self),
    {
        if self.pipe_marker && self.event_type == 0x37 {
            Some(self.pipe)
        } else {
            None
        }
    }

    /// Status consumed by the completion-marker path.
    pub fn completion_status(self) -> (status: Option<u8>)
        ensures
            status == completion_status_of(self),
    {
        if self.completion_marker {
            Some(self.status)
        } else {
            None
        }
    }

    pub fn is_pipe_start(self) -> (start: bool)
        ensures
            start == (pipe_index_of(self) is Some && self.phase == 2),
    {
        self.pipe_index().is_some() && self.phase == 2
    }

    pub fn is_pipe_success(self) -> (success: bool)
        ensures
            success == (pipe_index_of(self) is Some && self.phase == 3),
    {
        self.pipe_index().is_some() && self.phase == 3
    }

    /// Effects of this event, in the fixed dispatch order.
    pub fn dispatch_plan(self) -> (plan: MacEventDispatchPlan)
        ensures
            plan.len <= 8,
            plan.planned() == plan_effects(self).map_values(
                |effect: MacEventEffect| Some(effect),
            ),
    {
        let mut plan = MacEventDispatchPlan { effects: [None; 8], len: 0 };
        assert(plan.planned() =~= Seq::<Option<MacEventEffect>>::empty());
        plan.push(MacEventEffect::Trace);
        if self.fatal_marker {
            plan.push(MacEventEffect::Fatal);
            assert(plan.planned() =~= plan_effects(self).map_values(
                |effect: MacEventEffect| Some(effect),
            ));
            return plan;
        }
        if self.pipe_marker {
            plan.push(
                MacEventEffect::PipePhase {
                    event_type: self.event_type,
                    phase: self.phase,
                    latch_index: self.pipe_index(),
                },
            );
        }
        if self.pipe_service_marker {
            plan.push(MacEventEffect::PipeService);
        }
        if let Some(status) = self.completion_status() {
            plan.push(
                MacEventEffect::TxStatus {
                    event_type: self.event_type,
                    status,
                    pipe_service_escalation: self.pipe_service_marker,
                },
            );
        }
        if self.beacon_marker {
            plan.push(MacEventEffect::Beacon);
        }
        if self.sideband_marker {
            plan.push(MacEventEffect::Sideband);
        }
        plan.push(MacEventEffect::Archive);
        assert(plan.planned() =~= plan_effects(self).map_values(
            |effect: MacEventEffect| Some(effect),
        ));
        plan
    }
}

/// One snapshot of the scheduler pending word, taken before pipe service.
#[derive(Clone, Copy, Debug, PartialEq, Eq, Structural)]
pub struct SchedulerWord(pub u32);

impl SchedulerWord {
    pub fn new(raw: u32) -> (word: Self)
        ensures
            word.0 == raw,
    {
        SchedulerWord(raw)
    }

    pub fn raw(self) -> (raw: u32)
        ensures
            raw == self.0,
    {
        self.0
    }
}

#[derive(Clone, Copy, Debug, PartialEq, Eq, Structural)]
pub struct MacStatusSnapshot {
    pub pre_service_scheduler_word: SchedulerWord,
    pub latched_pipe: u8,
    pub pipe_active: bool,
    pub slot_expected_status: u8,
    pub slot_state: u8,
    pub global_busy: bool,
    pub mismatch_count: u8,
}

#[derive(Clone, Copy, Debug, PartialEq, Eq, Structural)]
pub struct MacStatusResolution {
    pub status: u8,
    pub pending_mask: u32,
    pub dispatch_ordinary: bool,
    pub ordinary_completion_eligible: bool,
    pub direct_retry: bool,
    pub next_mismatch_count: u8,
    pub escalation_retry: bool,
}

/// Pending bit of the latched pipe in the saved scheduler word.
pub open spec fn status_pending_mask(snapshot: MacStatusSnapshot) -> u32 {
    snapshot.pre_service_scheduler_word.0 & 0x100u32.wrapping_shl((snapshot.latched_pipe as u32) & 0x1f)
}

/// Resolution of a completion-marker event against the saved scheduler
/// word and the active slot.
pub open spec fn status_resolution(event: MacEvent, snapshot: MacStatusSnapshot)
    -> MacStatusResolution {
    let status = event.status;
    let pending_mask = status_pending_mask(snapshot);
    if pending_mask != 0 && (status == 4 || status == 0x19) {
        MacStatusResolution {
            status,
            pending_mask,
            dispatch_ordinary: false,
            ordinary_completion_eligible: false,
            direct_retry: true,
            next_mismatch_count: snapshot.mismatch_count,
            escalation_retry: false,
        }
    } else {
        let dispatch_ordinary = !(event.event_type == 0x39 && status == 6);
        let mismatch = event.pipe_service_marker && pending_mask != 0 && snapshot.pipe_active
            && snapshot.slot_expected_status != status;
        let next = if mismatch {
            snapshot.mismatch_count.wrapping_add(1)
        } else {
            snapshot.mismatch_count
        };
        MacStatusResolution {
            status,
            pending_mask,
            dispatch_ordinary,
            ordinary_completion_eligible: dispatch_ordinary && snapshot.pipe_active
                && snapshot.slot_expected_status == status && snapshot.slot_state == 3
                && !snapshot.global_busy,
            direct_retry: false,
            next_mismatch_count: next,
            escalation_retry: mismatch && next > 2,
        }
    }
}

/// Decision for a completion-marker event. The pending mask comes from the
/// scheduler word saved before pipe service, never from a later read.
pub fn resolve_mac_status_event(event: MacEvent, snapshot: MacStatusSnapshot) -> (resolution:
    Option<MacStatusResolution>)
    ensures
        resolution is Some <==> event.completion_marker,
        resolution matches Some(r) ==> r == status_resolution(event, snapshot),
{
    let status = match event.completion_status() {
        Some(status) => status,
        None => {
            return None;
        },
    };
    let pending_mask = snapshot.pre_service_scheduler_word.raw() & 0x100u32.wrapping_shl(
        (snapshot.latched_pipe as u32) & 0x1f,
    );
    if pending_mask != 0 && (status == 4 || status == 0x19) {
        return Some(
            MacStatusResolution {
                status,
                pending_mask,
                dispatch_ordinary: false,
                ordinary_completion_eligible: false,
                direct_retry: true,
                next_mismatch_count: snapshot.mismatch_count,
                escalation_retry: false,
            },
        );
    }
    let dispatch_ordinary = !(event.event_type == 0x39 && status == 6);
    let ordinary_completion_eligible = dispatch_ordinary && snapshot.pipe_active
        && snapshot.slot_expected_status == status && snapshot.slot_state == 3
        && !snapshot.global_busy;
    let mismatch = event.pipe_service_marker && pending_mask != 0 && snapshot.pipe_active
        && snapshot.slot_expected_status != status;
    let next_mismatch_count = if mismatch {
        snapshot.mismatch_count.wrapping_add(1)
    } else {
        snapshot.mismatch_count
    };
    Some(
        MacStatusResolution {
            status,
            pending_mask,
            dispatch_ordinary,
            ordinary_completion_eligible,
            direct_retry: false,
            next_mismatch_count,
            escalation_retry: mismatch && next_mismatch_count > 2,
        },
    )
}

#[derive(Clone, Copy, Debug, PartialEq, Eq, Structural)]
pub enum MacPipeServicePlan {
    NoService,
    LowNibble { asserted: u8, backoff_pipe_mask: u8, trigger: u32, acknowledgement: u32 },
    MiddleNibble {
        selected_pipe: u8,
        quantum_pointer_address: u32,
        trigger: u32,
        acknowledgement: u32,
    },
    HighNibble { selected_pipe: u8, acknowledgement: u32 },
}

/// Lowest set bit of a nonzero nibble.
pub open spec fn lowest_set_bit(nibble: u8) -> u8 {
    if nibble & 1 != 0 {
        0
    } else if nibble & 2 != 0 {
        1
    } else if nibble & 4 != 0 {
        2
    } else {
        3
    }
}

/// Service selection for one saved scheduler word: the low nibble wins,
/// then the middle nibble (lowest pipe first), then the high nibble.
pub open spec fn pipe_service_plan(word: u32, latched_pipe: u8) -> MacPipeServicePlan {
    let low = (word & 0x0f) as u8;
    let middle = ((word >> 4) & 0x0f) as u8;
    if low != 0 {
        MacPipeServicePlan::LowNibble {
            asserted: low,
            backoff_pipe_mask: low & 0x07,
            trigger: (low as u32) << 25,
            acknowledgement: 0u32.wrapping_sub((low as u32 + 1) as u32),
        }
    } else if middle != 0 {
        let pipe = lowest_set_bit(middle);
        MacPipeServicePlan::MiddleNibble {
            selected_pipe: pipe,
            quantum_pointer_address: duration_quantum_pointer_of(pipe as int),
            trigger: 1u32 << ((pipe as u32) + 25),
            acknowledgement: 0u32.wrapping_sub(((0x10u32 << pipe) + 1) as u32),
        }
    } else if word & 0xf000 != 0 {
        let pipe = latched_pipe & 3;
        MacPipeServicePlan::HighNibble {
            selected_pipe: pipe,
            acknowledgement: 0u32.wrapping_sub(((0x1000u32 << pipe) + 1) as u32),
        }
    } else {
        MacPipeServicePlan::NoService
    }
}

fn lowest_set_bit_of(nibble: u8) -> (bit: u8)
    requires
        nibble != 0,
        nibble < 16,
    ensures
        bit == lowest_set_bit(nibble),
        bit < 4,
{
    if nibble & 1 != 0 {
        0
    } else if nibble & 2 != 0 {
        1
    } else if nibble & 4 != 0 {
        2
    } else {
        3
    }
}

/// Selection and acknowledgement plan of MAC pipe service.
pub fn plan_mac_pipe_service(scheduler_word: SchedulerWord, latched_pipe: u8) -> (plan:
    MacPipeServicePlan)
    ensures
        plan == pipe_service_plan(scheduler_word.0, latched_pipe),
{
    let word = scheduler_word.raw();
    let low = (word & 0x0f) as u8;
    proof {
        assert(word & 0x0f <= 0x0f) by (bit_vector);
        assert((word >> 4) & 0x0f <= 0x0f) by (bit_vector);
    }
    if low != 0 {
        return MacPipeServicePlan::LowNibble {
            asserted: low,
            backoff_pipe_mask: low & 0x07,
            trigger: (low as u32) << 25,
            acknowledgement: 0u32.wrapping_sub(low as u32 + 1),
        };
    }
    let middle = ((word >> 4) & 0x0f) as u8;
    if middle != 0 {
        let selected_pipe = lowest_set_bit_of(middle);
        proof {
            assert(0x10u32 << (selected_pipe as u32) <= 0x80) by (bit_vector)
                requires
                    selected_pipe < 4,
            ;
        }
        return MacPipeServicePlan::MiddleNibble {
            selected_pipe,
            quantum_pointer_address: duration_quantum_pointer(selected_pipe),
            trigger: 1u32 << (selected_pipe as u32 + 25),
            acknowledgement: 0u32.wrapping_sub((0x10u32 << selected_pipe) + 1),
        };
    }
    if word & 0xf000 != 0 {
        let selected_pipe = latched_pipe & 3;
        proof {
            assert(latched_pipe & 3 < 4) by (bit_vector);
            assert(0x1000u32 << (selected_pipe as u32) <= 0x8000) by (bit_vector)
                requires
                    selected_pipe < 4,
            ;
        }
        return MacPipeServicePlan::HighNibble {
            selected_pipe,
            acknowledgement: 0u32.wrapping_sub((0x1000u32 << selected_pipe) + 1),
        };
    }
    MacPipeServicePlan::NoService
}

/// The MAC FIQ source is pending in an interrupt-controller word.
pub fn mac_fiq_pending(pending: u32) -> (fiq: bool)
    ensures
        fiq == (pending & (1u32 << MAC_FIQ_SOURCE) != 0),
{
    pending & (1u32 << MAC_FIQ_SOURCE) != 0
}

/// MAC service is due when the FIQ source is pending or the event FIFO is
/// non-empty (readiness is non-negative).
pub fn mac_service_pending(interrupt_pending: u32, fifo_readiness: u32) -> (due: bool)
    ensures
        due == (interrupt_pending & (1u32 << MAC_FIQ_SOURCE) != 0 || fifo_readiness < 0x8000_0000),
{
    mac_fiq_pending(interrupt_pending) || fifo_readiness < 0x8000_0000
}

/// Postmortem record of a terminal MAC event. The vendor assertion for this
/// path uses line 222 and code 0x29.
#[derive(Clone, Copy, Debug, PartialEq, Eq, Structural)]
pub struct MacFatalPostmortem {
    pub valid: u32,
    pub version: u32,
    pub line: u32,
    pub code: u32,
    pub event: u32,
    pub saved_scheduler_word: u32,
    pub cpsr: u32,
    pub current_pipe: u32,
    pub current_pipe_record: u32,
    pub current_slot: u32,
    pub pipe_busy: u32,
    pub event_readiness: u32,
    pub pipe_irq_pending: u32,
    pub pipe_irq_trigger: u32,
}

impl MacFatalPostmortem {
    pub fn empty() -> (record: Self)
        ensures
            record == (MacFatalPostmortem {
                valid: 0,
                version: 1,
                line: 222,
                code: 0x29,
                event: 0,
                saved_scheduler_word: 0,
                cpsr: 0,
                current_pipe: 0,
                current_pipe_record: 0,
                current_slot: 0,
                pipe_busy: 0,
                event_readiness: 0,
                pipe_irq_pending: 0,
                pipe_irq_trigger: 0,
            }),
    {
        MacFatalPostmortem {
            valid: 0,
            version: 1,
            line: 222,
            code: 0x29,
            event: 0,
            saved_scheduler_word: 0,
            cpsr: 0,
            current_pipe: 0,
            current_pipe_record: 0,
            current_slot: 0,
            pipe_busy: 0,
            event_readiness: 0,
            pipe_irq_pending: 0,
            pipe_irq_trigger: 0,
        }
    }
}

#[derive(Clone, Copy, Debug, Default, PartialEq, Eq, Structural)]
pub struct MacEventServiceReport {
    pub drained: u32,
    pub handled: u32,
    pub unhandled: u32,
    pub blocked: Option<u32>,
}

#[derive(Clone, Copy, Debug, PartialEq, Eq, Structural)]
pub enum MacEventStopReason {
    Empty,
    BudgetExhausted,
    Fatal,
}

#[derive(Clone, Copy, Debug, PartialEq, Eq, Structural)]
pub struct MacEventLoopReport {
    pub processed: u32,
    pub stop: MacEventStopReason,
    pub reschedule_required: bool,
}

} // verus!
