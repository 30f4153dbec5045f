//! Queuing a completed frame for the host: the frame node goes onto the
//! completion ring, its context is marked queued, and the scheduler is told
//! that a completion is waiting and, unless the special gate holds it back,
//! that the completion drain should run.

use vstd::prelude::*;

use crate::completion_ring::CompletionRing;
use crate::context::{FrameNodeAddress, FRAME_NODE_OFFSET};
use crate::mmio::{rd16, rd32, rd8, trace_after, value_of, wr16, wr32, MacPipeMmio, MmioAccess};
use crate::offset::{AUXILIARY_STATE, COMPLETION_CLASS, FRAME_CONTROL, OWNERSHIP_BITS, TERMINAL_STATUS};
use crate::plans::completion_drain_required;
use crate::registers::SCHEDULER_PENDING_EVENTS;
use crate::tracker::{ProbeTxOwnership, ProbeTxState, ProbeTxTracker};

verus! {

/// Ownership bit of a context whose frame node is on the completion ring.
pub const COMPLETION_QUEUED_OWNERSHIP: u32 = 0x4000;

/// Scheduler event: a completion is waiting.
pub const COMPLETION_PENDING_EVENT: u32 = 0x0020_0000;

/// Scheduler event: the completion drain should run.
pub const COMPLETION_DRAIN_EVENT: u32 = 0x0010_0000;

/// Terminal status of a context whose completion is deferred; it is flagged
/// in its auxiliary state instead of raising the pending event.
pub const DEFERRED_TERMINAL_STATUS: u16 = 0x16;

/// Address of the field at `offset` of the context that embeds `node`.
pub open spec fn node_field(node: u32, offset: u32) -> u32 {
    node.wrapping_sub(FRAME_NODE_OFFSET).wrapping_add(offset)
}

/// Accesses of raising `bits` in the scheduler's pending events, which held
/// `pending`.
pub open spec fn raise_accesses(pending: u32, bits: u32) -> Seq<MmioAccess> {
    seq![rd32(SCHEDULER_PENDING_EVENTS, pending), wr32(SCHEDULER_PENDING_EVENTS, pending | bits)]
}

/// Whether the special gate is consulted, given the values read: only for a
/// class-0 context whose frame control has bit 3 set.
pub open spec fn completion_gate_consulted(s: Seq<MmioAccess>) -> bool {
    (value_of(s[5]) as u8) == 0 && (value_of(s[6]) as u16) & 8 != 0
}

/// The first seven accesses of queuing `node`, given the values read: the
/// queued ownership bit, the signal for the terminal status, and the reads
/// of the completion class and frame control.
pub open spec fn completion_enqueue_head(node: u32, s: Seq<MmioAccess>) -> Seq<MmioAccess> {
    let ownership = node_field(node, OWNERSHIP_BITS);
    let terminal = node_field(node, TERMINAL_STATUS);
    let auxiliary = node_field(node, AUXILIARY_STATE);
    let flags = value_of(s[0]);
    let status = value_of(s[2]);
    let marked = seq![
        rd32(ownership, flags),
        wr32(ownership, flags | COMPLETION_QUEUED_OWNERSHIP),
        rd16(terminal, status),
    ];
    let signalled = if (status as u16) == DEFERRED_TERMINAL_STATUS {
        let state = value_of(s[3]);
        seq![rd16(auxiliary, state), wr16(auxiliary, (((state as u16) | 2) as u16) as u32)]
    } else {
        raise_accesses(value_of(s[3]), COMPLETION_PENDING_EVENT)
    };
    let classified = seq![
        rd8(node_field(node, COMPLETION_CLASS), value_of(s[5])),
        rd16(node_field(node, FRAME_CONTROL), value_of(s[6])),
    ];
    marked + signalled + classified
}

/// Accesses of queuing `node`, given the values read and what the special
/// gate answered when it was consulted.
pub open spec fn completion_enqueue_accesses(node: u32, s: Seq<MmioAccess>, gate: bool) -> Seq<MmioAccess> {
    let head = completion_enqueue_head(node, s);
    if completion_gate_consulted(s) && gate {
        head
    } else {
        head + raise_accesses(value_of(s[7]), COMPLETION_DRAIN_EVENT)
    }
}

/// Queuing depends only on its own reads.
pub(crate) proof fn lemma_completion_enqueue_extends(node: u32, gate: bool, t: Seq<MmioAccess>, e: Seq<MmioAccess>)
    requires
        completion_enqueue_accesses(node, t, gate).len() <= t.len(),
    ensures
        completion_enqueue_accesses(node, t + e, gate) == completion_enqueue_accesses(node, t, gate),
        completion_gate_consulted(t + e) == completion_gate_consulted(t),
{
    let u = t + e;
    assert(u[0] == t[0]);
    assert(u[2] == t[2]);
    assert(u[3] == t[3]);
    assert(u[5] == t[5]);
    assert(u[6] == t[6]);
    if !(completion_gate_consulted(t) && gate) {
        assert(u[7] == t[7]);
    }
}

/// Raises `bits` in the scheduler's pending events: a read, then a write of
/// the word with those bits set.
pub fn raise_scheduler_bits<M: MacPipeMmio>(mmio: &mut M, bits: u32)
    ensures
        ({
            let s = trace_after(final(mmio).accesses(), old(mmio).accesses().len() as int);
            final(mmio).accesses() == old(mmio).accesses() + raise_accesses(value_of(s[0]), bits)
        }),
{
    let ghost before = mmio.accesses();
    let pending = mmio.read_u32(SCHEDULER_PENDING_EVENTS);
    mmio.write_u32(SCHEDULER_PENDING_EVENTS, pending | bits);
    let ghost s = trace_after(mmio.accesses(), before.len() as int);
    assert(value_of(s[0]) == pending);
    assert(mmio.accesses() =~= before + raise_accesses(pending, bits));
}

/// Puts `frame_node` on the completion ring and signals it: the context's
/// queued ownership bit is set; a deferred terminal status is flagged in the
/// auxiliary state, any other raises the completion-pending event; then,
/// unless the context is class 0 with frame-control bit 3 set and
/// `special_gate` answers true, the completion-drain event is raised. The
/// gate is called only in that case.
pub fn enqueue_completion_frame_node<M: MacPipeMmio, F: FnOnce() -> bool>(
    mmio: &mut M,
    ring: &mut CompletionRing,
    frame_node: FrameNodeAddress,
    special_gate: F,
)
    requires
        call_requires(special_gate, ()),
    ensures
        final(ring).consumer() == old(ring).consumer(),
        final(ring).producer() == (old(ring).producer() + 1) % 64,
        final(ring).slots() == old(ring).slots().update(old(ring).producer() as int, frame_node@),
        old(ring)@.len() < 63 ==> final(ring)@ == old(ring)@.push(frame_node@),
        exists|gate: bool|
            #![trigger completion_enqueue_accesses(frame_node@, trace_after(final(mmio).accesses(), old(mmio).accesses().len() as int), gate)]
            {
                let s = trace_after(final(mmio).accesses(), old(mmio).accesses().len() as int);
                &&& completion_gate_consulted(s) ==> call_ensures(special_gate, (), gate)
                &&& final(mmio).accesses() == old(mmio).accesses() + completion_enqueue_accesses(
                    frame_node@,
                    s,
                    gate,
                )
            },
{
    let ghost before = mmio.accesses();
    let (completion_class, frame_control) = queue_and_classify(mmio, ring, frame_node);
    let ghost classified = mmio.accesses();
    let gate = if completion_class == 0 && frame_control & 8 != 0 {
        special_gate()
    } else {
        false
    };
    let drain = completion_drain_required(completion_class, frame_control, gate);
    raise_completion_drain(mmio, drain);
    proof {
        let s = trace_after(mmio.accesses(), before.len() as int);
        let h = trace_after(classified, before.len() as int);
        let r = trace_after(mmio.accesses(), classified.len() as int);
        assert(s =~= h + r);
        assert(s[5] == h[5]);
        assert(s[6] == h[6]);
        if drain {
            assert(s[7] == r[0]);
        }
        assert(mmio.accesses() =~= before + completion_enqueue_accesses(frame_node@, s, gate));
    }
}

/// Puts `frame_node` on the completion ring, signals it, and reads its
/// completion class and frame control; see `completion_enqueue_head`.
pub(crate) fn queue_and_classify<M: MacPipeMmio>(
    mmio: &mut M,
    ring: &mut CompletionRing,
    frame_node: FrameNodeAddress,
) -> (classified: (u8, u16))
    ensures
        final(ring).consumer() == old(ring).consumer(),
        final(ring).producer() == (old(ring).producer() + 1) % 64,
        final(ring).slots() == old(ring).slots().update(old(ring).producer() as int, frame_node@),
        old(ring)@.len() < 63 ==> final(ring)@ == old(ring)@.push(frame_node@),
        ({
            let t = trace_after(final(mmio).accesses(), old(mmio).accesses().len() as int);
            &&& final(mmio).accesses() == old(mmio).accesses() + completion_enqueue_head(frame_node@, t)
            &&& classified.0 as u32 == value_of(t[5])
            &&& classified.1 as u32 == value_of(t[6])
        }),
{
    let ghost before = mmio.accesses();
    ring.enqueue(frame_node);
    let context = frame_node.context();
    let ownership = context.ownership_bits_address();
    let flags = mmio.read_u32(ownership);
    mmio.write_u32(ownership, flags | COMPLETION_QUEUED_OWNERSHIP);
    let status = mmio.read_u16(context.terminal_status_address());
    let ghost mut state_read: u32 = 0;
    if status == DEFERRED_TERMINAL_STATUS {
        let auxiliary = context.auxiliary_state_address();
        let state = mmio.read_u16(auxiliary);
        mmio.write_u16(auxiliary, state | 2);
        proof {
            state_read = state as u32;
        }
    } else {
        raise_scheduler_bits(mmio, COMPLETION_PENDING_EVENT);
    }
    let ghost after_signal = mmio.accesses();
    let completion_class = mmio.read_u8(context.completion_class_address());
    let frame_control = mmio.read_u16(context.frame_control_address());
    proof {
        let t = trace_after(mmio.accesses(), before.len() as int);
        assert(value_of(t[0]) == flags);
        assert(value_of(t[2]) == status as u32);
        if status == DEFERRED_TERMINAL_STATUS {
            assert(value_of(t[3]) == state_read);
        } else {
            let raised = trace_after(after_signal, (before.len() + 3) as int);
            assert(t[3] == raised[0]);
        }
        assert(value_of(t[5]) == completion_class as u32);
        assert(value_of(t[6]) == frame_control as u32);
        assert(mmio.accesses() =~= before + completion_enqueue_head(frame_node@, t));
    }
    (completion_class, frame_control)
}

/// Raises the completion-drain event when `drain` holds.
pub(crate) fn raise_completion_drain<M: MacPipeMmio>(mmio: &mut M, drain: bool)
    ensures
        ({
            let t = trace_after(final(mmio).accesses(), old(mmio).accesses().len() as int);
            final(mmio).accesses() == old(mmio).accesses() + if drain {
                raise_accesses(value_of(t[0]), COMPLETION_DRAIN_EVENT)
            } else {
                Seq::empty()
            }
        }),
{
    if drain {
        raise_scheduler_bits(mmio, COMPLETION_DRAIN_EVENT);
    } else {
        assert(mmio.accesses() =~= mmio.accesses() + Seq::empty());
    }
}

/// Whether `frame_node` belongs to the context whose terminal status the
/// tracker has observed.
pub open spec fn terminal_completion_matches(state: ProbeTxState, frame_node: FrameNodeAddress) -> bool {
    &&& state.ownership is TerminalObserved
    &&& frame_node@.wrapping_sub(FRAME_NODE_OFFSET) == state.ownership->TerminalObserved_context
}

/// Queues the completion of the probe frame whose terminal status the
/// tracker observed, moving the tracker to `CompletionQueued`. Nothing is
/// touched, and false returned, unless the tracker is in `TerminalObserved`
/// for the context of `frame_node`, so a terminal context is never queued
/// twice.
pub fn enqueue_probe_terminal_completion<M: MacPipeMmio, F: FnOnce() -> bool>(
    mmio: &mut M,
    ring: &mut CompletionRing,
    tracker: &mut ProbeTxTracker,
    frame_node: FrameNodeAddress,
    special_gate: F,
) -> (queued: bool)
    requires
        call_requires(special_gate, ()),
    ensures
        queued == terminal_completion_matches(old(tracker)@, frame_node),
        !queued ==> *final(ring) == *old(ring) && final(mmio).accesses() == old(mmio).accesses()
            && final(tracker)@ == old(tracker)@,
        queued ==> ({
            let observed = old(tracker)@.ownership;
            &&& final(tracker)@ == (ProbeTxState {
                ownership: ProbeTxOwnership::CompletionQueued {
                    context: observed->TerminalObserved_context,
                    pipe: observed->TerminalObserved_pipe,
                    slot: observed->TerminalObserved_slot,
                    status: observed->TerminalObserved_status,
                },
                ..old(tracker)@
            })
            &&& final(ring).consumer() == old(ring).consumer()
            &&& final(ring).producer() == (old(ring).producer() + 1) % 64
            &&& final(ring).slots() == old(ring).slots().update(old(ring).producer() as int, frame_node@)
            &&& old(ring)@.len() < 63 ==> final(ring)@ == old(ring)@.push(frame_node@)
            &&& exists|gate: bool|
                #![trigger completion_enqueue_accesses(frame_node@, trace_after(final(mmio).accesses(), old(mmio).accesses().len() as int), gate)]
                {
                    let s = trace_after(final(mmio).accesses(), old(mmio).accesses().len() as int);
                    &&& completion_gate_consulted(s) ==> call_ensures(special_gate, (), gate)
                    &&& final(mmio).accesses() == old(mmio).accesses() + completion_enqueue_accesses(
                        frame_node@,
                        s,
                        gate,
                    )
                }
        }),
{
    let context = match tracker.ownership() {
        ProbeTxOwnership::TerminalObserved { context, .. } => context,
        _ => return false,
    };
    if frame_node.context().raw() != context {
        return false;
    }
    enqueue_completion_frame_node(mmio, ring, frame_node, special_gate);
    tracker.queue_terminal_completion()
}

/// A terminal completion is queued at most once: once queued, the tracker
/// no longer matches the frame node, so a second attempt is refused.
pub proof fn lemma_terminal_completion_queued_once(state: ProbeTxState, frame_node: FrameNodeAddress)
    requires
        terminal_completion_matches(state, frame_node),
    ensures
        !terminal_completion_matches(
            ProbeTxState {
                ownership: ProbeTxOwnership::CompletionQueued {
                    context: state.ownership->TerminalObserved_context,
                    pipe: state.ownership->TerminalObserved_pipe,
                    slot: state.ownership->TerminalObserved_slot,
                    status: state.ownership->TerminalObserved_status,
                },
                ..state
            },
            frame_node,
        ),
{
}

} // verus!
