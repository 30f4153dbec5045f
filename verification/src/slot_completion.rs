//! Completing a transmitted pipe slot: every frame of the slot's chain gets
//! its terminal status and completion time; single frames go onto the
//! completion ring; an aggregate settles its link state and, on success,
//! takes the BlockAck that answered it.

use vstd::prelude::*;

use crate::completion_enqueue::{
    completion_enqueue_accesses, completion_gate_consulted, lemma_completion_enqueue_extends,
    node_field, queue_and_classify, raise_accesses, raise_completion_drain, raise_scheduler_bits,
    COMPLETION_PENDING_EVENT,
};
use crate::aggregate_answer::{epilogue_step, finish_aggregate};
use crate::completion_ring::CompletionRing;
use crate::context::FrameNodeAddress;
use crate::mmio::{rd16, rd32, rd8, trace_after, value_of, wr16, wr32, wr8, MacPipeMmio, MmioAccess};
use crate::offset::{
    AUXILIARY_STATE, COMPLETION_TIMESTAMP, CONTROL_BITS, LINK_ID, NEXT_IN_AMPDU, OWNERSHIP_BITS,
    TERMINAL_STATUS,
};
use crate::plans::completion_drain_required;
use crate::registers::{LOW_MAC_ACTIVE_TX_COUNT, SLOT_AUXILIARY, SLOT_FRAME, SLOT_KIND};

verus! {

/// Free-running microsecond timer of the MAC.
pub const MAC_TIMESTAMP: u32 = 0x0ac0_0004;

/// Head of the free list of software descriptor records.
pub const MAC_SOFTWARE_RECORDS: u32 = 0x0400_1fe4;

/// Slot kind of a single frame.
pub const SINGLE_FRAME_SLOT: u8 = 0;

/// Slot kind of an aggregate.
pub const AGGREGATE_SLOT: u8 = 1;

/// Link state while an aggregate's completion is settled.
pub const LINK_STATE_SETTLING: u8 = 10;

/// Link state after a failed aggregate.
pub const LINK_STATE_FAILED: u8 = 0x0b;

/// Ownership bit of an aggregate member whose status is final.
pub const AGGREGATE_DONE_OWNERSHIP: u32 = 0x0400;

/// Ownership bit of a single frame handed to the completion ring.
pub const COMPLETED_OWNERSHIP: u32 = 0x0800;

/// Longest frame chain a slot is walked for; a longer one is not a chain
/// the firmware built.
pub const SLOT_CHAIN_LIMIT: u32 = 64;

/// A call the slot completion makes to its effects, with what it answered.
#[derive(Clone, Copy, Debug, PartialEq, Eq, Structural)]
pub enum SlotCompletionCall {
    LinkSetState { link: u8, state: u8 },
    RateRecovery { frame_node: FrameNodeAddress, status: u16 },
    SpecialGate { frame_node: FrameNodeAddress, open: bool },
    FindRxFrame { subtype: u8, found: Option<u32> },
    FindTxPipe { interface: u8, tid: u8, mac: Option<u32>, pipe: u8 },
    ProcessBaBitmap { pipe: u8 },
    InvalidLink,
}

/// What completing a slot asks of the rest of the firmware. Each call is
/// recorded in `calls`, with its answer.
pub trait PipeSlotCompletionEffects {
    /// Every call made so far, oldest first.
    /// A verified implementation defines it; the empty default only lets an
    /// implementation that Verus does not check leave it out.
    open spec fn calls(&self) -> Seq<SlotCompletionCall> {
        Seq::empty()
    }

    fn link_set_state(&mut self, link: u8, state: u8)
        ensures
            final(self).calls() == old(self).calls().push(SlotCompletionCall::LinkSetState { link, state }),
    ;

    fn rate_recovery_on_success(&mut self, frame_node: FrameNodeAddress, status: u16)
        ensures
            final(self).calls() == old(self).calls().push(SlotCompletionCall::RateRecovery { frame_node, status }),
    ;

    /// Whether a class-0 data frame's drain is held back.
    fn special_completion_gate(&mut self, frame_node: FrameNodeAddress) -> (open: bool)
        ensures
            final(self).calls() == old(self).calls().push(SlotCompletionCall::SpecialGate { frame_node, open }),
    ;

    /// A received frame of `subtype`, if there is one.
    fn find_rx_frame_by_subtype(&mut self, subtype: u8) -> (found: Option<u32>)
        ensures
            final(self).calls() == old(self).calls().push(SlotCompletionCall::FindRxFrame { subtype, found }),
    ;

    /// The TX pipe of a peer and TID; 8 or more when there is none.
    fn find_tx_pipe_by_mac_tid(&mut self, interface: u8, tid: u8, mac: Option<u32>) -> (pipe: u8)
        ensures
            final(self).calls() == old(self).calls().push(
                SlotCompletionCall::FindTxPipe { interface, tid, mac, pipe },
            ),
    ;

    fn process_ba_bitmap(&mut self, pipe: u8)
        ensures
            final(self).calls() == old(self).calls().push(SlotCompletionCall::ProcessBaBitmap { pipe }),
    ;

    /// Reports an aggregate completed on a link out of range; the firmware
    /// stops there.
    fn invalid_link_assertion(&mut self)
        ensures
            final(self).calls() == old(self).calls().push(SlotCompletionCall::InvalidLink),
    ;
}

/// How completing a slot ended.
#[derive(Clone, Copy, Debug, PartialEq, Eq, Structural)]
pub enum SlotCompletionOutcome {
    Completed,
    /// The frame chain did not end within `SLOT_CHAIN_LIMIT` frames.
    ChainTooLong,
    /// An answered aggregate named a link out of range.
    InvalidLink,
}

/// Accesses of counting one frame off the MAC's active count, which held
/// `count`.
pub open spec fn count_down_accesses(count: u32) -> Seq<MmioAccess> {
    seq![rd8(LOW_MAC_ACTIVE_TX_COUNT, count), wr8(LOW_MAC_ACTIVE_TX_COUNT, ((count + 255) % 256) as u32)]
}

pub(crate) fn count_down_active<M: MacPipeMmio>(mmio: &mut M)
    ensures
        ({
            let t = trace_after(final(mmio).accesses(), old(mmio).accesses().len() as int);
            final(mmio).accesses() == old(mmio).accesses() + count_down_accesses(value_of(t[0]))
        }),
{
    let ghost before = mmio.accesses();
    let count = mmio.read_u8(LOW_MAC_ACTIVE_TX_COUNT);
    mmio.write_u8(LOW_MAC_ACTIVE_TX_COUNT, count.wrapping_sub(1));
    let ghost t = trace_after(mmio.accesses(), before.len() as int);
    assert(value_of(t[0]) == count as u32);
    assert(count.wrapping_sub(1) as u32 == ((count as u32 + 255) % 256) as u32);
    assert(mmio.accesses() =~= before + count_down_accesses(count as u32));
}

/// Accesses of the slot's opening, given the values read: the time, the
/// link and the slot kind; a slot of another kind than single or aggregate
/// is only counted off; an aggregate returns its descriptor record to the
/// free list; then the slot's frame is cleared.
pub open spec fn prologue_accesses(first: u32, slot: u32, s: Seq<MmioAccess>) -> Seq<MmioAccess> {
    let kind = value_of(s[2]) as u8;
    let head = seq![
        rd32(MAC_TIMESTAMP, value_of(s[0])),
        rd8(node_field(first, LINK_ID), value_of(s[1])),
        rd8(slot.wrapping_add(SLOT_KIND), value_of(s[2])),
    ];
    if kind != SINGLE_FRAME_SLOT && kind != AGGREGATE_SLOT {
        head + count_down_accesses(value_of(s[3]))
    } else if kind == AGGREGATE_SLOT {
        let descriptor = value_of(s[3]);
        let records = value_of(s[4]);
        head + seq![
            rd32(slot.wrapping_add(SLOT_AUXILIARY), descriptor),
            rd32(MAC_SOFTWARE_RECORDS, records),
            wr32(descriptor, records),
            wr32(MAC_SOFTWARE_RECORDS, descriptor),
            wr32(slot.wrapping_add(SLOT_FRAME), 0),
        ]
    } else {
        head + seq![wr32(slot.wrapping_add(SLOT_FRAME), 0)]
    }
}

/// Calls of the slot's opening: an aggregate on a link in range is set
/// settling, and a single frame or aggregate asks for rate recovery.
pub open spec fn prologue_calls(first: u32, status: u16, s: Seq<MmioAccess>) -> Seq<SlotCompletionCall> {
    let kind = value_of(s[2]) as u8;
    let link = value_of(s[1]) as u8;
    let recovery = seq![SlotCompletionCall::RateRecovery { frame_node: FrameNodeAddress(first), status }];
    if kind == AGGREGATE_SLOT {
        (if link < 8 {
            seq![SlotCompletionCall::LinkSetState { link, state: LINK_STATE_SETTLING }]
        } else {
            Seq::empty()
        }) + recovery
    } else if kind == SINGLE_FRAME_SLOT {
        recovery
    } else {
        Seq::empty()
    }
}

/// Returns the time, the link and the slot kind read.
fn open_slot<M: MacPipeMmio, B: PipeSlotCompletionEffects>(
    mmio: &mut M,
    backend: &mut B,
    first: FrameNodeAddress,
    slot: u32,
    status: u16,
) -> (opened: (u32, u8, u8))
    ensures
        ({
            let t = trace_after(final(mmio).accesses(), old(mmio).accesses().len() as int);
            &&& final(mmio).accesses() == old(mmio).accesses() + prologue_accesses(first@, slot, t)
            &&& final(backend).calls() == old(backend).calls() + prologue_calls(first@, status, t)
            &&& opened == (value_of(t[0]), value_of(t[1]) as u8, value_of(t[2]) as u8)
        }),
{
    let ghost before = mmio.accesses();
    let ghost calls_before = backend.calls();
    let timestamp = mmio.read_u32(MAC_TIMESTAMP);
    let link = mmio.read_u8(first.context().link_id_address());
    let kind = mmio.read_u8(slot.wrapping_add(SLOT_KIND));
    let ghost head = mmio.accesses();
    if kind != SINGLE_FRAME_SLOT && kind != AGGREGATE_SLOT {
        count_down_active(mmio);
        proof {
            let t = trace_after(mmio.accesses(), before.len() as int);
            let c = trace_after(mmio.accesses(), head.len() as int);
            assert(t[3] == c[0]);
            assert(value_of(t[2]) == kind as u32);
        }
    } else {
        if kind == AGGREGATE_SLOT {
            if link < 8 {
                backend.link_set_state(link, LINK_STATE_SETTLING);
            }
            let descriptor = mmio.read_u32(slot.wrapping_add(SLOT_AUXILIARY));
            let records = mmio.read_u32(MAC_SOFTWARE_RECORDS);
            mmio.write_u32(descriptor, records);
            mmio.write_u32(MAC_SOFTWARE_RECORDS, descriptor);
            let ghost t = trace_after(mmio.accesses(), before.len() as int);
            assert(value_of(t[3]) == descriptor);
            assert(value_of(t[4]) == records);
        }
        backend.rate_recovery_on_success(first, status);
        mmio.write_u32(slot.wrapping_add(SLOT_FRAME), 0);
    }
    let ghost t = trace_after(mmio.accesses(), before.len() as int);
    assert(value_of(t[0]) == timestamp);
    assert(value_of(t[1]) == link as u32);
    assert(value_of(t[2]) == kind as u32);
    assert(mmio.accesses() =~= before + prologue_accesses(first@, slot, t));
    assert(backend.calls() =~= calls_before + prologue_calls(first@, status, t));
    (timestamp, link, kind)
}

proof fn lemma_prologue_extends(first: u32, slot: u32, t: Seq<MmioAccess>, e: Seq<MmioAccess>)
    requires
        prologue_accesses(first, slot, t).len() <= t.len(),
    ensures
        prologue_accesses(first, slot, t + e) == prologue_accesses(first, slot, t),
        (t + e)[0] == t[0],
        (t + e)[1] == t[1],
        (t + e)[2] == t[2],
{
    let u = t + e;
    assert(u[0] == t[0]);
    assert(u[1] == t[1]);
    assert(u[2] == t[2]);
    let kind = value_of(t[2]) as u8;
    if kind != SINGLE_FRAME_SLOT {
        assert(u[3] == t[3]);
        if kind == AGGREGATE_SLOT {
            assert(u[4] == t[4]);
        }
    }
}

/// What the special gate answered, when the first call is a gate call.
pub open spec fn member_gate(calls: Seq<SlotCompletionCall>) -> bool {
    if calls.len() > 0 && calls[0] is SpecialGate {
        calls[0]->SpecialGate_open
    } else {
        false
    }
}

/// Accesses of stamping one frame of the chain, given the values read: an
/// aggregate member is marked done and acknowledged in its auxiliary state;
/// every frame takes its class bits, the terminal status and the completion
/// time.
pub open spec fn member_stamp_accesses(node: u32, aggregate: bool, status: u16, timestamp: u32, s: Seq<MmioAccess>) -> Seq<
    MmioAccess,
> {
    let ownership = node_field(node, OWNERSHIP_BITS);
    let auxiliary = node_field(node, AUXILIARY_STATE);
    let marked = if aggregate {
        seq![
            rd32(ownership, value_of(s[0])),
            wr32(ownership, value_of(s[0]) | AGGREGATE_DONE_OWNERSHIP),
            rd16(auxiliary, value_of(s[2])),
            wr16(auxiliary, (((value_of(s[2]) as u16) | 1) as u16) as u32),
        ]
    } else {
        Seq::empty()
    };
    let k = marked.len() as int;
    let control = value_of(s[k]);
    let state = value_of(s[k + 1]);
    let class_bits = ((control >> 18u32) & 0x0c) as u16;
    marked + seq![
        rd32(node_field(node, CONTROL_BITS), control),
        rd16(auxiliary, state),
        wr16(auxiliary, (((state as u16) | class_bits) as u16) as u32),
        wr16(node_field(node, TERMINAL_STATUS), status as u32),
        wr32(node_field(node, COMPLETION_TIMESTAMP), timestamp),
    ]
}

/// Accesses of signalling one stamped frame, given the values read and the
/// gate's answer: a successful aggregate member raises the
/// completion-pending event; a single frame is marked completed and queued
/// for the host.
pub open spec fn member_signal_accesses(node: u32, aggregate: bool, status: u16, s: Seq<MmioAccess>, gate: bool) -> Seq<
    MmioAccess,
> {
    if aggregate {
        if status == 0 {
            raise_accesses(value_of(s[0]), COMPLETION_PENDING_EVENT)
        } else {
            Seq::empty()
        }
    } else {
        let ownership = node_field(node, OWNERSHIP_BITS);
        seq![rd32(ownership, value_of(s[0])), wr32(ownership, value_of(s[0]) | COMPLETED_OWNERSHIP)]
            + completion_enqueue_accesses(node, s.skip(2), gate)
    }
}

/// Backend calls made while signalling one frame: for a non-aggregate
/// frame, the special completion gate is consulted when the queue logic
/// reaches it.
pub open spec fn member_signal_calls(node: u32, aggregate: bool, s: Seq<MmioAccess>, gate: bool) -> Seq<
    SlotCompletionCall,
> {
    if !aggregate && completion_gate_consulted(s.skip(2)) {
        seq![SlotCompletionCall::SpecialGate { frame_node: FrameNodeAddress(node), open: gate }]
    } else {
        Seq::empty()
    }
}

/// Accesses of completing one frame of the chain: stamped, signalled, and
/// the next frame of the chain read.
#[verifier::opaque]
pub open spec fn member_accesses(
    node: u32,
    aggregate: bool,
    status: u16,
    timestamp: u32,
    s: Seq<MmioAccess>,
    gate: bool,
) -> Seq<MmioAccess> {
    let stamped = member_stamp_accesses(node, aggregate, status, timestamp, s);
    let rest = s.skip(stamped.len() as int);
    let signalled = member_signal_accesses(node, aggregate, status, rest, gate);
    stamped + signalled + seq![
        rd32(node_field(node, NEXT_IN_AMPDU), value_of(rest[signalled.len() as int])),
    ]
}

/// Calls of completing one frame of the chain.
#[verifier::opaque]
pub open spec fn member_calls(node: u32, aggregate: bool, status: u16, timestamp: u32, s: Seq<MmioAccess>, gate: bool) -> Seq<
    SlotCompletionCall,
> {
    let stamped = member_stamp_accesses(node, aggregate, status, timestamp, s);
    member_signal_calls(node, aggregate, s.skip(stamped.len() as int), gate)
}

fn stamp_member<M: MacPipeMmio>(mmio: &mut M, node: FrameNodeAddress, aggregate: bool, status: u16, timestamp: u32)
    ensures
        ({
            let t = trace_after(final(mmio).accesses(), old(mmio).accesses().len() as int);
            final(mmio).accesses() == old(mmio).accesses() + member_stamp_accesses(
                node@,
                aggregate,
                status,
                timestamp,
                t,
            )
        }),
{
    let ghost before = mmio.accesses();
    let context = node.context();
    let auxiliary = context.auxiliary_state_address();
    if aggregate {
        let ownership = context.ownership_bits_address();
        let flags = mmio.read_u32(ownership);
        mmio.write_u32(ownership, flags | AGGREGATE_DONE_OWNERSHIP);
        let state = mmio.read_u16(auxiliary);
        mmio.write_u16(auxiliary, state | 1);
        let ghost t = trace_after(mmio.accesses(), before.len() as int);
        assert(value_of(t[0]) == flags);
        assert(value_of(t[2]) == state as u32);
    }
    let ghost after_marked = mmio.accesses();
    let control = mmio.read_u32(context.control_bits_address());
    let class_bits = ((control >> 18) & 0x0c) as u16;
    let state = mmio.read_u16(auxiliary);
    mmio.write_u16(auxiliary, state | class_bits);
    mmio.write_u16(context.terminal_status_address(), status);
    mmio.write_u32(context.completion_timestamp_address(), timestamp);
    let ghost t = trace_after(mmio.accesses(), before.len() as int);
    let ghost k = (after_marked.len() - before.len()) as int;
    assert(value_of(t[k]) == control);
    assert(value_of(t[k + 1]) == state as u32);
    assert(mmio.accesses() =~= before + member_stamp_accesses(node@, aggregate, status, timestamp, t));
}

proof fn lemma_stamp_extends(
    node: u32,
    aggregate: bool,
    status: u16,
    timestamp: u32,
    t: Seq<MmioAccess>,
    e: Seq<MmioAccess>,
)
    requires
        member_stamp_accesses(node, aggregate, status, timestamp, t).len() <= t.len(),
    ensures
        member_stamp_accesses(node, aggregate, status, timestamp, t + e) == member_stamp_accesses(
            node,
            aggregate,
            status,
            timestamp,
            t,
        ),
{
    let u = t + e;
    let k: int = if aggregate {
        4
    } else {
        0
    };
    if aggregate {
        assert(u[0] == t[0]);
        assert(u[2] == t[2]);
    }
    assert(u[k] == t[k]);
    assert(u[k + 1] == t[k + 1]);
}

fn signal_member<M: MacPipeMmio, B: PipeSlotCompletionEffects>(
    mmio: &mut M,
    ring: &mut CompletionRing,
    backend: &mut B,
    node: FrameNodeAddress,
    aggregate: bool,
    status: u16,
)
    ensures
        ({
            let t = trace_after(final(mmio).accesses(), old(mmio).accesses().len() as int);
            let gate = member_gate(final(backend).calls().skip(old(backend).calls().len() as int));
            &&& final(mmio).accesses() == old(mmio).accesses() + member_signal_accesses(
                node@,
                aggregate,
                status,
                t,
                gate,
            )
            &&& final(backend).calls() == old(backend).calls() + member_signal_calls(node@, aggregate, t, gate)
        }),
        aggregate ==> *final(ring) == *old(ring),
        !aggregate ==> {
            &&& final(ring).consumer() == old(ring).consumer()
            &&& final(ring).producer() == (old(ring).producer() + 1) % 64
            &&& old(ring)@.len() < 63 ==> final(ring)@ == old(ring)@.push(node@)
        },
{
    let ghost before = mmio.accesses();
    let ghost calls_before = backend.calls();
    if aggregate {
        if status == 0 {
            raise_scheduler_bits(mmio, COMPLETION_PENDING_EVENT);
        } else {
            assert(mmio.accesses() =~= before + Seq::empty());
        }
        assert(backend.calls() =~= calls_before + Seq::empty());
        return;
    }
    let ownership = node.context().ownership_bits_address();
    let flags = mmio.read_u32(ownership);
    mmio.write_u32(ownership, flags | COMPLETED_OWNERSHIP);
    let ghost queued_at = mmio.accesses();
    let (completion_class, frame_control) = queue_and_classify(mmio, ring, node);
    let ghost classified = mmio.accesses();
    let consulted = completion_class == 0 && frame_control & 8 != 0;
    let gate = if consulted {
        backend.special_completion_gate(node)
    } else {
        false
    };
    let drain = completion_drain_required(completion_class, frame_control, gate);
    raise_completion_drain(mmio, drain);
    proof {
        let t = trace_after(mmio.accesses(), before.len() as int);
        let q = trace_after(mmio.accesses(), queued_at.len() as int);
        let h = trace_after(classified, queued_at.len() as int);
        let r = trace_after(mmio.accesses(), classified.len() as int);
        assert(value_of(t[0]) == flags);
        assert(t.skip(2) =~= q);
        assert(q =~= h + r);
        assert(q[5] == h[5]);
        assert(q[6] == h[6]);
        if drain {
            assert(q[7] == r[0]);
        }
        let new_calls = backend.calls().skip(calls_before.len() as int);
        if consulted {
            assert(new_calls[0] == SlotCompletionCall::SpecialGate { frame_node: node, open: gate });
        }
        assert(mmio.accesses() =~= before + member_signal_accesses(node@, aggregate, status, t, member_gate(new_calls)));
        assert(backend.calls() =~= calls_before + member_signal_calls(node@, aggregate, t, member_gate(new_calls)));
    }
}

proof fn lemma_signal_extends(node: u32, aggregate: bool, status: u16, gate: bool, t: Seq<MmioAccess>, e: Seq<MmioAccess>)
    requires
        member_signal_accesses(node, aggregate, status, t, gate).len() <= t.len(),
    ensures
        member_signal_accesses(node, aggregate, status, t + e, gate) == member_signal_accesses(
            node,
            aggregate,
            status,
            t,
            gate,
        ),
        member_signal_calls(node, aggregate, t + e, gate) == member_signal_calls(node, aggregate, t, gate),
{
    let u = t + e;
    if !(aggregate && status != 0) {
        assert(u[0] == t[0]);
    }
    if !aggregate {
        assert(u.skip(2) =~= t.skip(2) + e);
        lemma_completion_enqueue_extends(node, gate, t.skip(2), e);
    }
}

/// Completes one frame of the chain; returns the next frame node, 0 at the
/// end of the chain.
fn complete_member<M: MacPipeMmio, B: PipeSlotCompletionEffects>(
    mmio: &mut M,
    ring: &mut CompletionRing,
    backend: &mut B,
    node: FrameNodeAddress,
    aggregate: bool,
    status: u16,
    timestamp: u32,
) -> (next: u32)
    ensures
        ({
            let t = trace_after(final(mmio).accesses(), old(mmio).accesses().len() as int);
            let gate = member_gate(final(backend).calls().skip(old(backend).calls().len() as int));
            let accesses = member_accesses(node@, aggregate, status, timestamp, t, gate);
            &&& final(mmio).accesses() == old(mmio).accesses() + accesses
            &&& final(backend).calls() == old(backend).calls() + member_calls(
                node@,
                aggregate,
                status,
                timestamp,
                t,
                gate,
            )
            &&& next == value_of(t[accesses.len() - 1])
        }),
        aggregate ==> *final(ring) == *old(ring),
        !aggregate ==> {
            &&& final(ring).consumer() == old(ring).consumer()
            &&& final(ring).producer() == (old(ring).producer() + 1) % 64
            &&& old(ring)@.len() < 63 ==> final(ring)@ == old(ring)@.push(node@)
        },
{
    reveal(member_accesses);
    reveal(member_calls);
    let ghost before = mmio.accesses();
    stamp_member(mmio, node, aggregate, status, timestamp);
    let ghost stamped = mmio.accesses();
    signal_member(mmio, ring, backend, node, aggregate, status);
    let ghost signalled = mmio.accesses();
    let next = mmio.read_u32(node.context().next_in_ampdu_address());
    proof {
        let t = trace_after(mmio.accesses(), before.len() as int);
        let ta = trace_after(stamped, before.len() as int);
        let tb = trace_after(signalled, stamped.len() as int);
        let tc = trace_after(mmio.accesses(), signalled.len() as int);
        assert(t =~= ta + (tb + tc));
        lemma_stamp_extends(node@, aggregate, status, timestamp, ta, tb + tc);
        assert(t.skip(ta.len() as int) =~= tb + tc);
        let gate = member_gate(backend.calls().skip(old(backend).calls().len() as int));
        lemma_signal_extends(node@, aggregate, status, gate, tb, tc);
        assert((tb + tc)[tb.len() as int] == tc[0]);
        assert(value_of(tc[0]) == next);
    }
    next
}

/// The chain from `node` on, given the values read and the calls made, for
/// at most `budget` frames: its accesses, its calls, the frames completed,
/// and whether the chain ended within the budget.
pub open spec fn chain_step(
    node: u32,
    aggregate: bool,
    status: u16,
    timestamp: u32,
    s: Seq<MmioAccess>,
    c: Seq<SlotCompletionCall>,
    budget: nat,
) -> (Seq<MmioAccess>, Seq<SlotCompletionCall>, Seq<u32>, bool)
    decreases budget,
{
    if budget == 0 {
        (Seq::empty(), Seq::empty(), Seq::empty(), false)
    } else {
        let gate = member_gate(c);
        let a = member_accesses(node, aggregate, status, timestamp, s, gate);
        let mc = member_calls(node, aggregate, status, timestamp, s, gate);
        let next = value_of(s[a.len() - 1]);
        if next == 0 {
            (a, mc, seq![node], true)
        } else {
            let rest = chain_step(
                next,
                aggregate,
                status,
                timestamp,
                s.skip(a.len() as int),
                c.skip(mc.len() as int),
                (budget - 1) as nat,
            );
            (a + rest.0, mc + rest.1, seq![node] + rest.2, rest.3)
        }
    }
}

proof fn lemma_member_gate_prefix(
    node: u32,
    aggregate: bool,
    status: u16,
    timestamp: u32,
    t: Seq<MmioAccess>,
    c1: Seq<SlotCompletionCall>,
    c2: Seq<SlotCompletionCall>,
)
    requires
        c1 == member_calls(node, aggregate, status, timestamp, t, member_gate(c1)),
    ensures
        member_accesses(node, aggregate, status, timestamp, t, member_gate(c1 + c2)) == member_accesses(
            node,
            aggregate,
            status,
            timestamp,
            t,
            member_gate(c1),
        ),
        member_calls(node, aggregate, status, timestamp, t, member_gate(c1 + c2)) == c1,
{
    reveal(member_accesses);
    reveal(member_calls);
    if c1.len() > 0 {
        assert((c1 + c2)[0] == c1[0]);
    }
}

/// A frame's completion depends only on its own reads.
proof fn lemma_member_prefix_stable(
    node: u32,
    aggregate: bool,
    status: u16,
    timestamp: u32,
    gate: bool,
    t: Seq<MmioAccess>,
    e: Seq<MmioAccess>,
)
    requires
        member_accesses(node, aggregate, status, timestamp, t, gate).len() <= t.len(),
    ensures
        member_accesses(node, aggregate, status, timestamp, t + e, gate) == member_accesses(
            node,
            aggregate,
            status,
            timestamp,
            t,
            gate,
        ),
        member_calls(node, aggregate, status, timestamp, t + e, gate) == member_calls(
            node,
            aggregate,
            status,
            timestamp,
            t,
            gate,
        ),
        member_accesses(node, aggregate, status, timestamp, t, gate).len() >= 1,
{
    reveal(member_accesses);
    reveal(member_calls);
    let u = t + e;
    let stamped = member_stamp_accesses(node, aggregate, status, timestamp, t);
    lemma_stamp_extends(node, aggregate, status, timestamp, t, e);
    let rest = t.skip(stamped.len() as int);
    assert(u.skip(stamped.len() as int) =~= rest + e);
    let signalled = member_signal_accesses(node, aggregate, status, rest, gate);
    lemma_signal_extends(node, aggregate, status, gate, rest, e);
    assert((rest + e)[signalled.len() as int] == rest[signalled.len() as int]);
}

#[verifier::spinoff_prover]
#[verifier::rlimit(40)]
fn complete_chain<M: MacPipeMmio, B: PipeSlotCompletionEffects>(
    mmio: &mut M,
    ring: &mut CompletionRing,
    backend: &mut B,
    node: FrameNodeAddress,
    aggregate: bool,
    status: u16,
    timestamp: u32,
    budget: u32,
) -> (ended: bool)
    ensures
        ({
            let t = trace_after(final(mmio).accesses(), old(mmio).accesses().len() as int);
            let c = final(backend).calls().skip(old(backend).calls().len() as int);
            let step = chain_step(node@, aggregate, status, timestamp, t, c, budget as nat);
            &&& final(mmio).accesses() == old(mmio).accesses() + step.0
            &&& final(backend).calls() == old(backend).calls() + step.1
            &&& ended == step.3
            &&& aggregate ==> *final(ring) == *old(ring)
            &&& !aggregate ==> {
                &&& final(ring).consumer() == old(ring).consumer()
                &&& final(ring).producer() == (old(ring).producer() + step.2.len()) % 64
                &&& old(ring)@.len() + step.2.len() <= 63 ==> final(ring)@ == old(ring)@ + step.2
            }
        }),
    decreases budget,
{
    let ghost before = mmio.accesses();
    let ghost calls_before = backend.calls();
    let ghost ring_before = *ring;
    if budget == 0 {
        let _cursors = ring.cursors();
        assert(mmio.accesses() =~= before + Seq::empty());
        assert(backend.calls() =~= calls_before + Seq::empty());
        assert(ring_before@ + Seq::<u32>::empty() =~= ring_before@);
        return false;
    }
    let next = complete_member(mmio, ring, backend, node, aggregate, status, timestamp);
    let ghost member_end = mmio.accesses();
    let ghost member_calls_end = backend.calls();
    let ghost ring_mid = *ring;
    if next == 0 {
        proof {
            let t = trace_after(mmio.accesses(), before.len() as int);
            let c = backend.calls().skip(calls_before.len() as int);
            let gate = member_gate(c);
            let a = member_accesses(node@, aggregate, status, timestamp, t, gate);
            let mc = member_calls(node@, aggregate, status, timestamp, t, gate);
            assert(value_of(t[a.len() - 1]) == 0);
            let step = chain_step(node@, aggregate, status, timestamp, t, c, budget as nat);
            assert(step == (a, mc, seq![node@], true));
            assert(mmio.accesses() == before + step.0);
            assert(backend.calls() == calls_before + step.1);
            if !aggregate && ring_before@.len() + 1 <= 63 {
                assert(ring_before@.push(node@) =~= ring_before@ + seq![node@]);
            }
        }
        return true;
    }
    let next_node = FrameNodeAddress::new(next);
    let ended = complete_chain(mmio, ring, backend, next_node, aggregate, status, timestamp, budget - 1);
    proof {
        let t = trace_after(mmio.accesses(), before.len() as int);
        let t1 = trace_after(member_end, before.len() as int);
        let t2 = trace_after(mmio.accesses(), member_end.len() as int);
        let c = backend.calls().skip(calls_before.len() as int);
        let c1 = member_calls_end.skip(calls_before.len() as int);
        let c2 = backend.calls().skip(member_calls_end.len() as int);
        assert(t =~= t1 + t2);
        assert(c =~= c1 + c2);
        assert(c1 == member_calls(node@, aggregate, status, timestamp, t1, member_gate(c1)));
        lemma_member_gate_prefix(node@, aggregate, status, timestamp, t1, c1, c2);
        let gate = member_gate(c);
        let a = member_accesses(node@, aggregate, status, timestamp, t1, member_gate(c1));
        assert(member_accesses(node@, aggregate, status, timestamp, t1, gate) == a);
        assert(a.len() == t1.len());
        lemma_member_prefix_stable(node@, aggregate, status, timestamp, gate, t1, t2);
        assert(t.skip(a.len() as int) =~= t2);
        assert(c.skip(c1.len() as int) =~= c2);
        assert(t[a.len() - 1] == t1[a.len() - 1]);
        let rest = chain_step(next, aggregate, status, timestamp, t2, c2, (budget - 1) as nat);
        assert(next_node@ == next);
        let step = chain_step(node@, aggregate, status, timestamp, t, c, budget as nat);
        assert(step == (a + rest.0, c1 + rest.1, seq![node@] + rest.2, rest.3));
        assert(mmio.accesses() =~= before + step.0);
        assert(backend.calls() =~= calls_before + step.1);
        if !aggregate {
            assert(((ring_mid.producer() + rest.2.len()) % 64) == ((ring_before.producer() + 1
                + rest.2.len()) % 64)) by (nonlinear_arith)
                requires
                    ring_mid.producer() == (ring_before.producer() + 1) % 64,
            ;
            if ring_before@.len() + 1 + rest.2.len() <= 63 {
                assert(ring_before@.push(node@) + rest.2 =~= ring_before@ + (seq![node@] + rest.2));
            }
        }
    }
    ended
}

proof fn lemma_member_calls_answer(node: u32, aggregate: bool, status: u16, timestamp: u32, t: Seq<MmioAccess>, gate: bool)
    ensures
        ({
            let mc = member_calls(node, aggregate, status, timestamp, t, gate);
            mc == member_calls(node, aggregate, status, timestamp, t, member_gate(mc))
        }),
{
    reveal(member_calls);
}

/// The chain's completion depends only on its own reads and calls.
proof fn lemma_chain_extends(
    node: u32,
    aggregate: bool,
    status: u16,
    timestamp: u32,
    t: Seq<MmioAccess>,
    e: Seq<MmioAccess>,
    c: Seq<SlotCompletionCall>,
    d: Seq<SlotCompletionCall>,
    budget: nat,
)
    requires
        chain_step(node, aggregate, status, timestamp, t, c, budget).0.len() <= t.len(),
        chain_step(node, aggregate, status, timestamp, t, c, budget).1 == c,
    ensures
        chain_step(node, aggregate, status, timestamp, t + e, c + d, budget) == chain_step(
            node,
            aggregate,
            status,
            timestamp,
            t,
            c,
            budget,
        ),
    decreases budget,
{
    if budget > 0 {
        let g1 = member_gate(c);
        let g2 = member_gate(c + d);
        let a = member_accesses(node, aggregate, status, timestamp, t, g1);
        let mc = member_calls(node, aggregate, status, timestamp, t, g1);
        lemma_member_calls_answer(node, aggregate, status, timestamp, t, g1);
        let step = chain_step(node, aggregate, status, timestamp, t, c, budget);
        assert(c.len() >= mc.len());
        assert(c.subrange(0, mc.len() as int) =~= mc);
        assert(mc + c.skip(mc.len() as int) =~= c);
        assert(mc + (c.skip(mc.len() as int) + d) =~= c + d);
        lemma_member_gate_prefix(node, aggregate, status, timestamp, t, mc, c.skip(mc.len() as int));
        lemma_member_gate_prefix(node, aggregate, status, timestamp, t, mc, c.skip(mc.len() as int) + d);
        assert(member_accesses(node, aggregate, status, timestamp, t, g2) == a);
        assert(member_calls(node, aggregate, status, timestamp, t, g2) == mc);
        lemma_member_prefix_stable(node, aggregate, status, timestamp, g2, t, e);
        let u = t + e;
        assert(member_accesses(node, aggregate, status, timestamp, u, g2) == a);
        assert(member_calls(node, aggregate, status, timestamp, u, g2) == mc);
        assert(u[a.len() - 1] == t[a.len() - 1]);
        let next = value_of(t[a.len() - 1]);
        if next != 0 {
            assert(u.skip(a.len() as int) =~= t.skip(a.len() as int) + e);
            assert((c + d).skip(mc.len() as int) =~= c.skip(mc.len() as int) + d);
            let rest = chain_step(
                next,
                aggregate,
                status,
                timestamp,
                t.skip(a.len() as int),
                c.skip(mc.len() as int),
                (budget - 1) as nat,
            );
            assert(rest.1 =~= c.skip(mc.len() as int));
            lemma_chain_extends(
                next,
                aggregate,
                status,
                timestamp,
                t.skip(a.len() as int),
                e,
                c.skip(mc.len() as int),
                d,
                (budget - 1) as nat,
            );
        }
    }
}


/// Completing a slot from its first frame on, given the values read and the
/// calls made: its accesses, its calls, how it ended, and the frames of its
/// chain. A slot of another kind is only counted off; a chain that does not
/// end within `SLOT_CHAIN_LIMIT` frames stops there; a single frame is
/// counted off after its chain; an aggregate's completion ends with its
/// link state and BlockAck.
#[verifier::opaque]
pub open spec fn slot_completion_step(
    first: u32,
    slot: u32,
    status: u16,
    t: Seq<MmioAccess>,
    c: Seq<SlotCompletionCall>,
) -> (Seq<MmioAccess>, Seq<SlotCompletionCall>, SlotCompletionOutcome, Seq<u32>) {
    let opening = prologue_accesses(first, slot, t);
    let opening_calls = prologue_calls(first, status, t);
    let timestamp = value_of(t[0]);
    let link = value_of(t[1]) as u8;
    let kind = value_of(t[2]) as u8;
    if kind != SINGLE_FRAME_SLOT && kind != AGGREGATE_SLOT {
        (opening, opening_calls, SlotCompletionOutcome::Completed, Seq::empty())
    } else {
        let aggregate = kind == AGGREGATE_SLOT;
        let chain = chain_step(
            first,
            aggregate,
            status,
            timestamp,
            t.skip(opening.len() as int),
            c.skip(opening_calls.len() as int),
            SLOT_CHAIN_LIMIT as nat,
        );
        let after = t.skip((opening.len() + chain.0.len()) as int);
        let calls_after = c.skip((opening_calls.len() + chain.1.len()) as int);
        if !chain.3 {
            (opening + chain.0, opening_calls + chain.1, SlotCompletionOutcome::ChainTooLong, chain.2)
        } else if !aggregate {
            (
                opening + chain.0 + count_down_accesses(value_of(after[0])),
                opening_calls + chain.1,
                SlotCompletionOutcome::Completed,
                chain.2,
            )
        } else {
            let final_state = if status == LINK_STATE_FAILED as u16 {
                LINK_STATE_FAILED
            } else {
                LINK_STATE_SETTLING
            };
            let closing = epilogue_step(link, final_state, after, calls_after);
            (opening + chain.0 + closing.0, opening_calls + chain.1 + closing.1, closing.2, chain.2)
        }
    }
}

/// Completing a slot is its opening, its chain and its end, each taken on
/// its own reads and calls.
proof fn lemma_slot_composition(
    first: u32,
    slot: u32,
    status: u16,
    tp: Seq<MmioAccess>,
    tc: Seq<MmioAccess>,
    te: Seq<MmioAccess>,
    cp: Seq<SlotCompletionCall>,
    cc: Seq<SlotCompletionCall>,
    ce: Seq<SlotCompletionCall>,
)
    requires
        tp == prologue_accesses(first, slot, tp),
        cp == prologue_calls(first, status, tp),
        value_of(tp[2]) as u8 == SINGLE_FRAME_SLOT || value_of(tp[2]) as u8 == AGGREGATE_SLOT,
        tc == chain_step(
            first,
            value_of(tp[2]) as u8 == AGGREGATE_SLOT,
            status,
            value_of(tp[0]),
            tc,
            cc,
            SLOT_CHAIN_LIMIT as nat,
        ).0,
        cc == chain_step(
            first,
            value_of(tp[2]) as u8 == AGGREGATE_SLOT,
            status,
            value_of(tp[0]),
            tc,
            cc,
            SLOT_CHAIN_LIMIT as nat,
        ).1,
    ensures
        ({
            let u = tp + (tc + te);
            let d = cp + (cc + ce);
            let aggregate = value_of(tp[2]) as u8 == AGGREGATE_SLOT;
            let chain = chain_step(first, aggregate, status, value_of(tp[0]), tc, cc, SLOT_CHAIN_LIMIT as nat);
            let step = slot_completion_step(first, slot, status, u, d);
            let final_state = if status == LINK_STATE_FAILED as u16 {
                LINK_STATE_FAILED
            } else {
                LINK_STATE_SETTLING
            };
            let closing = epilogue_step(value_of(tp[1]) as u8, final_state, te, ce);
            &&& u[2] == tp[2]
            &&& step.3 == chain.2
            &&& !chain.3 ==> step.0 == tp + tc && step.1 == cp + cc && step.2 == SlotCompletionOutcome::ChainTooLong
            &&& chain.3 && !aggregate ==> step.0 == tp + tc + count_down_accesses(value_of(te[0])) && step.1 == cp
                + cc && step.2 == SlotCompletionOutcome::Completed
            &&& chain.3 && aggregate ==> step.0 == tp + tc + closing.0 && step.1 == cp + cc + closing.1 && step.2
                == closing.2
        }),
{
    reveal(slot_completion_step);
    let u = tp + (tc + te);
    let d = cp + (cc + ce);
    lemma_prologue_extends(first, slot, tp, tc + te);
    assert(prologue_calls(first, status, u) == cp);
    assert(u.skip(tp.len() as int) =~= tc + te);
    assert(d.skip(cp.len() as int) =~= cc + ce);
    let aggregate = value_of(tp[2]) as u8 == AGGREGATE_SLOT;
    lemma_chain_extends(first, aggregate, status, value_of(tp[0]), tc, te, cc, ce, SLOT_CHAIN_LIMIT as nat);
    assert(u.skip((tp.len() + tc.len()) as int) =~= te);
    assert(d.skip((cp.len() + cc.len()) as int) =~= ce);
    assert(tp + tc + te =~= u);
}

/// Completes the transmitted slot `slot`, whose chain starts at
/// `first_frame_node`, with terminal status `status`. Single frames are put
/// on `ring`; an aggregate's frames stay with it.
#[verifier::spinoff_prover]
#[verifier::rlimit(60)]
pub fn complete_tx_pipe_slot<M: MacPipeMmio, B: PipeSlotCompletionEffects>(
    mmio: &mut M,
    ring: &mut CompletionRing,
    backend: &mut B,
    first_frame_node: FrameNodeAddress,
    slot: u32,
    status: u16,
) -> (outcome: SlotCompletionOutcome)
    ensures
        ({
            let t = trace_after(final(mmio).accesses(), old(mmio).accesses().len() as int);
            let c = final(backend).calls().skip(old(backend).calls().len() as int);
            let step = slot_completion_step(first_frame_node@, slot, status, t, c);
            &&& final(mmio).accesses() == old(mmio).accesses() + step.0
            &&& final(backend).calls() == old(backend).calls() + step.1
            &&& outcome == step.2
            &&& value_of(t[2]) as u8 != SINGLE_FRAME_SLOT ==> *final(ring) == *old(ring)
            &&& value_of(t[2]) as u8 == SINGLE_FRAME_SLOT ==> {
                &&& final(ring).consumer() == old(ring).consumer()
                &&& final(ring).producer() == (old(ring).producer() + step.3.len()) % 64
                &&& old(ring)@.len() + step.3.len() <= 63 ==> final(ring)@ == old(ring)@ + step.3
            }
        }),
{
    let ghost before = mmio.accesses();
    let ghost calls_before = backend.calls();
    let (timestamp, link, kind) = open_slot(mmio, backend, first_frame_node, slot, status);
    let ghost opened = mmio.accesses();
    let ghost opened_calls = backend.calls();
    if kind != SINGLE_FRAME_SLOT && kind != AGGREGATE_SLOT {
        proof {
            let t = trace_after(mmio.accesses(), before.len() as int);
            reveal(slot_completion_step);
            assert(mmio.accesses() == before + prologue_accesses(first_frame_node@, slot, t));
        }
        return SlotCompletionOutcome::Completed;
    }
    let aggregate = kind == AGGREGATE_SLOT;
    let ended = complete_chain(mmio, ring, backend, first_frame_node, aggregate, status, timestamp, SLOT_CHAIN_LIMIT);
    let ghost chained = mmio.accesses();
    let ghost chained_calls = backend.calls();
    let outcome = if !ended {
        SlotCompletionOutcome::ChainTooLong
    } else if !aggregate {
        count_down_active(mmio);
        SlotCompletionOutcome::Completed
    } else {
        let final_state = if status == LINK_STATE_FAILED as u16 {
            LINK_STATE_FAILED
        } else {
            LINK_STATE_SETTLING
        };
        finish_aggregate(mmio, backend, link, final_state)
    };
    proof {
        let t = trace_after(mmio.accesses(), before.len() as int);
        let c = backend.calls().skip(calls_before.len() as int);
        let tp = trace_after(opened, before.len() as int);
        let tc = trace_after(chained, opened.len() as int);
        let te = trace_after(mmio.accesses(), chained.len() as int);
        let cp = opened_calls.skip(calls_before.len() as int);
        let cc = chained_calls.skip(opened_calls.len() as int);
        let ce = backend.calls().skip(chained_calls.len() as int);
        assert(t =~= tp + (tc + te));
        assert(c =~= cp + (cc + ce));
        assert(tp =~= prologue_accesses(first_frame_node@, slot, tp));
        assert(cp =~= prologue_calls(first_frame_node@, status, tp));
        let chain = chain_step(first_frame_node@, aggregate, status, timestamp, tc, cc, SLOT_CHAIN_LIMIT as nat);
        assert(tc =~= chain.0);
        assert(cc =~= chain.1);
        lemma_slot_composition(first_frame_node@, slot, status, tp, tc, te, cp, cc, ce);
        assert(mmio.accesses() =~= before + (tp + (tc + te)));
        assert(backend.calls() =~= calls_before + (cp + (cc + ce)));
    }
    outcome
}

} // verus!
