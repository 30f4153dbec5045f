//! The pipe watchdog: each armed, programmed pipe counts down once per
//! sample; a pipe that expires has its stuck slot retired with give-up
//! status 0x0b so the host learns of the failure, and its cursor recycled.

use vstd::prelude::*;

use crate::context::FrameNodeAddress;
use crate::live_slot::{live_slot_accesses, live_slot_ok, LiveTxSlot};
use crate::mmio::{rd32, rd8, trace_after, value_of, wr32, wr8, MacPipeMmio, MmioAccess};
use crate::pipe_exec::{hardware_pipe_cursor, hardware_pipe_cursor_accesses, hardware_pipe_cursor_result};
use crate::plans::{
    aggregate_retry_command_owned, empty_retirement_allowed, pipe_watchdog_action, plan_pipe_watchdog,
    OrdinaryTxPipeCursorPlan, PipeWatchdogAction,
};
use crate::registers::{
    lemma_pipe_bits, pipe_record_address, pipe_record_of, slot_record_address, slot_record_of,
    tx_ring_of, TxHardwareRingAddress, LOW_MAC_PIPE_BUSY, PIPE_CONTROL, PIPE_CURRENT,
    PIPE_HARDWARE_RING, PIPE_LAST, PIPE_STATE, PIPE_WATCHDOG, RING_CURSOR_AND_PENDING_MASK,
    SLOT_FRAME, SLOT_KIND, SLOT_STATE,
};
use crate::status_exec::{status_cursor_accesses, TxStatusCall, TxStatusPolicy};

verus! {

/// Give-up status reported for a slot the hardware left behind.
pub const RETIRED_SLOT_STATUS: u16 = 0x0b;

/// A slot the watchdog may retire: an empty one (no retry owns its
/// command), or a live one whose identities check out.
#[derive(Clone, Copy, Debug, PartialEq, Eq, Structural)]
pub enum RetirableTxSlot {
    Empty(u32),
    Live(LiveTxSlot),
}

/// Accesses of classifying `slot` of `pipe` for retirement.
pub open spec fn retirable_accesses(pipe: u8, slot: u8, s: Seq<MmioAccess>) -> Seq<MmioAccess> {
    if slot >= 4 {
        Seq::empty()
    } else {
        let address = slot_record_of(pipe as int, slot as int);
        let frame = value_of(s[0]);
        let head = seq![rd32((address + SLOT_FRAME) as u32, frame)];
        if frame == 0 {
            head + seq![
                rd8((address + SLOT_KIND) as u32, value_of(s[1])),
                rd8((address + SLOT_STATE) as u32, value_of(s[2])),
            ]
        } else {
            head + live_slot_accesses(pipe, slot, address, None, s.skip(1))
        }
    }
}

/// The classification, given what was read.
pub open spec fn retirable_result(pipe: u8, slot: u8, s: Seq<MmioAccess>) -> Option<RetirableTxSlot> {
    if slot >= 4 {
        None
    } else {
        let address = slot_record_of(pipe as int, slot as int);
        if value_of(s[0]) == 0 {
            if !(value_of(s[1]) == 1 && value_of(s[2]) == 4) {
                Some(RetirableTxSlot::Empty(address))
            } else {
                None
            }
        } else if live_slot_ok(pipe, slot, address, None, s.skip(1)) {
            Some(
                RetirableTxSlot::Live(
                    LiveTxSlot {
                        address,
                        frame_node: FrameNodeAddress(value_of(s[1])),
                        command: value_of(s[2]),
                    },
                ),
            )
        } else {
            None
        }
    }
}

impl RetirableTxSlot {
    /// Reads `slot` of `pipe` and says whether, and how, it can be retired.
    pub fn from_pipe_slot<M: MacPipeMmio>(mmio: &mut M, pipe: u8, slot: u8) -> (retirable: Option<RetirableTxSlot>)
        requires
            pipe < 4,
        ensures
            ({
                let s = trace_after(final(mmio).accesses(), old(mmio).accesses().len() as int);
                &&& final(mmio).accesses() == old(mmio).accesses() + retirable_accesses(pipe, slot, s)
                &&& retirable == retirable_result(pipe, slot, s)
            }),
    {
        let ghost before = mmio.accesses();
        if slot >= 4 {
            assert(mmio.accesses() =~= before + Seq::empty());
            return None;
        }
        let address = slot_record_address(pipe, slot);
        let frame = mmio.read_u32(address + SLOT_FRAME);
        if frame == 0 {
            let kind = mmio.read_u8(address + SLOT_KIND);
            let state = mmio.read_u8(address + SLOT_STATE);
            let ghost s = trace_after(mmio.accesses(), before.len() as int);
            assert(value_of(s[0]) == frame);
            assert(value_of(s[1]) == kind as u32);
            assert(value_of(s[2]) == state as u32);
            assert(mmio.accesses() =~= before + retirable_accesses(pipe, slot, s));
            return if empty_retirement_allowed(frame, kind, state) {
                Some(RetirableTxSlot::Empty(address))
            } else {
                None
            };
        }
        let ghost mid = mmio.accesses();
        let live = LiveTxSlot::from_pipe_slot(mmio, pipe, slot);
        let ghost s = trace_after(mmio.accesses(), before.len() as int);
        proof {
            assert(value_of(s[0]) == frame);
            assert(s.skip(1) =~= trace_after(mmio.accesses(), mid.len() as int));
        }
        assert(mmio.accesses() =~= before + retirable_accesses(pipe, slot, s));
        match live {
            Some(live) => Some(RetirableTxSlot::Live(live)),
            None => None,
        }
    }
}

/// Accesses of releasing a retiring slot's command-mask bit, from the
/// values in `t`.
pub open spec fn release_retiring_accesses(pipe: u8, slot: LiveTxSlot, t: Seq<MmioAccess>) -> Seq<MmioAccess> {
    let record = pipe_record_of(pipe as int);
    let checks = seq![
        rd8((slot.address + SLOT_KIND) as u32, value_of(t[0])),
        rd8((slot.address + SLOT_STATE) as u32, value_of(t[1])),
    ];
    if !(value_of(t[0]) == 1 && value_of(t[1]) == 4) {
        checks
    } else {
        let ring_read = seq![rd32((record + PIPE_HARDWARE_RING) as u32, value_of(t[2]))];
        if value_of(t[2]) != tx_ring_of(pipe as int) {
            checks + ring_read
        } else {
            let current = value_of(t[3]);
            let current_read = seq![rd8((record + PIPE_CURRENT) as u32, current)];
            if current >= 4 {
                checks + ring_read + current_read
            } else {
                let mask_address = (tx_ring_of(pipe as int) + RING_CURSOR_AND_PENDING_MASK) as u32;
                let mask = value_of(t[4]);
                checks + ring_read + current_read + seq![
                    rd32(mask_address, mask),
                    wr32(mask_address, mask & !(1u32 << current)),
                ]
            }
        }
    }
}

/// Result of releasing a retiring slot's command-mask bit: whether a retry
/// owned it (and its bit was cleared), or `None` when the ring or the
/// current slot does not check out.
pub open spec fn release_retiring_result(pipe: u8, t: Seq<MmioAccess>) -> Option<bool> {
    if !(value_of(t[0]) == 1 && value_of(t[1]) == 4) {
        Some(false)
    } else if value_of(t[2]) != tx_ring_of(pipe as int) || value_of(t[3]) >= 4 {
        None
    } else {
        Some(true)
    }
}

/// Clears the current slot's command-mask bit of a retiring slot when a
/// retry owns its command.
pub fn release_retiring_aggregate_command_mask<M: MacPipeMmio>(mmio: &mut M, pipe: u8, slot: LiveTxSlot) -> (released:
    Option<bool>)
    requires
        pipe < 4,
        slot.address <= 0x0500_0000,
    ensures
        ({
            let t = trace_after(final(mmio).accesses(), old(mmio).accesses().len() as int);
            &&& final(mmio).accesses() == old(mmio).accesses() + release_retiring_accesses(pipe, slot, t)
            &&& released == release_retiring_result(pipe, t)
        }),
{
    let ghost before = mmio.accesses();
    let kind = mmio.read_u8(slot.address + SLOT_KIND);
    let state = mmio.read_u8(slot.address + SLOT_STATE);
    if !aggregate_retry_command_owned(kind, state) {
        let ghost t = trace_after(mmio.accesses(), before.len() as int);
        assert(mmio.accesses() =~= before + release_retiring_accesses(pipe, slot, t));
        return Some(false);
    }
    proof {
        lemma_pipe_bits(pipe);
    }
    let record = pipe_record_address(pipe);
    let raw = mmio.read_u32(record + PIPE_HARDWARE_RING);
    let ring = match TxHardwareRingAddress::for_pipe(pipe, raw) {
        Some(ring) => ring,
        None => {
            let ghost t = trace_after(mmio.accesses(), before.len() as int);
            assert(value_of(t[2]) == raw);
            assert(mmio.accesses() =~= before + release_retiring_accesses(pipe, slot, t));
            return None;
        },
    };
    let current = mmio.read_u8(record + PIPE_CURRENT);
    if current >= 4 {
        let ghost t = trace_after(mmio.accesses(), before.len() as int);
        assert(value_of(t[2]) == raw);
        assert(value_of(t[3]) == current as u32);
        assert(mmio.accesses() =~= before + release_retiring_accesses(pipe, slot, t));
        return None;
    }
    let mask = mmio.read_u32(ring.cursor_and_pending_mask());
    mmio.write_u32(ring.cursor_and_pending_mask(), mask & !(1u32 << current));
    let ghost t = trace_after(mmio.accesses(), before.len() as int);
    assert(value_of(t[2]) == raw);
    assert(value_of(t[3]) == current as u32);
    assert(value_of(t[4]) == mask);
    assert(mmio.accesses() =~= before + release_retiring_accesses(pipe, slot, t));
    Some(true)
}

/// Accesses of retiring `slot` of `pipe` with `cursor`, given the values
/// read: classification, then for a live slot the mask release; then the
/// empty slot's frame cleared (a live one is completed by the policy), the
/// busy flag cleared when a retry owned the command, and the cursor.
pub open spec fn retire_accesses(pipe: u8, slot: u8, cursor: OrdinaryTxPipeCursorPlan, s: Seq<MmioAccess>) -> Seq<
    MmioAccess,
> {
    let head = retirable_accesses(pipe, slot, s);
    let rest = s.skip(head.len() as int);
    match retirable_result(pipe, slot, s) {
        None => head,
        Some(RetirableTxSlot::Empty(address)) => head + seq![wr32((address + SLOT_FRAME) as u32, 0)]
            + status_cursor_accesses(pipe, cursor),
        Some(RetirableTxSlot::Live(live)) => {
            let release = release_retiring_accesses(pipe, live, rest);
            match release_retiring_result(pipe, rest) {
                None => head + release,
                Some(owned) => head + release + (if owned {
                    seq![wr8(LOW_MAC_PIPE_BUSY, 0)]
                } else {
                    Seq::empty()
                }) + status_cursor_accesses(pipe, cursor),
            }
        },
    }
}

/// Policy calls of retiring: the live slot's completion with give-up status.
pub open spec fn retire_calls(pipe: u8, slot: u8, s: Seq<MmioAccess>) -> Seq<TxStatusCall> {
    let head = retirable_accesses(pipe, slot, s);
    match retirable_result(pipe, slot, s) {
        Some(RetirableTxSlot::Live(live)) => if release_retiring_result(pipe, s.skip(head.len() as int)) is Some {
            seq![
                TxStatusCall::CompleteSlot {
                    frame_node: live.frame_node,
                    slot: live.address,
                    status: RETIRED_SLOT_STATUS,
                },
            ]
        } else {
            Seq::empty()
        },
        _ => Seq::empty(),
    }
}

/// Whether retiring got through: `false` when the slot or its ring did not
/// check out, which the firmware treats as fatal.
pub open spec fn retire_ok(pipe: u8, slot: u8, s: Seq<MmioAccess>) -> bool {
    let head = retirable_accesses(pipe, slot, s);
    match retirable_result(pipe, slot, s) {
        None => false,
        Some(RetirableTxSlot::Empty(_)) => true,
        Some(RetirableTxSlot::Live(_)) => release_retiring_result(pipe, s.skip(head.len() as int)) is Some,
    }
}

/// Retiring `slot` of `pipe` with `cursor`, given the values read: its
/// accesses, policy calls and whether it got through.
#[verifier::opaque]
pub open spec fn retire_step(pipe: u8, slot: u8, cursor: OrdinaryTxPipeCursorPlan, s: Seq<MmioAccess>) -> (
    Seq<MmioAccess>,
    Seq<TxStatusCall>,
    bool,
) {
    (retire_accesses(pipe, slot, cursor, s), retire_calls(pipe, slot, s), retire_ok(pipe, slot, s))
}

/// What retiring does depends only on its own reads: later accesses do not
/// change it.
proof fn lemma_retire_step_extends(
    pipe: u8,
    slot: u8,
    cursor: OrdinaryTxPipeCursorPlan,
    t: Seq<MmioAccess>,
    e: Seq<MmioAccess>,
)
    requires
        retire_step(pipe, slot, cursor, t).0.len() <= t.len(),
    ensures
        retire_step(pipe, slot, cursor, t + e) == retire_step(pipe, slot, cursor, t),
{
    reveal(retire_step);
    let u = t + e;
    if slot < 4 {
        assert(u[0] == t[0]);
        if value_of(t[0]) == 0 {
            assert(u[1] == t[1]);
            assert(u[2] == t[2]);
        } else {
            let address = slot_record_of(pipe as int, slot as int);
            assert(u.skip(1) =~= t.skip(1) + e);
            let live = live_slot_accesses(pipe, slot, address, None, t.skip(1));
            if live.len() >= 1 {
                assert(u[1] == t[1]);
            }
            if live.len() >= 2 {
                assert(u[2] == t[2]);
            }
            assert(live_slot_accesses(pipe, slot, address, None, u.skip(1)) == live);
            assert(live_slot_ok(pipe, slot, address, None, u.skip(1)) == live_slot_ok(pipe, slot, address, None, t.skip(1)));
            let head = retirable_accesses(pipe, slot, t);
            assert(retirable_accesses(pipe, slot, u) == head);
            assert(retirable_result(pipe, slot, u) == retirable_result(pipe, slot, t));
            if let Some(RetirableTxSlot::Live(l)) = retirable_result(pipe, slot, t) {
                let rt = t.skip(head.len() as int);
                let ru = u.skip(head.len() as int);
                assert(ru =~= rt + e);
                let release = release_retiring_accesses(pipe, l, rt);
                let k = release.len() as int;
                assert forall|i: int| 0 <= i < k implies ru[i] == rt[i] by {
                }
                assert(release_retiring_accesses(pipe, l, ru) == release);
                assert(release_retiring_result(pipe, ru) == release_retiring_result(pipe, rt));
            }
        }
    }
}

fn write_retire_cursor<M: MacPipeMmio>(mmio: &mut M, pipe: u8, cursor: OrdinaryTxPipeCursorPlan)
    requires
        pipe < 4,
    ensures
        final(mmio).accesses() == old(mmio).accesses() + status_cursor_accesses(pipe, cursor),
{
    let ghost before = mmio.accesses();
    proof {
        lemma_pipe_bits(pipe);
    }
    let record = pipe_record_address(pipe);
    match cursor {
        OrdinaryTxPipeCursorPlan::AdvanceCurrent { next_current } => {
            mmio.write_u8(record + PIPE_CURRENT, next_current);
            mmio.write_u8(record + crate::registers::PIPE_PRODUCER, next_current);
        },
        OrdinaryTxPipeCursorPlan::Recycle { next_head } => {
            mmio.write_u8(record + crate::registers::PIPE_PRODUCER, next_head);
            mmio.write_u8(record + PIPE_STATE, 0);
            mmio.write_u8(record + PIPE_CONTROL, 0);
            mmio.write_u8(record + PIPE_WATCHDOG, 5);
        },
    }
    assert(mmio.accesses() =~= before + status_cursor_accesses(pipe, cursor));
}

/// Retires `slot` of `pipe`, which the hardware has left behind: an empty
/// slot has its frame cleared; a live one has a retry-owned command-mask bit
/// released and is completed by the policy with status 0x0b, and the busy
/// flag is cleared when a retry owned it; then the pipe cursor is written.
/// Returns false, stopping early, when the slot or the ring does not check
/// out.
#[verifier::spinoff_prover]
#[verifier::rlimit(60)]
pub fn retire_unmatched_tx_slot<M: MacPipeMmio, P: TxStatusPolicy>(
    mmio: &mut M,
    policy: &mut P,
    pipe: u8,
    slot: u8,
    cursor: OrdinaryTxPipeCursorPlan,
) -> (retired: bool)
    requires
        pipe < 4,
    ensures
        ({
            let s = trace_after(final(mmio).accesses(), old(mmio).accesses().len() as int);
            let step = retire_step(pipe, slot, cursor, s);
            &&& final(mmio).accesses() == old(mmio).accesses() + step.0
            &&& final(policy).calls() == old(policy).calls() + step.1
            &&& retired == step.2
        }),
{
    reveal(retire_step);
    let ghost before = mmio.accesses();
    let ghost calls_before = policy.calls();
    let retirable = RetirableTxSlot::from_pipe_slot(mmio, pipe, slot);
    let ghost after_head = mmio.accesses();
    match retirable {
        None => {
            let ghost s = trace_after(mmio.accesses(), before.len() as int);
            assert(mmio.accesses() =~= before + retire_accesses(pipe, slot, cursor, s));
            assert(policy.calls() =~= calls_before + retire_calls(pipe, slot, s));
            false
        },
        Some(RetirableTxSlot::Empty(address)) => {
            mmio.write_u32(address + SLOT_FRAME, 0);
            write_retire_cursor(mmio, pipe, cursor);
            let ghost s = trace_after(mmio.accesses(), before.len() as int);
            assert(s.subrange(0, (after_head.len() - before.len()) as int) =~= trace_after(
                after_head,
                before.len() as int,
            ));
            assert(mmio.accesses() =~= before + retire_accesses(pipe, slot, cursor, s));
            assert(policy.calls() =~= calls_before + retire_calls(pipe, slot, s));
            true
        },
        Some(RetirableTxSlot::Live(live)) => {
            let released = release_retiring_aggregate_command_mask(mmio, pipe, live);
            let ghost after_release = mmio.accesses();
            let owned = match released {
                Some(owned) => owned,
                None => {
                    let ghost s = trace_after(mmio.accesses(), before.len() as int);
                    proof {
                        let k = (after_head.len() - before.len()) as int;
                        assert(s.subrange(0, k) =~= trace_after(after_head, before.len() as int));
                        assert(s.skip(k) =~= trace_after(mmio.accesses(), after_head.len() as int));
                    }
                    assert(mmio.accesses() =~= before + retire_accesses(pipe, slot, cursor, s));
                    assert(policy.calls() =~= calls_before + retire_calls(pipe, slot, s));
                    return false;
                },
            };
            policy.complete_slot(live.frame_node, live.address, RETIRED_SLOT_STATUS);
            if owned {
                mmio.write_u8(LOW_MAC_PIPE_BUSY, 0);
            }
            write_retire_cursor(mmio, pipe, cursor);
            let ghost s = trace_after(mmio.accesses(), before.len() as int);
            proof {
                let k = (after_head.len() - before.len()) as int;
                let r = (after_release.len() - after_head.len()) as int;
                assert(s.subrange(0, k) =~= trace_after(after_head, before.len() as int));
                assert(s.skip(k).subrange(0, r) =~= trace_after(after_release, after_head.len() as int));
            }
            assert(mmio.accesses() =~= before + retire_accesses(pipe, slot, cursor, s));
            assert(policy.calls() =~= calls_before + retire_calls(pipe, slot, s));
            true
        },
    }
}

/// The cursor an expired pipe is recycled with: the hardware cursor, or
/// `last + 1` when no ring is programmed; `None` with the accesses made when
/// the ring is not the pipe's own. `t` starts at the hardware-cursor reads.
#[verifier::opaque]
pub open spec fn expired_cursor(pipe: u8, t: Seq<MmioAccess>) -> (Seq<MmioAccess>, Option<OrdinaryTxPipeCursorPlan>) {
    let h = hardware_pipe_cursor_accesses(pipe, t);
    match hardware_pipe_cursor_result(pipe, t) {
        Err(()) => (h, None),
        Ok(Some(cursor)) => (h, Some(OrdinaryTxPipeCursorPlan::Recycle { next_head: cursor })),
        Ok(None) => {
            let last = value_of(t[h.len() as int]);
            (
                h + seq![rd8((pipe_record_of(pipe as int) + PIPE_LAST) as u32, last)],
                Some(OrdinaryTxPipeCursorPlan::Recycle { next_head: (((last + 1) % 256) as u8) & 3 }),
            )
        },
    }
}

proof fn lemma_expired_cursor_extends(pipe: u8, t: Seq<MmioAccess>, e: Seq<MmioAccess>)
    requires
        expired_cursor(pipe, t).0.len() <= t.len(),
    ensures
        expired_cursor(pipe, t + e) == expired_cursor(pipe, t),
{
    reveal(expired_cursor);
    let u = t + e;
    if pipe < 4 {
        assert(u[0] == t[0]);
        if t.len() >= 2 {
            assert(u[1] == t[1]);
        }
        let h = hardware_pipe_cursor_accesses(pipe, t);
        assert(hardware_pipe_cursor_accesses(pipe, u) == h);
        assert(hardware_pipe_cursor_result(pipe, u) == hardware_pipe_cursor_result(pipe, t));
        if hardware_pipe_cursor_result(pipe, t) == Ok::<Option<u8>, ()>(None) {
            assert(u[h.len() as int] == t[h.len() as int]);
        }
    }
}

/// The watchdog's decision for a pipe whose control, state and counter
/// bytes are the first three reads of `s`.
pub open spec fn watchdog_action(s: Seq<MmioAccess>) -> PipeWatchdogAction {
    pipe_watchdog_action(value_of(s[0]) & 1 != 0, value_of(s[1]) == 1, (value_of(s[2]) as u8) as i8)
}

/// One pipe's watchdog step, given the values read in `s`: the accesses,
/// the policy calls, and whether it got through.
#[verifier::opaque]
pub open spec fn watchdog_pipe(pipe: u8, s: Seq<MmioAccess>) -> (Seq<MmioAccess>, Seq<TxStatusCall>, bool) {
    let record = pipe_record_of(pipe as int);
    let reads = seq![
        rd8((record + PIPE_CONTROL) as u32, value_of(s[0])),
        rd8((record + PIPE_STATE) as u32, value_of(s[1])),
        rd8((record + PIPE_WATCHDOG) as u32, value_of(s[2])),
    ];
    match watchdog_action(s) {
        PipeWatchdogAction::Idle => (reads, Seq::empty(), true),
        PipeWatchdogAction::Tick | PipeWatchdogAction::Nudge => (
            reads.push(wr8((record + PIPE_WATCHDOG) as u32, ((value_of(s[2]) + 255) % 256) as u32)),
            Seq::empty(),
            true,
        ),
        PipeWatchdogAction::Expired => {
            let current = value_of(s[3]);
            let head = reads.push(rd8((record + PIPE_CURRENT) as u32, current));
            let cursor = expired_cursor(pipe, s.skip(4));
            match cursor.1 {
                None => (head + cursor.0, Seq::empty(), false),
                Some(plan) => {
                    let k = (4 + cursor.0.len()) as int;
                    let t = s.skip(k);
                    let step = retire_step(pipe, current as u8, plan, t);
                    let retire = step.0;
                    let calls = step.1;
                    if !step.2 {
                        (head + cursor.0 + retire, calls, false)
                    } else {
                        let control = value_of(s[k + retire.len() as int]);
                        (
                            head + cursor.0 + retire + seq![
                                rd8((record + PIPE_CONTROL) as u32, control),
                                wr8((record + PIPE_CONTROL) as u32, control & 0xf6),
                                wr8((record + PIPE_WATCHDOG) as u32, 5),
                            ],
                            calls,
                            true,
                        )
                    }
                },
            }
        },
    }
}

/// One pipe's watchdog step depends only on its own reads.
proof fn lemma_watchdog_pipe_extends(pipe: u8, t: Seq<MmioAccess>, e: Seq<MmioAccess>)
    requires
        watchdog_pipe(pipe, t).0.len() <= t.len(),
    ensures
        watchdog_pipe(pipe, t + e) == watchdog_pipe(pipe, t),
{
    reveal(watchdog_pipe);
    let u = t + e;
    assert(u[0] == t[0]);
    assert(u[1] == t[1]);
    assert(u[2] == t[2]);
    assert(watchdog_action(u) == watchdog_action(t));
    if watchdog_action(t) == PipeWatchdogAction::Expired {
        assert(u[3] == t[3]);
        assert(u.skip(4) =~= t.skip(4) + e);
        lemma_expired_cursor_extends(pipe, t.skip(4), e);
        let cursor = expired_cursor(pipe, t.skip(4));
        if let Some(plan) = cursor.1 {
            let k = (4 + cursor.0.len()) as int;
            let current = value_of(t[3]) as u8;
            assert(u.skip(k) =~= t.skip(k) + e);
            lemma_retire_step_extends(pipe, current, plan, t.skip(k), e);
            let step = retire_step(pipe, current, plan, t.skip(k));
            if step.2 {
                assert(u[k + step.0.len() as int] == t[k + step.0.len() as int]);
            }
        }
    }
}

/// The watchdog tick over pipes `pipe` to 3, given the values read: the
/// accesses, the policy calls, and whether every pipe got through. It stops
/// at the first pipe that does not.
pub open spec fn watchdog_tick_from(pipe: u8, s: Seq<MmioAccess>) -> (Seq<MmioAccess>, Seq<TxStatusCall>, bool)
    decreases 4 - pipe,
{
    if pipe >= 4 {
        (Seq::empty(), Seq::empty(), true)
    } else {
        let step = watchdog_pipe(pipe, s);
        if !step.2 {
            step
        } else {
            let rest = watchdog_tick_from((pipe + 1) as u8, s.skip(step.0.len() as int));
            (step.0 + rest.0, step.1 + rest.1, rest.2)
        }
    }
}

fn expired_pipe_cursor<M: MacPipeMmio>(mmio: &mut M, pipe: u8) -> (cursor: Option<OrdinaryTxPipeCursorPlan>)
    requires
        pipe < 4,
    ensures
        ({
            let t = trace_after(final(mmio).accesses(), old(mmio).accesses().len() as int);
            &&& final(mmio).accesses() == old(mmio).accesses() + expired_cursor(pipe, t).0
            &&& cursor == expired_cursor(pipe, t).1
        }),
{
    reveal(expired_cursor);
    let ghost before = mmio.accesses();
    let hardware = hardware_pipe_cursor(mmio, pipe);
    let ghost after_hw = mmio.accesses();
    match hardware {
        Ok(Some(cursor)) => Some(OrdinaryTxPipeCursorPlan::Recycle { next_head: cursor }),
        Ok(None) => {
            proof {
                lemma_pipe_bits(pipe);
            }
            let record = pipe_record_address(pipe);
            let last = mmio.read_u8(record + PIPE_LAST);
            let ghost t = trace_after(mmio.accesses(), before.len() as int);
            proof {
                let h = trace_after(after_hw, before.len() as int);
                assert(t.subrange(0, h.len() as int) =~= h);
                assert(value_of(t[h.len() as int]) == last as u32);
                assert(last.wrapping_add(1) & 3 == (((last as u32 + 1) % 256) as u8) & 3);
            }
            assert(mmio.accesses() =~= before + expired_cursor(pipe, t).0);
            Some(OrdinaryTxPipeCursorPlan::Recycle { next_head: last.wrapping_add(1) & 3 })
        },
        Err(()) => None,
    }
}

/// One pipe's watchdog step; see `watchdog_pipe`.
#[verifier::spinoff_prover]
#[verifier::rlimit(60)]
fn service_pipe_watchdog<M: MacPipeMmio, P: TxStatusPolicy>(mmio: &mut M, policy: &mut P, pipe: u8) -> (ok: bool)
    requires
        pipe < 4,
    ensures
        ({
            let t = trace_after(final(mmio).accesses(), old(mmio).accesses().len() as int);
            let step = watchdog_pipe(pipe, t);
            &&& final(mmio).accesses() == old(mmio).accesses() + step.0
            &&& final(policy).calls() == old(policy).calls() + step.1
            &&& ok == step.2
        }),
{
    reveal(watchdog_pipe);
    let ghost before = mmio.accesses();
    let ghost calls_before = policy.calls();
    proof {
        lemma_pipe_bits(pipe);
    }
    let record = pipe_record_address(pipe);
    let control = mmio.read_u8(record + PIPE_CONTROL);
    let state = mmio.read_u8(record + PIPE_STATE);
    let counter_byte = mmio.read_u8(record + PIPE_WATCHDOG);
    let counter = counter_byte as i8;
    let ghost after_reads = mmio.accesses();
    proof {
        lemma_pipe_bits(control);
        let t = trace_after(after_reads, before.len() as int);
        assert(value_of(t[0]) == control as u32);
        assert(value_of(t[1]) == state as u32);
        assert(value_of(t[2]) == counter_byte as u32);
    }
    match plan_pipe_watchdog(control & 1 != 0, state == 1, counter) {
        PipeWatchdogAction::Idle => {
            let ghost t = trace_after(mmio.accesses(), before.len() as int);
            assert(mmio.accesses() =~= before + watchdog_pipe(pipe, t).0);
            assert(policy.calls() =~= calls_before + watchdog_pipe(pipe, t).1);
            true
        },
        PipeWatchdogAction::Tick | PipeWatchdogAction::Nudge => {
            mmio.write_u8(record + PIPE_WATCHDOG, counter_byte.wrapping_sub(1));
            let ghost t = trace_after(mmio.accesses(), before.len() as int);
            assert(counter_byte.wrapping_sub(1) as u32 == ((counter_byte as u32 + 255) % 256) as u32);
            assert(mmio.accesses() =~= before + watchdog_pipe(pipe, t).0);
            assert(policy.calls() =~= calls_before + watchdog_pipe(pipe, t).1);
            true
        },
        PipeWatchdogAction::Expired => {
            let current = mmio.read_u8(record + PIPE_CURRENT);
            let ghost after_current = mmio.accesses();
            let cursor = expired_pipe_cursor(mmio, pipe);
            let ghost after_cursor = mmio.accesses();
            let plan = match cursor {
                Some(plan) => plan,
                None => {
                    let ghost t = trace_after(mmio.accesses(), before.len() as int);
                    proof {
                        assert(t.subrange(0, 4) =~= trace_after(after_current, before.len() as int));
                        assert(t.skip(4) =~= trace_after(mmio.accesses(), after_current.len() as int));
                        assert(t[3] == trace_after(after_current, before.len() as int)[3]);
                    }
                    assert(mmio.accesses() =~= before + watchdog_pipe(pipe, t).0);
                    assert(policy.calls() =~= calls_before + watchdog_pipe(pipe, t).1);
                    return false;
                },
            };
            let retired = retire_unmatched_tx_slot(mmio, policy, pipe, current, plan);
            let ghost after_retire = mmio.accesses();
            let ghost calls_after_retire = policy.calls();
            if !retired {
                let ghost t = trace_after(mmio.accesses(), before.len() as int);
                proof {
                    let c = (after_cursor.len() - after_current.len()) as int;
                    let ct = trace_after(after_cursor, after_current.len() as int);
                    let rt = trace_after(mmio.accesses(), after_cursor.len() as int);
                    assert(t.subrange(0, 4) =~= trace_after(after_current, before.len() as int));
                    assert(t.skip(4) =~= ct + rt);
                    lemma_expired_cursor_extends(pipe, ct, rt);
                    assert(t.skip(4 + c) =~= rt);
                    assert(value_of(t[3]) as u8 == current);
                }
                assert(mmio.accesses() =~= before + watchdog_pipe(pipe, t).0);
                assert(policy.calls() =~= calls_before + watchdog_pipe(pipe, t).1);
                return false;
            }
            let control_after = mmio.read_u8(record + PIPE_CONTROL);
            mmio.write_u8(record + PIPE_CONTROL, control_after & 0xf6);
            mmio.write_u8(record + PIPE_WATCHDOG, 5);
            let ghost t = trace_after(mmio.accesses(), before.len() as int);
            proof {
                let c = (after_cursor.len() - after_current.len()) as int;
                let r = (after_retire.len() - after_cursor.len()) as int;
                let ct = trace_after(after_cursor, after_current.len() as int);
                let rt = trace_after(after_retire, after_cursor.len() as int);
                let tail = trace_after(mmio.accesses(), after_retire.len() as int);
                assert(t.subrange(0, 4) =~= trace_after(after_current, before.len() as int));
                assert(t.skip(4) =~= ct + (rt + tail));
                lemma_expired_cursor_extends(pipe, ct, rt + tail);
                assert(t.skip(4 + c) =~= rt + tail);
                lemma_retire_step_extends(pipe, current, plan, rt, tail);
                assert(value_of(t[3]) as u8 == current);
                assert(value_of(t[4 + c + r]) == control_after as u32);
                lemma_pipe_bits(control_after);
            }
            assert(mmio.accesses() =~= before + watchdog_pipe(pipe, t).0);
            assert(policy.calls() =~= calls_before + watchdog_pipe(pipe, t).1);
            true
        },
    }
}

fn service_watchdog_from<M: MacPipeMmio, P: TxStatusPolicy>(mmio: &mut M, policy: &mut P, pipe: u8) -> (ok:
    bool)
    requires
        pipe <= 4,
    ensures
        ({
            let t = trace_after(final(mmio).accesses(), old(mmio).accesses().len() as int);
            let tick = watchdog_tick_from(pipe, t);
            &&& final(mmio).accesses() == old(mmio).accesses() + tick.0
            &&& final(policy).calls() == old(policy).calls() + tick.1
            &&& ok == tick.2
        }),
    decreases 4 - pipe,
{
    let ghost before = mmio.accesses();
    let ghost calls_before = policy.calls();
    if pipe >= 4 {
        assert(mmio.accesses() =~= before + Seq::empty());
        assert(policy.calls() =~= calls_before + Seq::empty());
        return true;
    }
    let ok = service_pipe_watchdog(mmio, policy, pipe);
    let ghost mid = mmio.accesses();
    let ghost mid_calls = policy.calls();
    if !ok {
        return false;
    }
    let rest = service_watchdog_from(mmio, policy, pipe + 1);
    proof {
        let t1 = trace_after(mid, before.len() as int);
        let t2 = trace_after(mmio.accesses(), mid.len() as int);
        let t = trace_after(mmio.accesses(), before.len() as int);
        assert(t =~= t1 + t2);
        lemma_watchdog_pipe_extends(pipe, t1, t2);
        assert(t.skip(t1.len() as int) =~= t2);
        let step = watchdog_pipe(pipe, t);
        let tail = watchdog_tick_from((pipe + 1) as u8, t2);
        assert(mmio.accesses() =~= before + (step.0 + tail.0));
        assert(policy.calls() =~= calls_before + (step.1 + tail.1));
    }
    rest
}

/// Runs one watchdog sample across the four pipes: an idle pipe is left
/// alone, an armed, programmed one has its counter decremented, and an
/// expired one has its current slot retired with give-up status 0x0b, its
/// cursor recycled (the hardware cursor, or `last + 1` without a programmed
/// ring), its programmed and abort bits cleared and its counter reloaded to
/// 5. Returns false, stopping at that pipe, when a pipe's ring or slot does
/// not check out, which the firmware treats as fatal.
pub fn service_pipe_watchdog_tick<M: MacPipeMmio, P: TxStatusPolicy>(mmio: &mut M, policy: &mut P) -> (ok: bool)
    ensures
        ({
            let t = trace_after(final(mmio).accesses(), old(mmio).accesses().len() as int);
            let tick = watchdog_tick_from(0, t);
            &&& final(mmio).accesses() == old(mmio).accesses() + tick.0
            &&& final(policy).calls() == old(policy).calls() + tick.1
            &&& ok == tick.2
        }),
{
    service_watchdog_from(mmio, policy, 0)
}

} // verus!
