//! The single-outstanding TX retry executor: what the MAC does with a retry
//! event for the frame in the current slot of the latched pipe, with the
//! retry policy and completion left to a backend.

use vstd::prelude::*;

use crate::context::FrameNodeAddress;
use crate::mmio::{rd32, rd8, trace_after, value_of, wr32, wr8, MacPipeMmio, MmioAccess};
use crate::pipe_exec::current_slot_of;
use crate::plans::SingleTxRetryDecision;
use crate::mac_event::SchedulerWord;
use crate::registers::{
    pipe_record_of, tx_ring_of, LOW_MAC_PIPE_BUSY, MAC_CURRENT_PIPE, MAC_CURRENT_PIPE_RECORD,
    MAC_CURRENT_SLOT, PIPE_CONTROL, PIPE_CURRENT, PIPE_HARDWARE_RING, PIPE_IRQ_PENDING,
    PIPE_IRQ_TRIGGER, PIPE_LAST, PIPE_PRODUCER, PIPE_RETRY_INACTIVE_SENTINEL, PIPE_STATE,
    PIPE_WATCHDOG, RING_COMPLETION_WORD, RING_INACTIVE_SENTINEL, SLOT_EXPECTED_STATUS, SLOT_FRAME,
    SLOT_STATE,
};

verus! {

/// One call made on a retry backend, with what it returned.
#[derive(Clone, Copy, Debug, PartialEq, Eq, Structural)]
pub enum RetryBackendCall {
    DecideRetry { pipe: u8, slot: u32, frame_node: FrameNodeAddress, decision: SingleTxRetryDecision },
    RearmAndAck { pipe: u8, slot: u32, frame_node: FrameNodeAddress, pending_mask: u32 },
    CompleteSuccess { pipe: u8, frame_node: FrameNodeAddress, slot: u32 },
    CompleteGiveUp { pipe: u8, frame_node: FrameNodeAddress, slot: u32, status: u16 },
    FatalUnsupportedMultiSlotRetry { pipe: u8, slot: u32, frame_node: FrameNodeAddress },
}

/// Retry policy and completion leaves of the single-outstanding retry path.
/// None of them may refuse an event once the MAC FIFO has been read. Each
/// call is recorded in `calls`.
pub trait SingleTxRetryBackend {
    /// Every call made so far, oldest first.
    /// A verified implementation defines it; the empty default only lets an
    /// implementation that Verus does not check leave it out.
    open spec fn calls(&self) -> Seq<RetryBackendCall> {
        Seq::empty()
    }

    fn decide_retry(&mut self, pipe: u8, slot: u32, frame_node: FrameNodeAddress) -> (decision:
        SingleTxRetryDecision)
        ensures
            final(self).calls() == old(self).calls().push(
                RetryBackendCall::DecideRetry { pipe, slot, frame_node, decision },
            ),
    ;

    /// Rebuilds the descriptor as needed, keeps slot and context ownership,
    /// re-arms the MAC and acknowledges.
    fn rearm_and_ack(&mut self, pipe: u8, slot: u32, frame_node: FrameNodeAddress, pending_mask: u32)
        ensures
            final(self).calls() == old(self).calls().push(
                RetryBackendCall::RearmAndAck { pipe, slot, frame_node, pending_mask },
            ),
    ;

    fn complete_success(&mut self, pipe: u8, frame_node: FrameNodeAddress, slot: u32)
        ensures
            final(self).calls() == old(self).calls().push(
                RetryBackendCall::CompleteSuccess { pipe, frame_node, slot },
            ),
    ;

    fn complete_give_up(&mut self, pipe: u8, frame_node: FrameNodeAddress, slot: u32, status: u16)
        ensures
            final(self).calls() == old(self).calls().push(
                RetryBackendCall::CompleteGiveUp { pipe, frame_node, slot, status },
            ),
    ;

    /// A retry shape outside the single-frame subset (expected status 6, or
    /// a pipe whose ring is not retained): production enters fatal
    /// quiescence here.
    fn fatal_unsupported_multi_slot_retry(&mut self, pipe: u8, slot: u32, frame_node: FrameNodeAddress)
        ensures
            final(self).calls() == old(self).calls().push(
                RetryBackendCall::FatalUnsupportedMultiSlotRetry { pipe, slot, frame_node },
            ),
    ;
}

#[derive(Clone, Copy, Debug, PartialEq, Eq, Structural)]
pub enum SingleTxRetryOutcome {
    MaskNotOwned,
    SlotNotStarted,
    InactivePipeAcknowledged,
    Rearmed,
    Completed,
    AwaitingBlockAck,
    GivenUp,
    /// The backend's fatal leaf was called; nothing more was done.
    FatalUnsupported,
}

/// Pending bit of `pipe` in the scheduler word.
pub open spec fn owned_mask_of(pipe: int) -> u32 {
    (0x100u32 << (pipe as u32)) as u32
}

/// Accesses of marking one selected pipe's command inactive: read its ring
/// pointer and, when it is the pipe's ring, write the inactive sentinel.
pub open spec fn inactive_mark_chunk(pending: u32, pipe: int, t: Seq<MmioAccess>) -> Seq<
    MmioAccess,
> {
    if pending & owned_mask_of(pipe) == 0 {
        Seq::empty()
    } else if value_of(t[0]) != tx_ring_of(pipe) {
        seq![rd32((pipe_record_of(pipe) + PIPE_HARDWARE_RING) as u32, value_of(t[0]))]
    } else {
        seq![
            rd32((pipe_record_of(pipe) + PIPE_HARDWARE_RING) as u32, value_of(t[0])),
            wr32((tx_ring_of(pipe) + RING_INACTIVE_SENTINEL) as u32, PIPE_RETRY_INACTIVE_SENTINEL),
        ]
    }
}

pub open spec fn inactive_chunk_ok(pending: u32, pipe: int, t: Seq<MmioAccess>) -> bool {
    pending & owned_mask_of(pipe) == 0 || value_of(t[0]) == tx_ring_of(pipe)
}

/// Accesses of marking the selected pipes among the first `n`, in order,
/// stopping at the first whose ring is not retained.
pub open spec fn inactive_marks(pending: u32, n: int, s: Seq<MmioAccess>) -> Seq<MmioAccess>
    decreases n,
{
    if n <= 0 {
        Seq::empty()
    } else {
        let before = inactive_marks(pending, n - 1, s);
        if !inactive_marks_ok(pending, n - 1, s) {
            before
        } else {
            before + inactive_mark_chunk(pending, n - 1, s.skip(before.len() as int))
        }
    }
}

/// No selected pipe among the first `n` lacked its ring.
pub open spec fn inactive_marks_ok(pending: u32, n: int, s: Seq<MmioAccess>) -> bool
    decreases n,
{
    if n <= 0 {
        true
    } else {
        inactive_marks_ok(pending, n - 1, s) && inactive_chunk_ok(
            pending,
            n - 1,
            s.skip(inactive_marks(pending, n - 1, s).len() as int),
        )
    }
}

/// The marks depend only on the accesses they consist of.
proof fn lemma_inactive_marks_stable(pending: u32, n: int, s: Seq<MmioAccess>, extra: Seq<MmioAccess>)
    requires
        inactive_marks(pending, n, s).len() <= s.len(),
    ensures
        inactive_marks(pending, n, s + extra) == inactive_marks(pending, n, s),
        inactive_marks_ok(pending, n, s + extra) == inactive_marks_ok(pending, n, s),
    decreases n,
{
    if n > 0 {
        let before = inactive_marks(pending, n - 1, s);
        if inactive_marks_ok(pending, n - 1, s) {
            assert(before.len() <= inactive_marks(pending, n, s).len());
        }
        lemma_inactive_marks_stable(pending, n - 1, s, extra);
        let k = before.len() as int;
        if k < s.len() {
            assert((s + extra).skip(k)[0] == s.skip(k)[0]);
        }
    }
}

/// Once a mark fails, later pipes add nothing.
proof fn lemma_inactive_marks_stop(pending: u32, n: int, m: int, s: Seq<MmioAccess>)
    requires
        0 <= n <= m,
        !inactive_marks_ok(pending, n, s),
    ensures
        inactive_marks(pending, m, s) == inactive_marks(pending, n, s),
        !inactive_marks_ok(pending, m, s),
    decreases m - n,
{
    if m > n {
        lemma_inactive_marks_stop(pending, n, m - 1, s);
    }
}

/// Writes the inactive sentinel into the ring of every pipe selected in
/// `pending`, in pipe order. Returns false, at once, on a selected pipe
/// whose ring is not retained.
fn mark_selected_commands_inactive<M: MacPipeMmio>(mmio: &mut M, pending: u32) -> (ok: bool)
    ensures
        ({
            let s = trace_after(final(mmio).accesses(), old(mmio).accesses().len() as int);
            &&& final(mmio).accesses() == old(mmio).accesses() + inactive_marks(pending, 4, s)
            &&& ok == inactive_marks_ok(pending, 4, s)
        }),
{
    let ghost before = mmio.accesses();
    let mut pipe: u8 = 0;
    while pipe < 4
        invariant
            pipe <= 4,
            before == old(mmio).accesses(),
            mmio.accesses().len() >= before.len(),
            mmio.accesses().subrange(0, before.len() as int) == before,
            trace_after(mmio.accesses(), before.len() as int) == inactive_marks(
                pending,
                pipe as int,
                trace_after(mmio.accesses(), before.len() as int),
            ),
            inactive_marks_ok(pending, pipe as int, trace_after(mmio.accesses(), before.len() as int)),
        decreases 4 - pipe,
    {
        let ghost cur0 = trace_after(mmio.accesses(), before.len() as int);
        let ghost start = mmio.accesses();
        let mask = 0x100u32 << pipe;
        assert(mask == owned_mask_of(pipe as int));
        if pending & mask != 0 {
            match crate::pipe_exec::retained_hardware_ring(mmio, pipe) {
                Some(ring) => {
                    mmio.write_u32(ring.inactive_sentinel(), PIPE_RETRY_INACTIVE_SENTINEL);
                },
                None => {
                    let ghost cur1 = trace_after(mmio.accesses(), before.len() as int);
                    proof {
                        let chunk = trace_after(mmio.accesses(), start.len() as int);
                        assert(cur1 =~= cur0 + chunk);
                        lemma_inactive_marks_stable(pending, pipe as int, cur0, chunk);
                        assert(cur1.skip(cur0.len() as int) =~= chunk);
                        assert(chunk =~= inactive_mark_chunk(pending, pipe as int, chunk));
                        assert(!inactive_chunk_ok(pending, pipe as int, chunk));
                        assert(inactive_marks(pending, pipe as int + 1, cur1) =~= cur1);
                        assert(!inactive_marks_ok(pending, pipe as int + 1, cur1));
                        lemma_inactive_marks_stop(pending, pipe as int + 1, 4, cur1);
                    }
                    assert(mmio.accesses() =~= before + cur1);
                    return false;
                },
            }
        }
        proof {
            let cur1 = trace_after(mmio.accesses(), before.len() as int);
            let chunk = trace_after(mmio.accesses(), start.len() as int);
            assert(cur1 =~= cur0 + chunk);
            lemma_inactive_marks_stable(pending, pipe as int, cur0, chunk);
            assert(cur1.skip(cur0.len() as int) =~= chunk);
            assert(chunk =~= inactive_mark_chunk(pending, pipe as int, chunk));
            assert(mmio.accesses().subrange(0, before.len() as int) =~= before);
        }
        pipe += 1;
    }
    assert(mmio.accesses() =~= before + trace_after(mmio.accesses(), before.len() as int));
    true
}

/// Acknowledgement of the retry event of a pipe with pending bit `owned`,
/// plus `extra`.
pub open spec fn retry_ack(owned: u32, extra: u32) -> u32 {
    0u32.wrapping_sub(owned.wrapping_add(extra))
}

/// The common tail of success and give-up: stop the pipe's trigger, read
/// the current and last slots, mark the command complete, advance both
/// cursors past the current slot, disarm the pipe when that was its last
/// slot, and acknowledge.
pub open spec fn retry_completion_tail(pipe: u8, t: Seq<MmioAccess>) -> Seq<MmioAccess> {
    let rec = pipe_record_of(pipe as int);
    let current = value_of(t[1]);
    let last = value_of(t[2]);
    let next = ((current + 1) % 4) as u32;
    seq![
        wr32(PIPE_IRQ_TRIGGER, (1u32 << (pipe as u32)) << 25u32),
        rd8((rec + PIPE_CURRENT) as u32, current),
        rd8((rec + PIPE_LAST) as u32, last),
        wr32((tx_ring_of(pipe as int) + RING_COMPLETION_WORD) as u32, 1),
        wr8((rec + PIPE_CURRENT) as u32, next),
        wr8((rec + PIPE_PRODUCER) as u32, next),
    ] + (if current == last {
        seq![
            wr8((rec + PIPE_STATE) as u32, 0),
            wr8((rec + PIPE_CONTROL) as u32, 0),
            wr8((rec + PIPE_WATCHDOG) as u32, 5),
        ]
    } else {
        Seq::empty()
    }) + seq![wr32(PIPE_IRQ_PENDING, retry_ack(owned_mask_of(pipe as int), 0x10))]
}

/// The latched pipe, from the first access.
pub open spec fn retry_pipe(s: Seq<MmioAccess>) -> u8 {
    (value_of(s[0]) & 3) as u8
}

/// The current slot record of the latched pipe.
pub open spec fn retry_slot(s: Seq<MmioAccess>) -> u32 {
    current_slot_of(retry_pipe(s), value_of(s[2]))
}

/// Accesses once the slot is owned for retry, given what was read from the
/// pipe's armed byte on.
pub open spec fn owned_retry_accesses(
    pipe: u8,
    slot: u32,
    word: u32,
    t: Seq<MmioAccess>,
    decision: SingleTxRetryDecision,
) -> Seq<MmioAccess> {
    let rec = pipe_record_of(pipe as int);
    let owned = owned_mask_of(pipe as int);
    let armed = value_of(t[0]);
    let expected = value_of(t[1]);
    let watchdog = value_of(t[2]);
    let read_armed = seq![rd8((rec + PIPE_STATE) as u32, armed)];
    if armed != 1 {
        let marks = inactive_marks(word, 4, t.skip(1));
        if inactive_marks_ok(word, 4, t.skip(1)) {
            read_armed + marks + seq![wr32(PIPE_IRQ_PENDING, retry_ack(owned, 1))]
        } else {
            read_armed + marks
        }
    } else if expected == 6 {
        read_armed.push(rd8((slot + SLOT_EXPECTED_STATUS) as u32, expected))
    } else {
        let checked = read_armed + seq![
            rd8((slot + SLOT_EXPECTED_STATUS) as u32, expected),
            rd8((rec + PIPE_WATCHDOG) as u32, watchdog),
        ] + if watchdog == 0 || watchdog >= 0x80 {
            seq![wr8((rec + PIPE_WATCHDOG) as u32, 1)]
        } else {
            Seq::empty()
        };
        match decision {
            SingleTxRetryDecision::Rearm => checked,
            SingleTxRetryDecision::AwaitBlockAck => checked.push(
                wr32(PIPE_IRQ_PENDING, retry_ack(owned, 0x10)),
            ),
            _ => checked + retry_completion_tail(pipe, t.skip(checked.len() as int)),
        }
    }
}

/// Backend calls once the slot is owned for retry.
pub open spec fn owned_retry_calls(
    pipe: u8,
    slot: u32,
    frame_node: FrameNodeAddress,
    word: u32,
    t: Seq<MmioAccess>,
    decision: SingleTxRetryDecision,
) -> Seq<RetryBackendCall> {
    let fatal = RetryBackendCall::FatalUnsupportedMultiSlotRetry { pipe, slot, frame_node };
    let decide = RetryBackendCall::DecideRetry { pipe, slot, frame_node, decision };
    if value_of(t[0]) != 1 {
        if inactive_marks_ok(word, 4, t.skip(1)) {
            Seq::empty()
        } else {
            seq![fatal]
        }
    } else if value_of(t[1]) == 6 {
        seq![fatal]
    } else {
        match decision {
            SingleTxRetryDecision::Rearm => seq![
                decide,
                RetryBackendCall::RearmAndAck {
                    pipe,
                    slot,
                    frame_node,
                    pending_mask: owned_mask_of(pipe as int),
                },
            ],
            SingleTxRetryDecision::CompleteSuccess => seq![
                decide,
                RetryBackendCall::CompleteSuccess { pipe, frame_node, slot },
            ],
            SingleTxRetryDecision::GiveUp => seq![
                decide,
                RetryBackendCall::CompleteGiveUp { pipe, frame_node, slot, status: 0x0b },
            ],
            SingleTxRetryDecision::AwaitBlockAck => seq![decide],
        }
    }
}

/// Outcome once the slot is owned for retry.
pub open spec fn owned_retry_outcome(word: u32, t: Seq<MmioAccess>, decision: SingleTxRetryDecision) -> SingleTxRetryOutcome {
    if value_of(t[0]) != 1 {
        if inactive_marks_ok(word, 4, t.skip(1)) {
            SingleTxRetryOutcome::InactivePipeAcknowledged
        } else {
            SingleTxRetryOutcome::FatalUnsupported
        }
    } else if value_of(t[1]) == 6 {
        SingleTxRetryOutcome::FatalUnsupported
    } else {
        match decision {
            SingleTxRetryDecision::Rearm => SingleTxRetryOutcome::Rearmed,
            SingleTxRetryDecision::CompleteSuccess => SingleTxRetryOutcome::Completed,
            SingleTxRetryDecision::GiveUp => SingleTxRetryOutcome::GivenUp,
            SingleTxRetryDecision::AwaitBlockAck => SingleTxRetryOutcome::AwaitingBlockAck,
        }
    }
}

/// Accesses up to taking the slot for retry: publish the latched pipe's
/// record and current slot, check the pending bit and slot state, read the
/// frame node and the ring pointer, then mark the slot retry-owned and the
/// MAC busy.
pub open spec fn retry_entry_accesses(word: u32, s: Seq<MmioAccess>) -> Seq<MmioAccess> {
    let pipe = retry_pipe(s);
    let rec = pipe_record_of(pipe as int);
    let slot = retry_slot(s);
    let published = seq![
        rd8(MAC_CURRENT_PIPE, value_of(s[0])),
        wr32(MAC_CURRENT_PIPE_RECORD, rec),
        rd8((rec + PIPE_CURRENT) as u32, value_of(s[2])),
        wr32(MAC_CURRENT_SLOT, slot),
    ];
    if word & owned_mask_of(pipe as int) == 0 {
        published
    } else if value_of(s[4]) != 3 {
        published.push(rd8((slot + SLOT_STATE) as u32, value_of(s[4])))
    } else if value_of(s[6]) != tx_ring_of(pipe as int) {
        published + seq![
            rd8((slot + SLOT_STATE) as u32, value_of(s[4])),
            rd32((slot + SLOT_FRAME) as u32, value_of(s[5])),
            rd32((rec + PIPE_HARDWARE_RING) as u32, value_of(s[6])),
        ]
    } else {
        published + seq![
            rd8((slot + SLOT_STATE) as u32, value_of(s[4])),
            rd32((slot + SLOT_FRAME) as u32, value_of(s[5])),
            rd32((rec + PIPE_HARDWARE_RING) as u32, value_of(s[6])),
            wr8((slot + SLOT_STATE) as u32, 4),
            wr8(LOW_MAC_PIPE_BUSY, 1),
        ]
    }
}

/// The slot was taken for retry.
pub open spec fn retry_slot_owned(word: u32, s: Seq<MmioAccess>) -> bool {
    word & owned_mask_of(retry_pipe(s) as int) != 0 && value_of(s[4]) == 3 && value_of(s[6])
        == tx_ring_of(retry_pipe(s) as int)
}

/// Every access of the executor, given what was read and what the backend
/// decided.
pub open spec fn retry_accesses(word: u32, s: Seq<MmioAccess>, decision: SingleTxRetryDecision) -> Seq<
    MmioAccess,
> {
    if retry_slot_owned(word, s) {
        retry_entry_accesses(word, s) + owned_retry_accesses(
            retry_pipe(s),
            retry_slot(s),
            word,
            s.skip(9),
            decision,
        )
    } else {
        retry_entry_accesses(word, s)
    }
}

/// The backend calls of the executor.
pub open spec fn retry_calls(word: u32, s: Seq<MmioAccess>, decision: SingleTxRetryDecision) -> Seq<
    RetryBackendCall,
> {
    let pipe = retry_pipe(s);
    let frame_node = FrameNodeAddress(value_of(s[5]));
    if retry_slot_owned(word, s) {
        owned_retry_calls(pipe, retry_slot(s), frame_node, word, s.skip(9), decision)
    } else if word & owned_mask_of(pipe as int) != 0 && value_of(s[4]) == 3 {
        seq![
            RetryBackendCall::FatalUnsupportedMultiSlotRetry {
                pipe,
                slot: retry_slot(s),
                frame_node,
            },
        ]
    } else {
        Seq::empty()
    }
}

/// The executor's outcome.
pub open spec fn retry_outcome(word: u32, s: Seq<MmioAccess>, decision: SingleTxRetryDecision) -> SingleTxRetryOutcome {
    if word & owned_mask_of(retry_pipe(s) as int) == 0 {
        SingleTxRetryOutcome::MaskNotOwned
    } else if value_of(s[4]) != 3 {
        SingleTxRetryOutcome::SlotNotStarted
    } else if !retry_slot_owned(word, s) {
        SingleTxRetryOutcome::FatalUnsupported
    } else {
        owned_retry_outcome(word, s.skip(9), decision)
    }
}

/// The decision that the backend returned, when it was asked.
pub open spec fn decided(calls: Seq<RetryBackendCall>) -> SingleTxRetryDecision {
    if calls.len() > 0 && calls[0] is DecideRetry {
        calls[0]->DecideRetry_decision
    } else {
        SingleTxRetryDecision::Rearm
    }
}
proof fn lemma_pipe_facts(pipe: u8)
    requires
        pipe < 4,
    ensures
        pipe & 3 == pipe,
        (0x100u32 << pipe) == owned_mask_of(pipe as int),
        owned_mask_of(pipe as int) <= 0x800,
        (1u32 << pipe) << 25u32 <= 0x1000_0000,
{
    crate::registers::lemma_pipe_bits(pipe);
    assert((0x100u32 << pipe) <= 0x800) by (bit_vector)
        requires
            pipe < 4,
    ;
}

/// Success and give-up tail: see `retry_completion_tail`.
fn complete_current_slot<M: MacPipeMmio, B: SingleTxRetryBackend>(
    mmio: &mut M,
    backend: &mut B,
    pipe: u8,
    slot: u32,
    frame_node: FrameNodeAddress,
    give_up: bool,
)
    requires
        pipe < 4,
    ensures
        final(mmio).accesses() == old(mmio).accesses() + retry_completion_tail(
            pipe,
            trace_after(final(mmio).accesses(), old(mmio).accesses().len() as int),
        ),
        final(backend).calls() == old(backend).calls().push(
            if give_up {
                RetryBackendCall::CompleteGiveUp { pipe, frame_node, slot, status: 0x0b }
            } else {
                RetryBackendCall::CompleteSuccess { pipe, frame_node, slot }
            },
        ),
{
    let ghost before = mmio.accesses();
    proof {
        lemma_pipe_facts(pipe);
    }
    let record = crate::registers::pipe_record_address(pipe);
    let ring = crate::registers::tx_ring_register(pipe);
    let owned_mask = 0x100u32 << pipe;
    mmio.write_u32(PIPE_IRQ_TRIGGER, (1u32 << pipe) << 25u32);
    let current = mmio.read_u8(record + PIPE_CURRENT);
    let last = mmio.read_u8(record + PIPE_LAST);
    if give_up {
        backend.complete_give_up(pipe, frame_node, slot, 0x0b);
    } else {
        backend.complete_success(pipe, frame_node, slot);
    }
    mmio.write_u32(ring + RING_COMPLETION_WORD, 1);
    let next = current.wrapping_add(1) & 3;
    assert(next == (current + 1) % 4) by (bit_vector)
        requires
            next == current.wrapping_add(1) & 3,
    ;
    mmio.write_u8(record + PIPE_CURRENT, next);
    mmio.write_u8(record + PIPE_PRODUCER, next);
    if current == last {
        mmio.write_u8(record + PIPE_STATE, 0);
        mmio.write_u8(record + PIPE_CONTROL, 0);
        mmio.write_u8(record + PIPE_WATCHDOG, 5);
    }
    mmio.write_u32(PIPE_IRQ_PENDING, 0u32.wrapping_sub(owned_mask.wrapping_add(0x10)));
    let ghost t = trace_after(mmio.accesses(), before.len() as int);
    assert(value_of(t[1]) == current as u32);
    assert(value_of(t[2]) == last as u32);
    assert(t =~= retry_completion_tail(pipe, t));
    assert(mmio.accesses() =~= before + t);
}

/// Everything after the slot is taken for retry.
#[verifier::spinoff_prover]
fn retry_owned_slot<M: MacPipeMmio, B: SingleTxRetryBackend>(
    mmio: &mut M,
    backend: &mut B,
    pipe: u8,
    slot: u32,
    frame_node: FrameNodeAddress,
    pending: u32,
) -> (outcome: SingleTxRetryOutcome)
    requires
        pipe < 4,
        slot <= 0x0500_0000,
    ensures
        ({
            let t = trace_after(final(mmio).accesses(), old(mmio).accesses().len() as int);
            let calls = final(backend).calls().skip(old(backend).calls().len() as int);
            let decision = decided(calls);
            &&& final(mmio).accesses() == old(mmio).accesses() + owned_retry_accesses(
                pipe,
                slot,
                pending,
                t,
                decision,
            )
            &&& final(backend).calls() == old(backend).calls() + owned_retry_calls(
                pipe,
                slot,
                frame_node,
                pending,
                t,
                decision,
            )
            &&& outcome == owned_retry_outcome(pending, t, decision)
        }),
{
    let ghost before = mmio.accesses();
    let ghost calls_before = backend.calls();
    proof {
        lemma_pipe_facts(pipe);
    }
    let record = crate::registers::pipe_record_address(pipe);
    let owned_mask = 0x100u32 << pipe;
    let armed = mmio.read_u8(record + PIPE_STATE);
    if armed != 1 {
        let ghost head = mmio.accesses();
        let marked = mark_selected_commands_inactive(mmio, pending);
        let ghost marks = trace_after(mmio.accesses(), head.len() as int);
        if !marked {
            backend.fatal_unsupported_multi_slot_retry(pipe, slot, frame_node);
            proof {
                let t = trace_after(mmio.accesses(), before.len() as int);
                assert(t.skip(1) =~= marks);
                let fatal = RetryBackendCall::FatalUnsupportedMultiSlotRetry { pipe, slot, frame_node };
                assert(backend.calls().skip(calls_before.len() as int) =~= seq![fatal]);
                assert(t =~= owned_retry_accesses(pipe, slot, pending, t, decided(seq![fatal])));
                assert(backend.calls() =~= calls_before + owned_retry_calls(pipe, slot, frame_node, pending, t, decided(seq![fatal])));
            }
            assert(mmio.accesses() =~= before + trace_after(mmio.accesses(), before.len() as int));
            return SingleTxRetryOutcome::FatalUnsupported;
        }
        mmio.write_u32(PIPE_IRQ_PENDING, 0u32.wrapping_sub(owned_mask.wrapping_add(1)));
        proof {
            let t = trace_after(mmio.accesses(), before.len() as int);
            let ack = seq![wr32(PIPE_IRQ_PENDING, retry_ack(owned_mask, 1))];
            assert(t.skip(1) =~= marks + ack);
            lemma_inactive_marks_stable(pending, 4, marks, ack);
            assert(backend.calls().skip(calls_before.len() as int) =~= Seq::empty());
            assert(t =~= owned_retry_accesses(pipe, slot, pending, t, decided(Seq::empty())));
            assert(backend.calls() =~= calls_before + owned_retry_calls(pipe, slot, frame_node, pending, t, decided(Seq::empty())));
        }
        assert(mmio.accesses() =~= before + trace_after(mmio.accesses(), before.len() as int));
        return SingleTxRetryOutcome::InactivePipeAcknowledged;
    }
    let expected_status = mmio.read_u8(slot + SLOT_EXPECTED_STATUS);
    if expected_status == 6 {
        backend.fatal_unsupported_multi_slot_retry(pipe, slot, frame_node);
        proof {
            let t = trace_after(mmio.accesses(), before.len() as int);
            let fatal = RetryBackendCall::FatalUnsupportedMultiSlotRetry { pipe, slot, frame_node };
            assert(backend.calls().skip(calls_before.len() as int) =~= seq![fatal]);
            assert(t =~= owned_retry_accesses(pipe, slot, pending, t, decided(seq![fatal])));
            assert(backend.calls() =~= calls_before + owned_retry_calls(pipe, slot, frame_node, pending, t, decided(seq![fatal])));
        }
        assert(mmio.accesses() =~= before + trace_after(mmio.accesses(), before.len() as int));
        return SingleTxRetryOutcome::FatalUnsupported;
    }
    let watchdog = mmio.read_u8(record + PIPE_WATCHDOG);
    if watchdog == 0 || watchdog >= 0x80 {
        mmio.write_u8(record + PIPE_WATCHDOG, 1);
    }
    let ghost checked = trace_after(mmio.accesses(), before.len() as int);
    let decision = backend.decide_retry(pipe, slot, frame_node);
    let ghost decide = RetryBackendCall::DecideRetry { pipe, slot, frame_node, decision };
    let ghost mid = mmio.accesses();
    let outcome = match decision {
        SingleTxRetryDecision::Rearm => {
            backend.rearm_and_ack(pipe, slot, frame_node, owned_mask);
            SingleTxRetryOutcome::Rearmed
        },
        SingleTxRetryDecision::CompleteSuccess => {
            complete_current_slot(mmio, backend, pipe, slot, frame_node, false);
            SingleTxRetryOutcome::Completed
        },
        SingleTxRetryDecision::AwaitBlockAck => {
            mmio.write_u32(PIPE_IRQ_PENDING, 0u32.wrapping_sub(owned_mask.wrapping_add(0x10)));
            SingleTxRetryOutcome::AwaitingBlockAck
        },
        SingleTxRetryDecision::GiveUp => {
            complete_current_slot(mmio, backend, pipe, slot, frame_node, true);
            SingleTxRetryOutcome::GivenUp
        },
    };
    proof {
        let t = trace_after(mmio.accesses(), before.len() as int);
        let new_calls = backend.calls().skip(calls_before.len() as int);
        assert(new_calls[0] == decide);
        assert(decided(new_calls) == decision);
        assert(t.subrange(0, checked.len() as int) =~= checked);
        assert(t.skip(checked.len() as int) =~= trace_after(mmio.accesses(), mid.len() as int));
        assert(t =~= owned_retry_accesses(pipe, slot, pending, t, decision));
        assert(backend.calls() =~= calls_before + owned_retry_calls(pipe, slot, frame_node, pending, t, decision));
    }
    assert(mmio.accesses() =~= before + trace_after(mmio.accesses(), before.len() as int));
    outcome
}

/// The retry event of the frame in the current slot of the latched pipe,
/// with the scheduler word saved before pipe service.
///
/// The latched pipe's record and current slot are published first. Nothing
/// more happens unless the saved word holds the pipe's pending bit and the
/// slot is started. The slot then passes to retry ownership and the MAC is
/// marked busy. On an unarmed pipe every selected pipe's command is marked
/// inactive and the event acknowledged. Otherwise the backend decides:
/// re-arm (the backend re-arms and acknowledges), complete or give up
/// (status 0x0b), each finishing the slot, or wait for a BlockAck. A
/// shape outside the single-frame subset calls the backend's fatal leaf.
#[verifier::spinoff_prover]
pub fn execute_single_outstanding_tx_retry<M: MacPipeMmio, B: SingleTxRetryBackend>(
    mmio: &mut M,
    scheduler_word: SchedulerWord,
    backend: &mut B,
) -> (outcome: SingleTxRetryOutcome)
    ensures
        ({
            let s = trace_after(final(mmio).accesses(), old(mmio).accesses().len() as int);
            let calls = final(backend).calls().skip(old(backend).calls().len() as int);
            let decision = decided(calls);
            &&& final(mmio).accesses() == old(mmio).accesses() + retry_accesses(
                scheduler_word.0,
                s,
                decision,
            )
            &&& final(backend).calls() == old(backend).calls() + retry_calls(
                scheduler_word.0,
                s,
                decision,
            )
            &&& outcome == retry_outcome(scheduler_word.0, s, decision)
        }),
{
    let ghost before = mmio.accesses();
    let ghost calls_before = backend.calls();
    let latched = mmio.read_u8(MAC_CURRENT_PIPE);
    let pipe = latched & 3;
    proof {
        assert(pipe < 4) by (bit_vector)
            requires
                pipe == latched & 3,
        ;
        lemma_pipe_facts(pipe);
        crate::registers::lemma_pipe_bits(latched);
    }
    let record = crate::registers::pipe_record_address(pipe);
    mmio.write_u32(MAC_CURRENT_PIPE_RECORD, record);
    let slot = crate::pipe_exec::current_slot_pub(mmio, pipe);
    mmio.write_u32(MAC_CURRENT_SLOT, slot);
    let owned_mask = 0x100u32 << pipe;
    let pending = scheduler_word.raw();
    if pending & owned_mask == 0 {
        proof {
            let s = trace_after(mmio.accesses(), before.len() as int);
            assert(s =~= retry_entry_accesses(pending, s));
            assert(backend.calls().skip(calls_before.len() as int) =~= Seq::empty());
        }
        assert(mmio.accesses() =~= before + trace_after(mmio.accesses(), before.len() as int));
        return SingleTxRetryOutcome::MaskNotOwned;
    }
    let state = mmio.read_u8(slot + SLOT_STATE);
    if state != 3 {
        proof {
            let s = trace_after(mmio.accesses(), before.len() as int);
            assert(s =~= retry_entry_accesses(pending, s));
            assert(backend.calls().skip(calls_before.len() as int) =~= Seq::empty());
        }
        assert(mmio.accesses() =~= before + trace_after(mmio.accesses(), before.len() as int));
        return SingleTxRetryOutcome::SlotNotStarted;
    }
    let frame_node = FrameNodeAddress::new(mmio.read_u32(slot + SLOT_FRAME));
    match crate::pipe_exec::retained_hardware_ring(mmio, pipe) {
        Some(_) => {},
        None => {
            backend.fatal_unsupported_multi_slot_retry(pipe, slot, frame_node);
            proof {
                let s = trace_after(mmio.accesses(), before.len() as int);
                assert(s =~= retry_entry_accesses(pending, s));
                let fatal = RetryBackendCall::FatalUnsupportedMultiSlotRetry { pipe, slot, frame_node };
                assert(backend.calls().skip(calls_before.len() as int) =~= seq![fatal]);
                assert(backend.calls() =~= calls_before + retry_calls(pending, s, decided(seq![fatal])));
            }
            assert(mmio.accesses() =~= before + trace_after(mmio.accesses(), before.len() as int));
            return SingleTxRetryOutcome::FatalUnsupported;
        },
    }
    mmio.write_u8(slot + SLOT_STATE, 4);
    mmio.write_u8(LOW_MAC_PIPE_BUSY, 1);
    let ghost entry = trace_after(mmio.accesses(), before.len() as int);
    let ghost mid = mmio.accesses();
    proof {
        assert(entry =~= retry_entry_accesses(pending, entry));
    }
    let outcome = retry_owned_slot(mmio, backend, pipe, slot, frame_node, pending);
    proof {
        let s = trace_after(mmio.accesses(), before.len() as int);
        assert(s.subrange(0, 9) =~= entry);
        assert(s.skip(9) =~= trace_after(mmio.accesses(), mid.len() as int));
        assert(retry_entry_accesses(pending, s) =~= retry_entry_accesses(pending, entry));
        assert(s =~= retry_accesses(pending, s, decided(backend.calls().skip(calls_before.len() as int))));
    }
    assert(mmio.accesses() =~= before + trace_after(mmio.accesses(), before.len() as int));
    outcome
}

} // verus!
