//! The ordinary TX status executor: what the MAC does with a TX status for
//! the current slot of the latched pipe. It reads the pipe and slot, plans
//! with `ordinary_status_plan`, marks the slot, and advances or completes
//! it; the backoff reset and the slot's completion are left to a policy.

use vstd::prelude::*;

use crate::context::FrameNodeAddress;
use crate::mmio::{rd32, rd8, trace_after, value_of, wr32, wr8, MacPipeMmio, MmioAccess};
use crate::pipe_exec::{current_slot_of, publish_current_accesses, publish_current_pipe_slot_pub};
use crate::plans::{
    ordinary_status_plan, plan_mac_tx_status_accounting, plan_ordinary_tx_pipe_status, OrdinaryTxPipeCursorPlan,
    OrdinaryTxPipeStatusInput, OrdinaryTxPipeStatusPlan,
};
use crate::registers::{
    lemma_pipe_bits, pipe_record_of, LOW_MAC_PIPE_BUSY, MAC_BEACON_CONTROL, MAC_BEACON_CONTROL_REGISTER,
    MAC_BEACON_CONTROL_STATE, MAC_CURRENT_PIPE, MAC_PHY_COMPLETION_STATUS, MAC_STATUS_ACCOUNTING,
    MAC_TX_STATUS_RANGE_COUNTER, MAC_TX_STATUS_TOTAL_COUNTER, MAC_WAKE_CONTROL, RX_FIFO_CLAIM_CURSOR,
    PIPE_CONTROL, PIPE_CURRENT, PIPE_LAST, PIPE_PRODUCER, PIPE_STATE, PIPE_STATUS_COUNTER,
    PIPE_WATCHDOG, QUEUE_TO_ACCESS_CATEGORY, SLOT_EXPECTED_STATUS, SLOT_FRAME, SLOT_KIND,
    SLOT_STATE,
};

verus! {

/// One call made on a TX status policy.
#[derive(Clone, Copy, Debug, PartialEq, Eq, Structural)]
pub enum TxStatusCall {
    ResetStatusBackoff { link: u8, queue: u8, pas_state: u32, queue_table: u32 },
    CompleteSlot { frame_node: FrameNodeAddress, slot: u32, status: u16 },
    FindRxFrame { subtype: u8, found: Option<u32> },
}

/// The policy side of an ordinary TX status. Neither leaf may refuse: the
/// status has been consumed from the MAC by then. Each call is recorded in
/// `calls`.
pub trait TxStatusPolicy {
    /// Every call made so far, oldest first.
    /// A verified implementation defines it; the empty default only lets an
    /// implementation that Verus does not check leave it out.
    open spec fn calls(&self) -> Seq<TxStatusCall> {
        Seq::empty()
    }

    /// Resets the backoff of the link's queue after a completed frame.
    fn reset_status_backoff(&mut self, link: u8, queue: u8, pas_state: u32, queue_table: u32)
        ensures
            final(self).calls() == old(self).calls().push(
                TxStatusCall::ResetStatusBackoff { link, queue, pas_state, queue_table },
            ),
    ;

    /// Completes the frame (or aggregate) of `slot`, starting at
    /// `frame_node`, with `status`: the slot's completion boundary.
    fn complete_slot(&mut self, frame_node: FrameNodeAddress, slot: u32, status: u16)
        ensures
            final(self).calls() == old(self).calls().push(
                TxStatusCall::CompleteSlot { frame_node, slot, status },
            ),
    ;

    /// Looks for a received frame of `subtype` and processes it; returns its
    /// address when there was one.
    fn find_rx_frame_by_subtype(&mut self, subtype: u8) -> (found: Option<u32>)
        ensures
            final(self).calls() == old(self).calls().push(TxStatusCall::FindRxFrame { subtype, found }),
    ;
}

/// The pipe latched by the first read.
pub open spec fn status_pipe(s: Seq<MmioAccess>) -> u8 {
    (value_of(s[0]) as u8) & 3
}

/// The current slot of the latched pipe.
pub open spec fn status_slot(s: Seq<MmioAccess>) -> u32 {
    current_slot_of(status_pipe(s), value_of(s[1]))
}

/// The reads that feed the plan, from the values in `t`.
pub open spec fn status_input_accesses(pipe: u8, slot: u32, t: Seq<MmioAccess>) -> Seq<MmioAccess> {
    let record = pipe_record_of(pipe as int);
    seq![
        rd8((record + PIPE_STATE) as u32, value_of(t[0])),
        rd8((slot + SLOT_EXPECTED_STATUS) as u32, value_of(t[1])),
        rd8((slot + SLOT_KIND) as u32, value_of(t[2])),
        rd8((slot + SLOT_STATE) as u32, value_of(t[3])),
        rd8(LOW_MAC_PIPE_BUSY, value_of(t[4])),
        rd8((record + PIPE_CURRENT) as u32, value_of(t[5])),
        rd8((record + PIPE_LAST) as u32, value_of(t[6])),
        rd8((record + PIPE_WATCHDOG) as u32, value_of(t[7])),
    ]
}

/// The plan's input, from the values read.
pub open spec fn status_input_of(t: Seq<MmioAccess>) -> OrdinaryTxPipeStatusInput {
    OrdinaryTxPipeStatusInput {
        pipe_active: value_of(t[0]) == 1,
        expected_status: value_of(t[1]) as u8,
        slot_kind: value_of(t[2]) as u8,
        slot_state: value_of(t[3]) as u8,
        global_busy: value_of(t[4]) != 0,
        pipe_current: value_of(t[5]) as u8,
        pipe_last: value_of(t[6]) as u8,
        pipe_status: value_of(t[7]) as u8,
    }
}

/// The plan made for `status`, from the values read.
pub open spec fn status_plan_of(status: u8, s: Seq<MmioAccess>) -> OrdinaryTxPipeStatusPlan {
    ordinary_status_plan(status_input_of(s.skip(4)), status)
}

/// The pipe-status reset written when the plan asks for it.
pub open spec fn watchdog_reset(pipe: u8, initialize: bool) -> Seq<MmioAccess> {
    if initialize {
        seq![wr8((pipe_record_of(pipe as int) + PIPE_WATCHDOG) as u32, 1)]
    } else {
        Seq::empty()
    }
}

/// Accesses of advancing a kind-2 slot without completing it: count the
/// status twice and move the current slot.
pub open spec fn status_advance_accesses(pipe: u8, initialize: bool, next_current: u8, t: Seq<MmioAccess>) -> Seq<
    MmioAccess,
> {
    let reset = watchdog_reset(pipe, initialize);
    let k = reset.len() as int;
    let counter = value_of(t[k]);
    let accounting = value_of(t[k + 2]);
    reset + seq![
        rd32(PIPE_STATUS_COUNTER, counter),
        wr32(PIPE_STATUS_COUNTER, counter.wrapping_add(1)),
        rd32(MAC_STATUS_ACCOUNTING, accounting),
        wr32(MAC_STATUS_ACCOUNTING, accounting.wrapping_add(1)),
        wr8((pipe_record_of(pipe as int) + PIPE_CURRENT) as u32, next_current as u32),
    ]
}

/// Cursor writes after a completion.
pub open spec fn status_cursor_accesses(pipe: u8, cursor: OrdinaryTxPipeCursorPlan) -> Seq<MmioAccess> {
    let record = pipe_record_of(pipe as int);
    match cursor {
        OrdinaryTxPipeCursorPlan::AdvanceCurrent { next_current } => seq![
            wr8((record + PIPE_CURRENT) as u32, next_current as u32),
            wr8((record + PIPE_PRODUCER) as u32, next_current as u32),
        ],
        OrdinaryTxPipeCursorPlan::Recycle { next_head } => seq![
            wr8((record + PIPE_PRODUCER) as u32, next_head as u32),
            wr8((record + PIPE_STATE) as u32, 0),
            wr8((record + PIPE_CONTROL) as u32, 0),
            wr8((record + PIPE_WATCHDOG) as u32, 5),
        ],
    }
}

/// Accesses of completing the slot: the frame node, its link and the pipe's
/// queue for the backoff reset, the frame node's completion flag, then the
/// cursor.
pub open spec fn status_complete_accesses(
    pipe: u8,
    slot: u32,
    initialize: bool,
    cursor: OrdinaryTxPipeCursorPlan,
    t: Seq<MmioAccess>,
) -> Seq<MmioAccess> {
    let reset = watchdog_reset(pipe, initialize);
    let k = reset.len() as int;
    let pas = value_of(t[k]);
    let flags = value_of(t[k + 3]);
    reset + seq![
        rd32((slot + SLOT_FRAME) as u32, pas),
        rd8(pas.wrapping_add(0x69), value_of(t[k + 1])),
        rd8((QUEUE_TO_ACCESS_CATEGORY + pipe) as u32, value_of(t[k + 2])),
        rd32(pas.wrapping_add(0x2c), flags),
        wr32(pas.wrapping_add(0x2c), flags | 0x200),
    ] + status_cursor_accesses(pipe, cursor)
}

/// Accesses of `service_txp_pipe_tx_status` for `status`.
pub open spec fn status_accesses(status: u8, s: Seq<MmioAccess>) -> Seq<MmioAccess> {
    let pipe = status_pipe(s);
    let slot = status_slot(s);
    let head = seq![rd8(MAC_CURRENT_PIPE, value_of(s[0]))] + publish_current_accesses(pipe, s.skip(1))
        + status_input_accesses(pipe, slot, s.skip(4));
    let mark = seq![wr8((slot + SLOT_STATE) as u32, 5)];
    match status_plan_of(status, s) {
        OrdinaryTxPipeStatusPlan::Ineligible => head,
        OrdinaryTxPipeStatusPlan::SuppressedAfterSlotMark => head + mark,
        OrdinaryTxPipeStatusPlan::AdvanceWithoutCompletion { initialize_pipe_status, next_current } => head
            + mark + status_advance_accesses(pipe, initialize_pipe_status, next_current, s.skip(13)),
        OrdinaryTxPipeStatusPlan::Complete { initialize_pipe_status, cursor } => head + mark
            + status_complete_accesses(pipe, slot, initialize_pipe_status, cursor, s.skip(13)),
    }
}

/// Policy calls of `service_txp_pipe_tx_status`: for a completion, the
/// backoff reset and then the slot's completion with status zero.
pub open spec fn status_calls(status: u8, s: Seq<MmioAccess>) -> Seq<TxStatusCall> {
    match status_plan_of(status, s) {
        OrdinaryTxPipeStatusPlan::Complete { initialize_pipe_status, .. } => {
            let t = s.skip(13);
            let k: int = if initialize_pipe_status { 1 } else { 0 };
            let pas = value_of(t[k]);
            seq![
                TxStatusCall::ResetStatusBackoff {
                    link: value_of(t[k + 1]) as u8,
                    queue: value_of(t[k + 2]) as u8,
                    pas_state: pas.wrapping_add(0x60),
                    queue_table: QUEUE_TO_ACCESS_CATEGORY,
                },
                TxStatusCall::CompleteSlot {
                    frame_node: FrameNodeAddress(pas),
                    slot: status_slot(s),
                    status: 0,
                },
            ]
        },
        _ => Seq::empty(),
    }
}

fn read_status_input<M: MacPipeMmio>(mmio: &mut M, pipe: u8, record: u32, slot: u32) -> (input:
    OrdinaryTxPipeStatusInput)
    requires
        pipe < 4,
        record == pipe_record_of(pipe as int),
        slot <= 0x0500_0000,
    ensures
        ({
            let t = trace_after(final(mmio).accesses(), old(mmio).accesses().len() as int);
            &&& final(mmio).accesses() == old(mmio).accesses() + status_input_accesses(pipe, slot, t)
            &&& input == status_input_of(t)
        }),
{
    let ghost before = mmio.accesses();
    let state = mmio.read_u8(record + PIPE_STATE);
    let expected_status = mmio.read_u8(slot + SLOT_EXPECTED_STATUS);
    let slot_kind = mmio.read_u8(slot + SLOT_KIND);
    let slot_state = mmio.read_u8(slot + SLOT_STATE);
    let busy = mmio.read_u8(LOW_MAC_PIPE_BUSY);
    let pipe_current = mmio.read_u8(record + PIPE_CURRENT);
    let pipe_last = mmio.read_u8(record + PIPE_LAST);
    let pipe_status = mmio.read_u8(record + PIPE_WATCHDOG);
    let ghost t = trace_after(mmio.accesses(), before.len() as int);
    assert(mmio.accesses() =~= before + status_input_accesses(pipe, slot, t));
    OrdinaryTxPipeStatusInput {
        pipe_active: state == 1,
        expected_status,
        slot_kind,
        slot_state,
        global_busy: busy != 0,
        pipe_current,
        pipe_last,
        pipe_status,
    }
}

fn reset_pipe_status<M: MacPipeMmio>(mmio: &mut M, pipe: u8, record: u32, initialize: bool)
    requires
        pipe < 4,
        record == pipe_record_of(pipe as int),
    ensures
        final(mmio).accesses() == old(mmio).accesses() + watchdog_reset(pipe, initialize),
{
    let ghost before = mmio.accesses();
    if initialize {
        mmio.write_u8(record + PIPE_WATCHDOG, 1);
    }
    assert(mmio.accesses() =~= before + watchdog_reset(pipe, initialize));
}

fn advance_status_slot<M: MacPipeMmio>(mmio: &mut M, pipe: u8, record: u32, initialize: bool, next_current: u8)
    requires
        pipe < 4,
        record == pipe_record_of(pipe as int),
    ensures
        final(mmio).accesses() == old(mmio).accesses() + status_advance_accesses(
            pipe,
            initialize,
            next_current,
            trace_after(final(mmio).accesses(), old(mmio).accesses().len() as int),
        ),
{
    let ghost before = mmio.accesses();
    reset_pipe_status(mmio, pipe, record, initialize);
    let ghost k = (mmio.accesses().len() - before.len()) as int;
    let counter = mmio.read_u32(PIPE_STATUS_COUNTER);
    mmio.write_u32(PIPE_STATUS_COUNTER, counter.wrapping_add(1));
    let accounting = mmio.read_u32(MAC_STATUS_ACCOUNTING);
    mmio.write_u32(MAC_STATUS_ACCOUNTING, accounting.wrapping_add(1));
    mmio.write_u8(record + PIPE_CURRENT, next_current);
    let ghost t = trace_after(mmio.accesses(), before.len() as int);
    assert(value_of(t[k]) == counter);
    assert(value_of(t[k + 2]) == accounting);
    assert(mmio.accesses() =~= before + status_advance_accesses(pipe, initialize, next_current, t));
}

fn write_status_cursor<M: MacPipeMmio>(mmio: &mut M, pipe: u8, record: u32, cursor: OrdinaryTxPipeCursorPlan)
    requires
        pipe < 4,
        record == pipe_record_of(pipe as int),
    ensures
        final(mmio).accesses() == old(mmio).accesses() + status_cursor_accesses(pipe, cursor),
{
    let ghost before = mmio.accesses();
    match cursor {
        OrdinaryTxPipeCursorPlan::AdvanceCurrent { next_current } => {
            mmio.write_u8(record + PIPE_CURRENT, next_current);
            mmio.write_u8(record + PIPE_PRODUCER, next_current);
        },
        OrdinaryTxPipeCursorPlan::Recycle { next_head } => {
            mmio.write_u8(record + PIPE_PRODUCER, next_head);
            mmio.write_u8(record + PIPE_STATE, 0);
            mmio.write_u8(record + PIPE_CONTROL, 0);
            mmio.write_u8(record + PIPE_WATCHDOG, 5);
        },
    }
    assert(mmio.accesses() =~= before + status_cursor_accesses(pipe, cursor));
}

fn complete_status_slot<M: MacPipeMmio, P: TxStatusPolicy>(
    mmio: &mut M,
    policy: &mut P,
    pipe: u8,
    record: u32,
    slot: u32,
    initialize: bool,
    cursor: OrdinaryTxPipeCursorPlan,
)
    requires
        pipe < 4,
        record == pipe_record_of(pipe as int),
        slot <= 0x0500_0000,
    ensures
        ({
            let t = trace_after(final(mmio).accesses(), old(mmio).accesses().len() as int);
            let k: int = if initialize { 1 } else { 0 };
            let pas = value_of(t[k]);
            &&& final(mmio).accesses() == old(mmio).accesses() + status_complete_accesses(
                pipe,
                slot,
                initialize,
                cursor,
                t,
            )
            &&& final(policy).calls() == old(policy).calls() + seq![
                TxStatusCall::ResetStatusBackoff {
                    link: value_of(t[k + 1]) as u8,
                    queue: value_of(t[k + 2]) as u8,
                    pas_state: pas.wrapping_add(0x60),
                    queue_table: QUEUE_TO_ACCESS_CATEGORY,
                },
                TxStatusCall::CompleteSlot { frame_node: FrameNodeAddress(pas), slot, status: 0 },
            ]
        }),
{
    let ghost before = mmio.accesses();
    let ghost calls_before = policy.calls();
    reset_pipe_status(mmio, pipe, record, initialize);
    let pas = mmio.read_u32(slot + SLOT_FRAME);
    let link = mmio.read_u8(pas.wrapping_add(0x69));
    let queue = mmio.read_u8(QUEUE_TO_ACCESS_CATEGORY + pipe as u32);
    policy.reset_status_backoff(link, queue, pas.wrapping_add(0x60), QUEUE_TO_ACCESS_CATEGORY);
    let flags = mmio.read_u32(pas.wrapping_add(0x2c));
    mmio.write_u32(pas.wrapping_add(0x2c), flags | 0x200);
    policy.complete_slot(FrameNodeAddress::new(pas), slot, 0);
    let ghost mid = mmio.accesses();
    write_status_cursor(mmio, pipe, record, cursor);
    let ghost t = trace_after(mmio.accesses(), before.len() as int);
    let ghost k: int = if initialize { 1 } else { 0 };
    assert(value_of(t[k]) == pas);
    assert(value_of(t[k + 1]) == link as u32);
    assert(value_of(t[k + 2]) == queue as u32);
    assert(value_of(t[k + 3]) == flags);
    assert(mmio.accesses() =~= before + status_complete_accesses(pipe, slot, initialize, cursor, t));
    assert(policy.calls() =~= calls_before + seq![
        TxStatusCall::ResetStatusBackoff {
            link,
            queue,
            pas_state: pas.wrapping_add(0x60),
            queue_table: QUEUE_TO_ACCESS_CATEGORY,
        },
        TxStatusCall::CompleteSlot { frame_node: FrameNodeAddress(pas), slot, status: 0 },
    ]);
}

/// Handles an ordinary TX status for the current slot of the latched pipe
/// (`MAC_CURRENT_PIPE & 3`). The pipe record and slot are published as the
/// MAC's current ones, the pipe and slot state is read, and the plan of
/// `ordinary_status_plan` is carried out: nothing more for an ineligible
/// status; otherwise the slot is marked (state 5) before anything else, a
/// suppressed status stops there, a kind-2 slot is counted and advanced,
/// and any other slot has its backoff reset, its frame node flagged, its
/// completion handed to the policy with status zero, and the pipe cursor
/// advanced or recycled.
#[verifier::spinoff_prover]
pub fn service_txp_pipe_tx_status<M: MacPipeMmio, P: TxStatusPolicy>(mmio: &mut M, status: u8, policy: &mut P)
    ensures
        ({
            let s = trace_after(final(mmio).accesses(), old(mmio).accesses().len() as int);
            &&& final(mmio).accesses() == old(mmio).accesses() + status_accesses(status, s)
            &&& final(policy).calls() == old(policy).calls() + status_calls(status, s)
        }),
{
    let ghost before = mmio.accesses();
    let ghost calls_before = policy.calls();
    let latched = mmio.read_u8(MAC_CURRENT_PIPE);
    let pipe = latched & 3;
    proof {
        lemma_pipe_bits(latched);
        lemma_pipe_bits(pipe);
        assert(((latched as u32) as u8) == latched);
    }
    let (record, slot) = publish_current_pipe_slot_pub(mmio, pipe);
    let ghost after_head = mmio.accesses();
    let input = read_status_input(mmio, pipe, record, slot);
    let ghost after_input = mmio.accesses();
    let plan = plan_ordinary_tx_pipe_status(input, status);
    proof {
        let s = trace_after(mmio.accesses(), before.len() as int);
        assert(s.skip(1).subrange(0, 3) =~= trace_after(after_head, before.len() as int + 1));
        assert(s.skip(4) =~= trace_after(mmio.accesses(), after_head.len() as int));
        assert(status_pipe(s) == pipe);
    }
    match plan {
        OrdinaryTxPipeStatusPlan::Ineligible => {
            let ghost s = trace_after(mmio.accesses(), before.len() as int);
            assert(mmio.accesses() =~= before + status_accesses(status, s));
            assert(policy.calls() =~= calls_before + status_calls(status, s));
            return;
        },
        _ => {},
    }
    mmio.write_u8(slot + SLOT_STATE, 5);
    let ghost after_mark = mmio.accesses();
    match plan {
        OrdinaryTxPipeStatusPlan::Ineligible => {},
        OrdinaryTxPipeStatusPlan::SuppressedAfterSlotMark => {},
        OrdinaryTxPipeStatusPlan::AdvanceWithoutCompletion { initialize_pipe_status, next_current } => {
            advance_status_slot(mmio, pipe, record, initialize_pipe_status, next_current);
        },
        OrdinaryTxPipeStatusPlan::Complete { initialize_pipe_status, cursor } => {
            complete_status_slot(mmio, policy, pipe, record, slot, initialize_pipe_status, cursor);
        },
    }
    let ghost s = trace_after(mmio.accesses(), before.len() as int);
    proof {
        assert(s.skip(4).subrange(0, 8) =~= trace_after(after_input, after_head.len() as int));
        assert(s.skip(13) =~= trace_after(mmio.accesses(), after_mark.len() as int));
        assert(s.subrange(0, 12) =~= trace_after(after_input, before.len() as int));
    }
    assert(mmio.accesses() =~= before + status_accesses(status, s));
    assert(policy.calls() =~= calls_before + status_calls(status, s));
}

/// Accesses of bumping the counter word at `address`, which held `value`.
pub open spec fn counter_bump(address: u32, value: u32) -> Seq<MmioAccess> {
    seq![rd32(address, value), wr32(address, value.wrapping_add(1))]
}

/// The counter that counts `status` on its own, if any.
pub open spec fn specific_status_counter(status: u8) -> Option<u32> {
    if status == 0 {
        Some(0xfff0_2e40u32)
    } else if status == 3 {
        Some(0xfff0_1a90u32)
    } else if status == 4 {
        Some(0xfff0_1a94u32)
    } else {
        None
    }
}

/// Accesses of the statistics a TX status updates before it is dispatched,
/// given the values read: the range counter for statuses 6 to 0x18, the
/// status's own counter, the total counter for statuses 3 and 4, and for
/// status 0x0e the PHY completion status sampled from the receive FIFO and,
/// while the MAC is kept awake, the beacon control's enable bit cleared.
pub open spec fn status_accounting_accesses(status: u8, s: Seq<MmioAccess>) -> Seq<MmioAccess> {
    let range = if 6 <= status < 0x19 {
        counter_bump(MAC_TX_STATUS_RANGE_COUNTER, value_of(s[0]))
    } else {
        Seq::empty()
    };
    let i = range.len() as int;
    let specific = match specific_status_counter(status) {
        Some(counter) => counter_bump(counter, value_of(s[i])),
        None => Seq::empty(),
    };
    let j = i + specific.len();
    let total = if status == 3 || status == 4 {
        counter_bump(MAC_TX_STATUS_TOTAL_COUNTER, value_of(s[j]))
    } else {
        Seq::empty()
    };
    let k = j + total.len();
    let sampled = if status == 0x0e {
        let cursor = value_of(s[k]);
        let wake = value_of(s[k + 2]);
        let head = seq![
            rd32(RX_FIFO_CLAIM_CURSOR, cursor),
            wr32(MAC_PHY_COMPLETION_STATUS, cursor),
            rd32(MAC_WAKE_CONTROL, wake),
        ];
        if wake != 0 {
            let control = value_of(s[k + 3]) & !1u32;
            head + seq![
                rd32(MAC_BEACON_CONTROL, value_of(s[k + 3])),
                wr32(MAC_BEACON_CONTROL, control),
                wr32(MAC_BEACON_CONTROL_REGISTER, control),
                wr32(MAC_BEACON_CONTROL_STATE, 1),
            ]
        } else {
            head
        }
    } else {
        Seq::empty()
    };
    range + specific + total + sampled
}

/// Policy calls of the statistics step: status 0x0e looks for a received
/// frame of subtype 0x80, which answered `found`.
pub open spec fn status_accounting_calls(status: u8, found: Option<u32>) -> Seq<TxStatusCall> {
    if status == 0x0e {
        seq![TxStatusCall::FindRxFrame { subtype: 0x80, found }]
    } else {
        Seq::empty()
    }
}

fn bump_counter<M: MacPipeMmio>(mmio: &mut M, address: u32)
    ensures
        ({
            let t = trace_after(final(mmio).accesses(), old(mmio).accesses().len() as int);
            final(mmio).accesses() == old(mmio).accesses() + counter_bump(address, value_of(t[0]))
        }),
{
    let ghost before = mmio.accesses();
    let value = mmio.read_u32(address);
    mmio.write_u32(address, value.wrapping_add(1));
    let ghost t = trace_after(mmio.accesses(), before.len() as int);
    assert(value_of(t[0]) == value);
    assert(mmio.accesses() =~= before + counter_bump(address, value));
}

fn account_tx_status<M: MacPipeMmio, P: TxStatusPolicy>(mmio: &mut M, status: u8, policy: &mut P)
    ensures
        ({
            let t = trace_after(final(mmio).accesses(), old(mmio).accesses().len() as int);
            &&& final(mmio).accesses() == old(mmio).accesses() + status_accounting_accesses(status, t)
            &&& exists|found: Option<u32>|
                #![trigger status_accounting_calls(status, found)]
                final(policy).calls() == old(policy).calls() + status_accounting_calls(status, found)
        }),
{
    let ghost before = mmio.accesses();
    let ghost calls_before = policy.calls();
    let plan = plan_mac_tx_status_accounting(status);
    if plan.increment_range_counter {
        bump_counter(mmio, MAC_TX_STATUS_RANGE_COUNTER);
    }
    let ghost after_range = mmio.accesses();
    if let Some(counter) = plan.specific_counter {
        bump_counter(mmio, counter);
    }
    let ghost after_specific = mmio.accesses();
    if plan.increment_total_counter {
        bump_counter(mmio, MAC_TX_STATUS_TOTAL_COUNTER);
    }
    let ghost after_total = mmio.accesses();
    let ghost mut found_frame: Option<u32> = None;
    if plan.service_status_0e_side_effects {
        let cursor = mmio.read_u32(RX_FIFO_CLAIM_CURSOR);
        mmio.write_u32(MAC_PHY_COMPLETION_STATUS, cursor);
        let found = policy.find_rx_frame_by_subtype(0x80);
        proof {
            found_frame = found;
        }
        let wake = mmio.read_u32(MAC_WAKE_CONTROL);
        if wake != 0 {
            let read = mmio.read_u32(MAC_BEACON_CONTROL);
            let control = read & !1;
            mmio.write_u32(MAC_BEACON_CONTROL, control);
            mmio.write_u32(MAC_BEACON_CONTROL_REGISTER, control);
            mmio.write_u32(MAC_BEACON_CONTROL_STATE, 1);
            let ghost u = trace_after(mmio.accesses(), after_total.len() as int);
            assert(value_of(u[3]) == read);
        }
        let ghost u = trace_after(mmio.accesses(), after_total.len() as int);
        assert(value_of(u[0]) == cursor);
        assert(value_of(u[2]) == wake);
    }
    proof {
        let t = trace_after(mmio.accesses(), before.len() as int);
        let ta = trace_after(after_range, before.len() as int);
        let tb = trace_after(after_specific, after_range.len() as int);
        let tc = trace_after(after_total, after_specific.len() as int);
        let td = trace_after(mmio.accesses(), after_total.len() as int);
        assert(t =~= ta + tb + tc + td);
        let i = ta.len() as int;
        let j = i + tb.len();
        let k = j + tc.len();
        if plan.increment_range_counter {
            assert(t[0] == ta[0]);
        }
        if plan.specific_counter is Some {
            assert(t[i] == tb[0]);
        }
        if plan.increment_total_counter {
            assert(t[j] == tc[0]);
        }
        if plan.service_status_0e_side_effects {
            assert(t.skip(k) =~= td);
            assert(t[k] == td[0]);
            assert(t[k + 2] == td[2]);
            if value_of(td[2]) != 0 {
                assert(t[k + 3] == td[3]);
            }
        }
        assert(mmio.accesses() =~= before + status_accounting_accesses(status, t));
        assert(policy.calls() =~= calls_before + status_accounting_calls(status, found_frame));
    }
}

proof fn lemma_status_accounting_extends(status: u8, t: Seq<MmioAccess>, e: Seq<MmioAccess>)
    requires
        status_accounting_accesses(status, t).len() <= t.len(),
    ensures
        status_accounting_accesses(status, t + e) == status_accounting_accesses(status, t),
{
    let u = t + e;
    let range: int = if 6 <= status < 0x19 {
        2
    } else {
        0
    };
    let specific: int = if specific_status_counter(status) is Some {
        2
    } else {
        0
    };
    let total: int = if status == 3 || status == 4 {
        2
    } else {
        0
    };
    let k = range + specific + total;
    if range > 0 {
        assert(u[0] == t[0]);
    }
    if specific > 0 {
        assert(u[range] == t[range]);
    }
    if total > 0 {
        assert(u[range + specific] == t[range + specific]);
    }
    if status == 0x0e {
        assert(u[k] == t[k]);
        assert(u[k + 2] == t[k + 2]);
        if value_of(t[k + 2]) != 0 {
            assert(u[k + 3] == t[k + 3]);
        }
    }
}

/// A TX status as the MAC interrupt delivers it: its statistics are
/// updated (see `status_accounting_accesses`), then it is dispatched to its
/// pipe by `service_txp_pipe_tx_status`.
pub fn service_mac_irq_tx_status_dispatch<M: MacPipeMmio, P: TxStatusPolicy>(
    mmio: &mut M,
    status: u8,
    policy: &mut P,
)
    ensures
        ({
            let s = trace_after(final(mmio).accesses(), old(mmio).accesses().len() as int);
            let accounting = status_accounting_accesses(status, s);
            let dispatched = s.skip(accounting.len() as int);
            &&& final(mmio).accesses() == old(mmio).accesses() + accounting + status_accesses(status, dispatched)
            &&& exists|found: Option<u32>|
                #![trigger status_accounting_calls(status, found)]
                final(policy).calls() == old(policy).calls() + status_accounting_calls(status, found)
                    + status_calls(status, dispatched)
        }),
{
    let ghost before = mmio.accesses();
    let ghost calls_before = policy.calls();
    account_tx_status(mmio, status, policy);
    let ghost accounted = mmio.accesses();
    let ghost calls_accounted = policy.calls();
    service_txp_pipe_tx_status(mmio, status, policy);
    proof {
        let s = trace_after(mmio.accesses(), before.len() as int);
        let ta = trace_after(accounted, before.len() as int);
        let tb = trace_after(mmio.accesses(), accounted.len() as int);
        assert(s =~= ta + tb);
        lemma_status_accounting_extends(status, ta, tb);
        assert(s.skip(ta.len() as int) =~= tb);
        let found = choose|found: Option<u32>|
            calls_accounted == calls_before + #[trigger] status_accounting_calls(status, found);
        assert(policy.calls() =~= calls_before + status_accounting_calls(status, found) + status_calls(status, tb));
    }
}

} // verus!
