//! What follows a completed aggregate: its link state is settled and, when
//! the aggregate succeeded, the BlockAck that answered it is matched to the
//! aggregate's pipe and its bitmap handed on.

use vstd::prelude::*;

use crate::completion_enqueue::{raise_accesses, raise_scheduler_bits, COMPLETION_PENDING_EVENT};
use crate::context_return::{lmc_vif_address, VIF_RECORDS, VIF_RECORD_SIZE};
use crate::mmio::{rd16, rd32, rd8, trace_after, value_of, wr16, wr32, MacPipeMmio, MmioAccess};
use crate::registers::{MAC_CURRENT_PIPE_RECORD, PAS_CONTENTION_WINDOWS, PAS_STRIDE, PIPE_CURRENT, PIPE_LAST};
use crate::slot_completion::{
    count_down_accesses, count_down_active, PipeSlotCompletionEffects, SlotCompletionCall,
    SlotCompletionOutcome, LINK_STATE_FAILED,
};

verus! {

/// Frame subtype of a BlockAck.
pub const BLOCK_ACK_SUBTYPE: u8 = 0x94;

/// Offset of an interface's own MAC address in its PAS record.
pub const PAS_OWN_MAC: u32 = 0x20;

/// Offset of the flags word of a virtual-interface record; bit 2 has the
/// peer found by its address.
pub const VIF_FLAGS: u32 = 0x1c;

/// Flag of a virtual interface whose peers are found by address.
pub const VIF_PEER_BY_ADDRESS: u32 = 4;

/// Number of interfaces a BlockAck's receiver address is compared with.
pub const ANSWER_INTERFACES: u32 = 2;

/// Count of BlockAcks taken after an aggregate.
pub const BA_RESPONSE_COUNTER: u32 = 0xfff0_2e48;

/// Per-pipe BlockAck state records.
pub const BA_PIPE_STATE: u32 = 0x0400_2400;

/// Size of one BlockAck state record.
pub const BA_PIPE_STATE_SIZE: u32 = 0x10;

/// Activity byte of a BlockAck state record.
pub const BA_ACTIVITY: u32 = 0;

/// Starting sequence number of the last bitmap (halfword).
pub const BA_SEQUENCE: u32 = 2;

/// Low word of the last bitmap.
pub const BA_BITMAP_LOW: u32 = 4;

/// High word of the last bitmap.
pub const BA_BITMAP_HIGH: u32 = 8;

/// A pipe whose activity is above this takes the BlockAck's bitmap.
pub const BA_ACTIVE_THRESHOLD: u8 = 4;

/// Field `field` of pipe `pipe`'s BlockAck state.
pub open spec fn ba_field(pipe: nat, field: u32) -> u32 {
    (BA_PIPE_STATE + pipe * BA_PIPE_STATE_SIZE + field) as u32
}

fn ba_field_address(pipe: u8, field: u32) -> (address: u32)
    requires
        pipe < 8,
        field <= BA_BITMAP_HIGH,
    ensures
        address == ba_field(pipe as nat, field),
{
    BA_PIPE_STATE + pipe as u32 * BA_PIPE_STATE_SIZE + field
}

/// Own MAC address of `interface`.
pub open spec fn own_mac_of(interface: nat) -> u32 {
    (PAS_CONTENTION_WINDOWS + interface * PAS_STRIDE + PAS_OWN_MAC) as u32
}

fn own_mac_address(interface: u32) -> (address: u32)
    requires
        interface < ANSWER_INTERFACES,
    ensures
        address == own_mac_of(interface as nat),
{
    PAS_CONTENTION_WINDOWS + interface * PAS_STRIDE + PAS_OWN_MAC
}

/// Accesses of comparing a frame's receiver address with `interface`'s own
/// address, halfword by halfword, up to the first difference.
pub open spec fn own_mac_compare(frame: u32, interface: nat, s: Seq<MmioAccess>) -> Seq<MmioAccess> {
    let own = own_mac_of(interface);
    let first = seq![rd16(frame.wrapping_add(4), value_of(s[0])), rd16(own, value_of(s[1]))];
    let second = seq![rd16(frame.wrapping_add(6), value_of(s[2])), rd16((own + 2) as u32, value_of(s[3]))];
    let third = seq![rd16(frame.wrapping_add(8), value_of(s[4])), rd16((own + 4) as u32, value_of(s[5]))];
    if value_of(s[0]) != value_of(s[1]) {
        first
    } else if value_of(s[2]) != value_of(s[3]) {
        first + second
    } else {
        first + second + third
    }
}

/// Whether the three halfwords compared were equal.
pub open spec fn own_mac_equal(s: Seq<MmioAccess>) -> bool {
    &&& value_of(s[0]) == value_of(s[1])
    &&& value_of(s[2]) == value_of(s[3])
    &&& value_of(s[4]) == value_of(s[5])
}

fn own_mac_matches<M: MacPipeMmio>(mmio: &mut M, frame: u32, interface: u32) -> (matched: bool)
    requires
        interface < ANSWER_INTERFACES,
    ensures
        ({
            let t = trace_after(final(mmio).accesses(), old(mmio).accesses().len() as int);
            &&& final(mmio).accesses() == old(mmio).accesses() + own_mac_compare(frame, interface as nat, t)
            &&& matched == own_mac_equal(t)
        }),
{
    let ghost before = mmio.accesses();
    let own = own_mac_address(interface);
    let a = mmio.read_u16(frame.wrapping_add(4));
    let b = mmio.read_u16(own);
    if a != b {
        let ghost t = trace_after(mmio.accesses(), before.len() as int);
        assert(value_of(t[0]) == a as u32 && value_of(t[1]) == b as u32);
        assert(mmio.accesses() =~= before + own_mac_compare(frame, interface as nat, t));
        return false;
    }
    let c = mmio.read_u16(frame.wrapping_add(6));
    let d = mmio.read_u16(own + 2);
    if c != d {
        let ghost t = trace_after(mmio.accesses(), before.len() as int);
        assert(value_of(t[0]) == a as u32 && value_of(t[1]) == b as u32);
        assert(value_of(t[2]) == c as u32 && value_of(t[3]) == d as u32);
        assert(mmio.accesses() =~= before + own_mac_compare(frame, interface as nat, t));
        return false;
    }
    let e = mmio.read_u16(frame.wrapping_add(8));
    let f = mmio.read_u16(own + 4);
    let ghost t = trace_after(mmio.accesses(), before.len() as int);
    assert(value_of(t[0]) == a as u32 && value_of(t[1]) == b as u32);
    assert(value_of(t[2]) == c as u32 && value_of(t[3]) == d as u32);
    assert(value_of(t[4]) == e as u32 && value_of(t[5]) == f as u32);
    assert(mmio.accesses() =~= before + own_mac_compare(frame, interface as nat, t));
    e == f
}

/// The pipe a `FindTxPipe` call answered, 8 when the first call is not one.
pub open spec fn pipe_answer(c: Seq<SlotCompletionCall>) -> u8 {
    if c.len() > 0 && c[0] is FindTxPipe {
        c[0]->FindTxPipe_pipe
    } else {
        8
    }
}

/// Matching a BlockAck at `frame` with the interfaces from `interface` on,
/// given the values read and the calls made: the accesses, the calls, and
/// the pipe found (8 when no interface's address matched).
pub open spec fn select_from(frame: u32, interface: nat, s: Seq<MmioAccess>, c: Seq<SlotCompletionCall>) -> (
    Seq<MmioAccess>,
    Seq<SlotCompletionCall>,
    u8,
)
    decreases ANSWER_INTERFACES - interface,
{
    if interface >= ANSWER_INTERFACES {
        (Seq::empty(), Seq::empty(), 8)
    } else {
        let m = own_mac_compare(frame, interface, s);
        if own_mac_equal(s) {
            let flags = value_of(s[6]);
            let qos = value_of(s[7]);
            let vif = (VIF_RECORDS + interface * VIF_RECORD_SIZE) as u32;
            let mac = if flags & VIF_PEER_BY_ADDRESS != 0 {
                Some(frame.wrapping_add(10))
            } else {
                None
            };
            let tid = ((qos as u16) >> 12u16) as u8;
            let pipe = pipe_answer(c);
            (
                m + seq![rd32((vif + VIF_FLAGS) as u32, flags), rd16(frame.wrapping_add(0x10), qos)],
                seq![SlotCompletionCall::FindTxPipe { interface: interface as u8, tid, mac, pipe }],
                pipe,
            )
        } else {
            let rest = select_from(frame, interface + 1, s.skip(m.len() as int), c);
            (m + rest.0, rest.1, rest.2)
        }
    }
}

fn select_pipe<M: MacPipeMmio, B: PipeSlotCompletionEffects>(
    mmio: &mut M,
    backend: &mut B,
    frame: u32,
    interface: u32,
) -> (pipe: u8)
    requires
        interface <= ANSWER_INTERFACES,
    ensures
        ({
            let t = trace_after(final(mmio).accesses(), old(mmio).accesses().len() as int);
            let c = final(backend).calls().skip(old(backend).calls().len() as int);
            let step = select_from(frame, interface as nat, t, c);
            &&& final(mmio).accesses() == old(mmio).accesses() + step.0
            &&& final(backend).calls() == old(backend).calls() + step.1
            &&& pipe == step.2
        }),
    decreases ANSWER_INTERFACES - interface,
{
    let ghost before = mmio.accesses();
    let ghost calls_before = backend.calls();
    if interface >= ANSWER_INTERFACES {
        assert(mmio.accesses() =~= before + Seq::empty());
        assert(backend.calls() =~= calls_before + Seq::empty());
        return 8;
    }
    let matched = own_mac_matches(mmio, frame, interface);
    let ghost compared = mmio.accesses();
    if matched {
        let vif = lmc_vif_address(interface as usize);
        let flags = mmio.read_u32(vif + VIF_FLAGS);
        let qos = mmio.read_u16(frame.wrapping_add(0x10));
        let mac = if flags & VIF_PEER_BY_ADDRESS != 0 {
            Some(frame.wrapping_add(10))
        } else {
            None
        };
        let tid = (qos >> 12u16) as u8;
        let pipe = backend.find_tx_pipe_by_mac_tid(interface as u8, tid, mac);
        proof {
            let t = trace_after(mmio.accesses(), before.len() as int);
            let tm = trace_after(compared, before.len() as int);
            assert(t.subrange(0, tm.len() as int) =~= tm);
            assert(own_mac_compare(frame, interface as nat, t) == own_mac_compare(frame, interface as nat, tm));
            assert(tm.len() == 6);
            assert(value_of(t[6]) == flags);
            assert(value_of(t[7]) == qos as u32);
            let c = backend.calls().skip(calls_before.len() as int);
            assert(c[0] == backend.calls()[calls_before.len() as int]);
            assert(pipe_answer(c) == pipe);
            assert(mmio.accesses() =~= before + select_from(frame, interface as nat, t, c).0);
            assert(backend.calls() =~= calls_before + select_from(frame, interface as nat, t, c).1);
        }
        return pipe;
    }
    let pipe = select_pipe(mmio, backend, frame, interface + 1);
    proof {
        let t = trace_after(mmio.accesses(), before.len() as int);
        let tm = trace_after(compared, before.len() as int);
        let tr = trace_after(mmio.accesses(), compared.len() as int);
        assert(t =~= tm + tr);
        let m = own_mac_compare(frame, interface as nat, tm);
        assert(m.len() == tm.len());
        assert forall|i: int| 0 <= i < tm.len() implies t[i] == tm[i] by {}
        assert(own_mac_compare(frame, interface as nat, t) == m);
        assert(t.skip(m.len() as int) =~= tr);
        let c = backend.calls().skip(calls_before.len() as int);
        assert(mmio.accesses() =~= before + select_from(frame, interface as nat, t, c).0);
    }
    pipe
}

/// Matching a BlockAck depends only on its own reads and calls.
proof fn lemma_select_extends(
    frame: u32,
    interface: nat,
    t: Seq<MmioAccess>,
    e: Seq<MmioAccess>,
    c: Seq<SlotCompletionCall>,
    d: Seq<SlotCompletionCall>,
)
    requires
        select_from(frame, interface, t, c).0.len() <= t.len(),
        select_from(frame, interface, t, c).1 == c,
    ensures
        select_from(frame, interface, t + e, c + d) == select_from(frame, interface, t, c),
    decreases ANSWER_INTERFACES - interface,
{
    if interface < ANSWER_INTERFACES {
        let u = t + e;
        let m = own_mac_compare(frame, interface, t);
        assert(u[0] == t[0] && u[1] == t[1]);
        if value_of(t[0]) == value_of(t[1]) {
            assert(u[2] == t[2] && u[3] == t[3]);
            if value_of(t[2]) == value_of(t[3]) {
                assert(u[4] == t[4] && u[5] == t[5]);
            }
        }
        assert(own_mac_compare(frame, interface, u) == m);
        if own_mac_equal(t) {
            assert(u[6] == t[6] && u[7] == t[7]);
            assert((c + d)[0] == c[0]);
        } else {
            assert(u.skip(m.len() as int) =~= t.skip(m.len() as int) + e);
            lemma_select_extends(frame, interface + 1, t.skip(m.len() as int), e, c, d);
        }
    }
}

/// Taking the BlockAck at `frame` after an aggregate on `link`, given the
/// values read and the calls made: the BlockAck is matched to a pipe and
/// counted; when that pipe is the aggregate's, an active pipe takes its
/// bitmap and starting sequence and has the bitmap processed, and the frame
/// is counted off; an aggregate on a link out of range is reported; any
/// other aggregate's link is failed, the completion-pending event raised,
/// and the frame counted off.
pub open spec fn answer_step(frame: u32, link: u8, s: Seq<MmioAccess>, c: Seq<SlotCompletionCall>) -> (
    Seq<MmioAccess>,
    Seq<SlotCompletionCall>,
    SlotCompletionOutcome,
) {
    let sel = select_from(frame, 0, s, c);
    let l = sel.0.len() as int;
    let count = value_of(s[l]);
    let counted = sel.0 + seq![rd32(BA_RESPONSE_COUNTER, count), wr32(BA_RESPONSE_COUNTER, count.wrapping_add(1))];
    let pipe = sel.2;
    let r = s.skip(l + 2);
    if pipe < 8 && pipe == link {
        let activity = value_of(r[0]);
        let read_activity = seq![rd8(ba_field(pipe as nat, BA_ACTIVITY), activity)];
        if activity > BA_ACTIVE_THRESHOLD {
            let low = value_of(r[1]);
            let high = value_of(r[3]);
            let sequence = value_of(r[5]);
            (
                counted + read_activity + seq![
                    rd32(frame.wrapping_add(0x14), low),
                    wr32(ba_field(pipe as nat, BA_BITMAP_LOW), low),
                    rd32(frame.wrapping_add(0x18), high),
                    wr32(ba_field(pipe as nat, BA_BITMAP_HIGH), high),
                    rd16(frame.wrapping_add(0x12), sequence),
                    wr16(ba_field(pipe as nat, BA_SEQUENCE), ((sequence as u16) >> 4u16) as u32),
                ] + count_down_accesses(value_of(r[7])),
                sel.1.push(SlotCompletionCall::ProcessBaBitmap { pipe }),
                SlotCompletionOutcome::Completed,
            )
        } else {
            (
                counted + read_activity + count_down_accesses(value_of(r[1])),
                sel.1,
                SlotCompletionOutcome::Completed,
            )
        }
    } else if link > 7 {
        (counted, sel.1.push(SlotCompletionCall::InvalidLink), SlotCompletionOutcome::InvalidLink)
    } else {
        (
            counted + raise_accesses(value_of(r[0]), COMPLETION_PENDING_EVENT) + count_down_accesses(value_of(r[2])),
            sel.1.push(SlotCompletionCall::LinkSetState { link, state: LINK_STATE_FAILED }),
            SlotCompletionOutcome::Completed,
        )
    }
}

#[verifier::spinoff_prover]
#[verifier::rlimit(80)]
fn take_block_ack<M: MacPipeMmio, B: PipeSlotCompletionEffects>(
    mmio: &mut M,
    backend: &mut B,
    frame: u32,
    link: u8,
) -> (outcome: SlotCompletionOutcome)
    ensures
        ({
            let t = trace_after(final(mmio).accesses(), old(mmio).accesses().len() as int);
            let c = final(backend).calls().skip(old(backend).calls().len() as int);
            let step = answer_step(frame, link, t, c);
            &&& final(mmio).accesses() == old(mmio).accesses() + step.0
            &&& final(backend).calls() == old(backend).calls() + step.1
            &&& outcome == step.2
        }),
{
    let ghost before = mmio.accesses();
    let ghost calls_before = backend.calls();
    let pipe = select_pipe(mmio, backend, frame, 0);
    let ghost sel_end = mmio.accesses();
    let ghost sel_calls = backend.calls();
    let count = mmio.read_u32(BA_RESPONSE_COUNTER);
    mmio.write_u32(BA_RESPONSE_COUNTER, count.wrapping_add(1));
    let ghost counted = mmio.accesses();
    let outcome;
    if pipe < 8 && pipe == link {
        let activity = mmio.read_u8(ba_field_address(pipe, BA_ACTIVITY));
        let mut low: u32 = 0;
        let mut high: u32 = 0;
        let mut sequence: u16 = 0;
        if activity > BA_ACTIVE_THRESHOLD {
            low = mmio.read_u32(frame.wrapping_add(0x14));
            mmio.write_u32(ba_field_address(pipe, BA_BITMAP_LOW), low);
            high = mmio.read_u32(frame.wrapping_add(0x18));
            mmio.write_u32(ba_field_address(pipe, BA_BITMAP_HIGH), high);
            sequence = mmio.read_u16(frame.wrapping_add(0x12));
            mmio.write_u16(ba_field_address(pipe, BA_SEQUENCE), sequence >> 4u16);
            backend.process_ba_bitmap(pipe);
        }
        let ghost before_count_down = mmio.accesses();
        count_down_active(mmio);
        proof {
            let r = trace_after(mmio.accesses(), counted.len() as int);
            let d = trace_after(mmio.accesses(), before_count_down.len() as int);
            assert(value_of(r[0]) == activity as u32);
            if activity > BA_ACTIVE_THRESHOLD {
                assert(value_of(r[1]) == low);
                assert(value_of(r[3]) == high);
                assert(value_of(r[5]) == sequence as u32);
                assert(r[7] == d[0]);
            } else {
                assert(r[1] == d[0]);
            }
        }
        outcome = SlotCompletionOutcome::Completed;
    } else if link > 7 {
        backend.invalid_link_assertion();
        outcome = SlotCompletionOutcome::InvalidLink;
    } else {
        backend.link_set_state(link, LINK_STATE_FAILED);
        let ghost before_raise = mmio.accesses();
        raise_scheduler_bits(mmio, COMPLETION_PENDING_EVENT);
        let ghost before_count_down = mmio.accesses();
        count_down_active(mmio);
        proof {
            let r = trace_after(mmio.accesses(), counted.len() as int);
            let a = trace_after(before_count_down, before_raise.len() as int);
            let d = trace_after(mmio.accesses(), before_count_down.len() as int);
            assert(r[0] == a[0]);
            assert(r[2] == d[0]);
        }
        outcome = SlotCompletionOutcome::Completed;
    }
    proof {
        let t = trace_after(mmio.accesses(), before.len() as int);
        let tsel = trace_after(sel_end, before.len() as int);
        let trest = trace_after(mmio.accesses(), sel_end.len() as int);
        assert(t =~= tsel + trest);
        let c = backend.calls().skip(calls_before.len() as int);
        let csel = sel_calls.skip(calls_before.len() as int);
        let crest = backend.calls().skip(sel_calls.len() as int);
        assert(c =~= csel + crest);
        assert(sel_end =~= before + select_from(frame, 0, tsel, csel).0);
        assert(csel =~= select_from(frame, 0, tsel, csel).1);
        lemma_select_extends(frame, 0, tsel, trest, csel, crest);
        assert(t.skip(tsel.len() as int) =~= trest);
        assert(value_of(trest[0]) == count);
        assert(t.skip(tsel.len() as int + 2) =~= trace_after(mmio.accesses(), counted.len() as int));
        assert(mmio.accesses() =~= before + answer_step(frame, link, t, c).0);
        assert(backend.calls() =~= calls_before + answer_step(frame, link, t, c).1);
    }
    outcome
}

/// Settling an aggregate on `link` that no BlockAck answered, given the
/// values read: when the serviced pipe has no slot left beyond the current
/// one and the link is in range, the link's bitmap is cleared, the link
/// failed and the completion-pending event raised; the frame is counted off
/// either way.
pub open spec fn unanswered_step(link: u8, s: Seq<MmioAccess>) -> (Seq<MmioAccess>, Seq<SlotCompletionCall>) {
    let record = value_of(s[0]);
    let current = value_of(s[1]);
    let last = value_of(s[2]);
    let head = seq![
        rd32(MAC_CURRENT_PIPE_RECORD, record),
        rd8(record.wrapping_add(PIPE_CURRENT), current),
        rd8(record.wrapping_add(PIPE_LAST), last),
    ];
    if current == last && link < 8 {
        (
            head + seq![wr32(ba_field(link as nat, BA_BITMAP_LOW), 0), wr32(ba_field(link as nat, BA_BITMAP_HIGH), 0)]
                + raise_accesses(value_of(s[5]), COMPLETION_PENDING_EVENT) + count_down_accesses(value_of(s[7])),
            seq![SlotCompletionCall::LinkSetState { link, state: LINK_STATE_FAILED }],
        )
    } else {
        (head + count_down_accesses(value_of(s[3])), Seq::empty())
    }
}

fn settle_unanswered<M: MacPipeMmio, B: PipeSlotCompletionEffects>(mmio: &mut M, backend: &mut B, link: u8)
    ensures
        ({
            let t = trace_after(final(mmio).accesses(), old(mmio).accesses().len() as int);
            let step = unanswered_step(link, t);
            &&& final(mmio).accesses() == old(mmio).accesses() + step.0
            &&& final(backend).calls() == old(backend).calls() + step.1
        }),
{
    let ghost before = mmio.accesses();
    let ghost calls_before = backend.calls();
    let record = mmio.read_u32(MAC_CURRENT_PIPE_RECORD);
    let current = mmio.read_u8(record.wrapping_add(PIPE_CURRENT));
    let last = mmio.read_u8(record.wrapping_add(PIPE_LAST));
    let ghost head = mmio.accesses();
    if current == last && link < 8 {
        mmio.write_u32(ba_field_address(link, BA_BITMAP_LOW), 0);
        mmio.write_u32(ba_field_address(link, BA_BITMAP_HIGH), 0);
        backend.link_set_state(link, LINK_STATE_FAILED);
        let ghost before_raise = mmio.accesses();
        raise_scheduler_bits(mmio, COMPLETION_PENDING_EVENT);
        let ghost before_count_down = mmio.accesses();
        count_down_active(mmio);
        proof {
            let t = trace_after(mmio.accesses(), before.len() as int);
            let a = trace_after(before_count_down, before_raise.len() as int);
            let d = trace_after(mmio.accesses(), before_count_down.len() as int);
            assert(t[5] == a[0]);
            assert(t[7] == d[0]);
        }
    } else {
        let ghost before_count_down = mmio.accesses();
        count_down_active(mmio);
        proof {
            let t = trace_after(mmio.accesses(), before.len() as int);
            let d = trace_after(mmio.accesses(), before_count_down.len() as int);
            assert(t[3] == d[0]);
        }
    }
    proof {
        let t = trace_after(mmio.accesses(), before.len() as int);
        assert(value_of(t[0]) == record);
        assert(value_of(t[1]) == current as u32);
        assert(value_of(t[2]) == last as u32);
        assert(mmio.accesses() =~= before + unanswered_step(link, t).0);
        assert(backend.calls() =~= calls_before + unanswered_step(link, t).1);
    }
}

/// What a `FindRxFrame` call answered, `None` when the first call is not one.
pub open spec fn found_answer(c: Seq<SlotCompletionCall>) -> Option<u32> {
    if c.len() > 0 && c[0] is FindRxFrame {
        c[0]->FindRxFrame_found
    } else {
        None
    }
}

/// The end of an aggregate's completion on `link`, given the values read and
/// the calls made: a link in range is set to `final_state`; a failed
/// aggregate raises the completion-pending event and is counted off; any
/// other looks for a BlockAck, takes the one found, or settles without one.
pub open spec fn epilogue_step(link: u8, final_state: u8, s: Seq<MmioAccess>, c: Seq<SlotCompletionCall>) -> (
    Seq<MmioAccess>,
    Seq<SlotCompletionCall>,
    SlotCompletionOutcome,
) {
    let set = if link < 8 {
        seq![SlotCompletionCall::LinkSetState { link, state: final_state }]
    } else {
        Seq::empty()
    };
    if final_state == LINK_STATE_FAILED {
        (
            raise_accesses(value_of(s[0]), COMPLETION_PENDING_EVENT) + count_down_accesses(value_of(s[2])),
            set,
            SlotCompletionOutcome::Completed,
        )
    } else {
        let rest = c.skip(set.len() as int);
        let found = found_answer(rest);
        let find = set.push(SlotCompletionCall::FindRxFrame { subtype: BLOCK_ACK_SUBTYPE, found });
        match found {
            Some(frame) => {
                let answer = answer_step(frame, link, s, rest.skip(1));
                (answer.0, find + answer.1, answer.2)
            },
            None => {
                let settled = unanswered_step(link, s);
                (settled.0, find + settled.1, SlotCompletionOutcome::Completed)
            },
        }
    }
}

pub(crate) fn finish_aggregate<M: MacPipeMmio, B: PipeSlotCompletionEffects>(
    mmio: &mut M,
    backend: &mut B,
    link: u8,
    final_state: u8,
) -> (outcome: SlotCompletionOutcome)
    ensures
        ({
            let t = trace_after(final(mmio).accesses(), old(mmio).accesses().len() as int);
            let c = final(backend).calls().skip(old(backend).calls().len() as int);
            let step = epilogue_step(link, final_state, t, c);
            &&& final(mmio).accesses() == old(mmio).accesses() + step.0
            &&& final(backend).calls() == old(backend).calls() + step.1
            &&& outcome == step.2
        }),
{
    let ghost before = mmio.accesses();
    let ghost calls_before = backend.calls();
    if link < 8 {
        backend.link_set_state(link, final_state);
    }
    let ghost set_calls = backend.calls();
    if final_state == LINK_STATE_FAILED {
        raise_scheduler_bits(mmio, COMPLETION_PENDING_EVENT);
        let ghost before_count_down = mmio.accesses();
        count_down_active(mmio);
        proof {
            let t = trace_after(mmio.accesses(), before.len() as int);
            let d = trace_after(mmio.accesses(), before_count_down.len() as int);
            assert(t[2] == d[0]);
            assert(mmio.accesses() =~= before + epilogue_step(link, final_state, t, backend.calls().skip(
                calls_before.len() as int,
            )).0);
            assert(backend.calls() =~= calls_before + epilogue_step(link, final_state, t, backend.calls().skip(
                calls_before.len() as int,
            )).1);
        }
        return SlotCompletionOutcome::Completed;
    }
    let found = backend.find_rx_frame_by_subtype(BLOCK_ACK_SUBTYPE);
    let ghost find_calls = backend.calls();
    let outcome = match found {
        Some(frame) => take_block_ack(mmio, backend, frame, link),
        None => {
            settle_unanswered(mmio, backend, link);
            SlotCompletionOutcome::Completed
        },
    };
    proof {
        let t = trace_after(mmio.accesses(), before.len() as int);
        let c = backend.calls().skip(calls_before.len() as int);
        let k = set_calls.len() - calls_before.len();
        let rest = c.skip(k);
        assert(rest[0] == find_calls[set_calls.len() as int]);
        assert(found_answer(rest) == found);
        assert(rest.skip(1) =~= backend.calls().skip(find_calls.len() as int));
        assert(mmio.accesses() =~= before + epilogue_step(link, final_state, t, c).0);
        assert(backend.calls() =~= calls_before + epilogue_step(link, final_state, t, c).1);
    }
    outcome
}

} // verus!
