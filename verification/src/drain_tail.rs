//! The empty-FIFO drain tail: once the event FIFO has been drained, a
//! pending drain request (bit 1 of the retry hardware state) is answered
//! when the MAC hardware or every pipe record is idle.

use vstd::prelude::*;

use crate::mmio::{rd32, rd8, trace_after, value_of, wr32, wr8, MacPipeMmio, MmioAccess};
use crate::plans::mac_drain_tail_transition;
use crate::registers::{
    lemma_pipe_bits, pipe_record_address, pipe_record_of, MAC_PENDING_STATUSES, MAC_QUEUED_FRAMES,
    MAC_RETRY_HARDWARE_STATE, MAC_SEQUENCER_STATE, PIPE_STATE, SCHEDULER_PENDING_EVENTS,
};

verus! {

/// Scheduler event raised when the drain tail has answered a request.
pub const DRAIN_COMPLETE_EVENT: u32 = 0x8000_0000;

/// Accesses of `mac_hardware_idle`, given the values read: it stops at the
/// first register that shows activity.
pub open spec fn hardware_idle_accesses(s: Seq<MmioAccess>) -> Seq<MmioAccess> {
    let sequencer = value_of(s[0]);
    let first = seq![rd32(MAC_SEQUENCER_STATE, sequencer)];
    if (sequencer >> 8) & 0x1f == 0x12 {
        first
    } else {
        let queued = value_of(s[1]);
        let second = first.push(rd32(MAC_QUEUED_FRAMES, queued));
        if (queued >> 4) & 0xff != 0 {
            second
        } else {
            second.push(rd32(MAC_PENDING_STATUSES, value_of(s[2])))
        }
    }
}

/// The MAC hardware is idle: no transmission on air, no queued frame and no
/// undelivered status.
pub open spec fn hardware_idle_result(s: Seq<MmioAccess>) -> bool {
    &&& (value_of(s[0]) >> 8) & 0x1f != 0x12
    &&& (value_of(s[1]) >> 4) & 0xff == 0
    &&& (value_of(s[2]) >> 24) & 0x1f == 0
}

/// Reads the MAC registers and says whether the hardware is idle.
pub fn mac_hardware_idle<M: MacPipeMmio>(mmio: &mut M) -> (idle: bool)
    ensures
        ({
            let s = trace_after(final(mmio).accesses(), old(mmio).accesses().len() as int);
            &&& final(mmio).accesses() == old(mmio).accesses() + hardware_idle_accesses(s)
            &&& idle == hardware_idle_result(s)
        }),
{
    let ghost before = mmio.accesses();
    let sequencer = mmio.read_u32(MAC_SEQUENCER_STATE);
    if (sequencer >> 8) & 0x1f == 0x12 {
        let ghost s = trace_after(mmio.accesses(), before.len() as int);
        assert(value_of(s[0]) == sequencer);
        assert(mmio.accesses() =~= before + hardware_idle_accesses(s));
        return false;
    }
    let queued = mmio.read_u32(MAC_QUEUED_FRAMES);
    if (queued >> 4) & 0xff != 0 {
        let ghost s = trace_after(mmio.accesses(), before.len() as int);
        assert(value_of(s[0]) == sequencer);
        assert(value_of(s[1]) == queued);
        assert(mmio.accesses() =~= before + hardware_idle_accesses(s));
        return false;
    }
    let statuses = mmio.read_u32(MAC_PENDING_STATUSES);
    let ghost s = trace_after(mmio.accesses(), before.len() as int);
    assert(value_of(s[0]) == sequencer);
    assert(value_of(s[1]) == queued);
    assert(value_of(s[2]) == statuses);
    assert(mmio.accesses() =~= before + hardware_idle_accesses(s));
    (statuses >> 24) & 0x1f == 0
}

/// Accesses and result of checking the state bytes of pipes `pipe` to 3,
/// given the values read: it stops at the first pipe that is not idle.
pub open spec fn records_idle_from(pipe: u8, s: Seq<MmioAccess>) -> (Seq<MmioAccess>, bool)
    decreases 4 - pipe,
{
    if pipe >= 4 {
        (Seq::empty(), true)
    } else {
        let state = value_of(s[0]);
        let read = seq![rd8((pipe_record_of(pipe as int) + PIPE_STATE) as u32, state)];
        if state != 0 {
            (read, false)
        } else {
            let rest = records_idle_from((pipe + 1) as u8, s.skip(1));
            (read + rest.0, rest.1)
        }
    }
}

fn records_idle_from_pipe<M: MacPipeMmio>(mmio: &mut M, pipe: u8) -> (idle: bool)
    requires
        pipe <= 4,
    ensures
        ({
            let s = trace_after(final(mmio).accesses(), old(mmio).accesses().len() as int);
            &&& final(mmio).accesses() == old(mmio).accesses() + records_idle_from(pipe, s).0
            &&& idle == records_idle_from(pipe, s).1
        }),
    decreases 4 - pipe,
{
    let ghost before = mmio.accesses();
    if pipe >= 4 {
        assert(mmio.accesses() =~= before + Seq::empty());
        return true;
    }
    proof {
        lemma_pipe_bits(pipe);
    }
    let state = mmio.read_u8(pipe_record_address(pipe) + PIPE_STATE);
    let ghost mid = mmio.accesses();
    if state != 0 {
        let ghost s = trace_after(mmio.accesses(), before.len() as int);
        assert(value_of(s[0]) == state as u32);
        assert(mmio.accesses() =~= before + records_idle_from(pipe, s).0);
        return false;
    }
    let idle = records_idle_from_pipe(mmio, pipe + 1);
    proof {
        let s = trace_after(mmio.accesses(), before.len() as int);
        assert(value_of(s[0]) == state as u32);
        assert(s.skip(1) =~= trace_after(mmio.accesses(), mid.len() as int));
        assert(mmio.accesses() =~= before + records_idle_from(pipe, s).0);
    }
    idle
}

/// Reads the state byte of each pipe record, stopping at the first one that
/// is not idle, and says whether all four are idle.
pub fn mac_pipe_records_idle<M: MacPipeMmio>(mmio: &mut M) -> (idle: bool)
    ensures
        ({
            let s = trace_after(final(mmio).accesses(), old(mmio).accesses().len() as int);
            &&& final(mmio).accesses() == old(mmio).accesses() + records_idle_from(0, s).0
            &&& idle == records_idle_from(0, s).1
        }),
{
    records_idle_from_pipe(mmio, 0)
}

proof fn lemma_hardware_idle_extends(t: Seq<MmioAccess>, e: Seq<MmioAccess>)
    requires
        hardware_idle_accesses(t).len() <= t.len(),
    ensures
        hardware_idle_accesses(t + e) == hardware_idle_accesses(t),
        hardware_idle_result(t + e) == hardware_idle_result(t),
{
    let u = t + e;
    assert(u[0] == t[0]);
    if (value_of(t[0]) >> 8) & 0x1f != 0x12 {
        assert(u[1] == t[1]);
        if (value_of(t[1]) >> 4) & 0xff == 0 {
            assert(u[2] == t[2]);
        }
    }
}

proof fn lemma_records_idle_extends(pipe: u8, t: Seq<MmioAccess>, e: Seq<MmioAccess>)
    requires
        records_idle_from(pipe, t).0.len() <= t.len(),
    ensures
        records_idle_from(pipe, t + e) == records_idle_from(pipe, t),
    decreases 4 - pipe,
{
    if pipe < 4 {
        let u = t + e;
        assert(u[0] == t[0]);
        if value_of(t[0]) == 0 {
            assert(u.skip(1) =~= t.skip(1) + e);
            lemma_records_idle_extends((pipe + 1) as u8, t.skip(1), e);
        }
    }
}

/// Accesses of the drain tail, given the values read: the request byte, the
/// hardware-idle and pipe-idle checks, and, when the request is answered,
/// the updated request byte and the drain-complete scheduler event.
pub open spec fn drain_tail_accesses(s: Seq<MmioAccess>) -> Seq<MmioAccess> {
    let control = value_of(s[0]) as u8;
    let hardware = s.skip(1);
    let h = hardware_idle_accesses(hardware);
    let records = records_idle_from(0, s.skip(1 + h.len() as int));
    let head = seq![rd8(MAC_RETRY_HARDWARE_STATE, value_of(s[0]))] + h + records.0;
    if control & 2 != 0 && (hardware_idle_result(hardware) || records.1) {
        let pending = value_of(s[(2 + h.len() + records.0.len()) as int]);
        head + seq![
            wr8(MAC_RETRY_HARDWARE_STATE, (((control & 0xfd) | 4) as u8) as u32),
            rd32(SCHEDULER_PENDING_EVENTS, pending),
            wr32(SCHEDULER_PENDING_EVENTS, pending | DRAIN_COMPLETE_EVENT),
        ]
    } else {
        head
    }
}

/// Runs the drain tail: when the drain request (bit 1 of the retry hardware
/// state) is set and the MAC hardware or every pipe record is idle, clears
/// the request, sets bit 2, and raises the drain-complete scheduler event.
/// Both idle checks are made whatever the request byte holds.
pub fn service_mac_event_drain_tail<M: MacPipeMmio>(mmio: &mut M)
    ensures
        final(mmio).accesses() == old(mmio).accesses() + drain_tail_accesses(
            trace_after(final(mmio).accesses(), old(mmio).accesses().len() as int),
        ),
{
    let ghost before = mmio.accesses();
    let control = mmio.read_u8(MAC_RETRY_HARDWARE_STATE);
    let ghost after_control = mmio.accesses();
    let hardware_idle = mac_hardware_idle(mmio);
    let ghost after_hardware = mmio.accesses();
    let pipes_idle = mac_pipe_records_idle(mmio);
    let ghost after_records = mmio.accesses();
    let next = mac_drain_tail_transition(control, hardware_idle, pipes_idle);
    let ghost mut pending_read: u32 = 0;
    if let Some(next) = next {
        mmio.write_u8(MAC_RETRY_HARDWARE_STATE, next);
        let pending = mmio.read_u32(SCHEDULER_PENDING_EVENTS);
        mmio.write_u32(SCHEDULER_PENDING_EVENTS, pending | DRAIN_COMPLETE_EVENT);
        proof {
            pending_read = pending;
        }
    }
    proof {
        let s = trace_after(mmio.accesses(), before.len() as int);
        let th = trace_after(after_hardware, after_control.len() as int);
        let tr = trace_after(after_records, after_hardware.len() as int);
        let tail = trace_after(mmio.accesses(), after_records.len() as int);
        assert(value_of(s[0]) == control as u32);
        assert(s.skip(1) =~= th + (tr + tail));
        lemma_hardware_idle_extends(th, tr + tail);
        let h = hardware_idle_accesses(th);
        assert(s.skip(1 + h.len() as int) =~= tr + tail);
        lemma_records_idle_extends(0, tr, tail);
        assert((value_of(s[0]) as u8) == control);
        let r = records_idle_from(0, tr);
        let head = seq![rd8(MAC_RETRY_HARDWARE_STATE, value_of(s[0]))] + h + r.0;
        assert(after_records =~= before + head);
        if next is Some {
            assert(tail[1] == rd32(SCHEDULER_PENDING_EVENTS, pending_read));
            assert(s[(2 + h.len() + r.0.len()) as int] == tail[1]);
            assert(mmio.accesses() =~= before + drain_tail_accesses(s));
        } else {
            assert(mmio.accesses() =~= before + drain_tail_accesses(s));
        }
    }
}

} // verus!
