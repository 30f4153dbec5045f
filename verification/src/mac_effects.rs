//! Two single-shot MAC event effects: the postmortem captured for a terminal
//! event, and the beacon marker's timer programming.

use vstd::prelude::*;

use crate::mac_event::{MacEvent, MacFatalPostmortem, SchedulerWord};
use crate::mmio::{rd16, rd32, rd8, trace_after, value_of, wr16, wr32, wr8, MacPipeMmio, MmioAccess};
use crate::completion_enqueue::{raise_accesses, raise_scheduler_bits};
use crate::registers::{
    MAC_SIDEBAND_CAPTURE, MAC_SIDEBAND_COUNTER, MAC_SIDEBAND_SOURCE, RADIO_TIMER_STATE,
    LOW_MAC_CONTROLLER_CONFIG, LOW_MAC_OPTIONAL_PIPE_OBJECT_WORD, LOW_MAC_PIPE_BUSY,
    MAC_BEACON_CONTROL_STATE, MAC_BEACON_SECONDARY_COMMAND, MAC_BEACON_TIMER, MAC_CURRENT_PIPE,
    MAC_CURRENT_PIPE_RECORD, MAC_CURRENT_SLOT, MAC_EVENT_READINESS, PIPE_IRQ_PENDING,
    PIPE_IRQ_TRIGGER,
};

verus! {

/// The reads of a postmortem capture, in order: current pipe, pipe record
/// and slot, the busy flag, event readiness, and the pipe interrupt pending
/// and trigger words.
pub open spec fn postmortem_accesses(s: Seq<MmioAccess>) -> Seq<MmioAccess> {
    seq![
        rd8(MAC_CURRENT_PIPE, value_of(s[0])),
        rd32(MAC_CURRENT_PIPE_RECORD, value_of(s[1])),
        rd32(MAC_CURRENT_SLOT, value_of(s[2])),
        rd8(LOW_MAC_PIPE_BUSY, value_of(s[3])),
        rd32(MAC_EVENT_READINESS, value_of(s[4])),
        rd32(PIPE_IRQ_PENDING, value_of(s[5])),
        rd32(PIPE_IRQ_TRIGGER, value_of(s[6])),
    ]
}

/// Fills `output` with the ownership state a terminal MAC event leaves
/// behind, read before anything is acknowledged. The record stays invalid;
/// the caller validates it once it is complete.
pub fn capture_mac_fatal_postmortem<M: MacPipeMmio>(
    mmio: &mut M,
    event: MacEvent,
    saved_scheduler_word: SchedulerWord,
    cpsr: u32,
    output: &mut MacFatalPostmortem,
)
    ensures
        ({
            let s = trace_after(final(mmio).accesses(), old(mmio).accesses().len() as int);
            &&& final(mmio).accesses() == old(mmio).accesses() + postmortem_accesses(s)
            &&& *final(output) == (MacFatalPostmortem {
                valid: 0,
                version: 1,
                line: 222,
                code: 0x29,
                event: event.raw,
                saved_scheduler_word: saved_scheduler_word.0,
                cpsr,
                current_pipe: value_of(s[0]),
                current_pipe_record: value_of(s[1]),
                current_slot: value_of(s[2]),
                pipe_busy: value_of(s[3]),
                event_readiness: value_of(s[4]),
                pipe_irq_pending: value_of(s[5]),
                pipe_irq_trigger: value_of(s[6]),
            })
        }),
{
    let ghost before = mmio.accesses();
    output.valid = 0;
    output.version = 1;
    output.line = 222;
    output.code = 0x29;
    output.event = event.raw;
    output.saved_scheduler_word = saved_scheduler_word.raw();
    output.cpsr = cpsr;
    output.current_pipe = mmio.read_u8(MAC_CURRENT_PIPE) as u32;
    output.current_pipe_record = mmio.read_u32(MAC_CURRENT_PIPE_RECORD);
    output.current_slot = mmio.read_u32(MAC_CURRENT_SLOT);
    output.pipe_busy = mmio.read_u8(LOW_MAC_PIPE_BUSY) as u32;
    output.event_readiness = mmio.read_u32(MAC_EVENT_READINESS);
    output.pipe_irq_pending = mmio.read_u32(PIPE_IRQ_PENDING);
    output.pipe_irq_trigger = mmio.read_u32(PIPE_IRQ_TRIGGER);
    let ghost s = trace_after(mmio.accesses(), before.len() as int);
    assert(s =~= postmortem_accesses(s));
    assert(mmio.accesses() =~= before + postmortem_accesses(s));
}

/// Scheduler bit that the beacon marker raises.
pub const BEACON_SCHEDULER_BIT: u32 = 0x0100_0000;

/// Beacon timer word: the secondary command advanced by the optional pipe
/// object word in 1024-tick units, with the enable bit.
pub open spec fn beacon_timer_word(command: u32, object_word: u32) -> u32 {
    command.wrapping_add((object_word * 0x400) as u32) | 0x8000_0000
}

/// Accesses of `execute_mac_beacon_event`.
pub open spec fn beacon_accesses(s: Seq<MmioAccess>) -> Seq<MmioAccess> {
    let object_word = value_of(s[1]);
    let head = seq![
        wr32(MAC_BEACON_CONTROL_STATE, 5),
        rd16(LOW_MAC_OPTIONAL_PIPE_OBJECT_WORD, object_word),
    ];
    if object_word == 0 {
        head
    } else {
        head + seq![
            wr16(LOW_MAC_CONTROLLER_CONFIG, 0x2000),
            rd32(MAC_BEACON_SECONDARY_COMMAND, value_of(s[3])),
            rd16(LOW_MAC_OPTIONAL_PIPE_OBJECT_WORD, value_of(s[4])),
            wr32(
                (MAC_BEACON_TIMER + 0x14) as u32,
                beacon_timer_word(value_of(s[3]), value_of(s[4])),
            ),
        ]
    }
}

/// The beacon marker: sets the beacon control state, programs the beacon
/// timer when an optional pipe object is configured, and only then raises
/// the scheduler's beacon bit through `raise_scheduler`.
pub fn execute_mac_beacon_event<M: MacPipeMmio, F: FnOnce(u32)>(mmio: &mut M, raise_scheduler: F)
    requires
        raise_scheduler.requires((BEACON_SCHEDULER_BIT,)),
    ensures
        ({
            let s = trace_after(final(mmio).accesses(), old(mmio).accesses().len() as int);
            final(mmio).accesses() == old(mmio).accesses() + beacon_accesses(s)
        }),
        raise_scheduler.ensures((BEACON_SCHEDULER_BIT,), ()),
{
    let ghost before = mmio.accesses();
    mmio.write_u32(MAC_BEACON_CONTROL_STATE, 5);
    let object_word = mmio.read_u16(LOW_MAC_OPTIONAL_PIPE_OBJECT_WORD);
    if object_word != 0 {
        mmio.write_u16(LOW_MAC_CONTROLLER_CONFIG, 0x2000);
        let command = mmio.read_u32(MAC_BEACON_SECONDARY_COMMAND);
        let current_word = mmio.read_u16(LOW_MAC_OPTIONAL_PIPE_OBJECT_WORD);
        let timer = command.wrapping_add(current_word as u32 * 0x400) | 0x8000_0000;
        mmio.write_u32(MAC_BEACON_TIMER + 0x14, timer);
        let ghost s = trace_after(mmio.accesses(), before.len() as int);
        assert(value_of(s[1]) == object_word as u32);
        assert(value_of(s[3]) == command);
        assert(value_of(s[4]) == current_word as u32);
        assert(mmio.accesses() =~= before + beacon_accesses(s));
    } else {
        let ghost s = trace_after(mmio.accesses(), before.len() as int);
        assert(value_of(s[1]) == object_word as u32);
        assert(mmio.accesses() =~= before + beacon_accesses(s));
    }
    raise_scheduler(BEACON_SCHEDULER_BIT);
}

proof fn lemma_beacon_extends(t: Seq<MmioAccess>, e: Seq<MmioAccess>)
    requires
        beacon_accesses(t).len() <= t.len(),
    ensures
        beacon_accesses(t + e) == beacon_accesses(t),
{
    let u = t + e;
    assert(u[1] == t[1]);
    if value_of(t[1]) != 0 {
        assert(u[3] == t[3]);
        assert(u[4] == t[4]);
    }
}

/// Accesses of `service_mac_beacon_event`: the beacon marker, then the
/// beacon bit raised in the scheduler's pending events.
pub open spec fn service_beacon_accesses(s: Seq<MmioAccess>) -> Seq<MmioAccess> {
    let marker = beacon_accesses(s);
    marker + raise_accesses(value_of(s[marker.len() as int]), BEACON_SCHEDULER_BIT)
}

/// Runs the beacon marker and raises its scheduler bit.
pub fn service_mac_beacon_event<M: MacPipeMmio>(mmio: &mut M)
    ensures
        final(mmio).accesses() == old(mmio).accesses() + service_beacon_accesses(
            trace_after(final(mmio).accesses(), old(mmio).accesses().len() as int),
        ),
{
    let ghost before = mmio.accesses();
    execute_mac_beacon_event(mmio, |_bits: u32| {});
    let ghost marked = mmio.accesses();
    raise_scheduler_bits(mmio, BEACON_SCHEDULER_BIT);
    proof {
        let s = trace_after(mmio.accesses(), before.len() as int);
        let m = trace_after(marked, before.len() as int);
        let r = trace_after(mmio.accesses(), marked.len() as int);
        assert(s =~= m + r);
        lemma_beacon_extends(m, r);
        assert(s[m.len() as int] == r[0]);
    }
    assert(mmio.accesses() =~= before + service_beacon_accesses(
        trace_after(mmio.accesses(), before.len() as int),
    ));
}

/// Beacon control state meaning the beacon is held off; its completion only
/// raises the beacon bit.
pub const BEACON_STATE_HELD: u32 = 4;

/// Beacon control state meaning the beacon marker already ran.
pub const BEACON_STATE_MARKED: u32 = 5;

/// Scheduler event raised when the radio timer fires.
pub const RADIO_TIMER_EVENT: u32 = 0x8000_0000;

/// Accesses of a non-pipe completion event of type `event_type`, given the
/// values read: type 0x19 completes the beacon (raising its bit when held,
/// running the marker unless it already ran) and resets the beacon state;
/// type 0x35 moves an armed radio timer to fired and raises its event.
pub open spec fn nonpipe_completion_accesses(event_type: u8, s: Seq<MmioAccess>) -> Seq<MmioAccess> {
    if event_type == 0x19 {
        let state = value_of(s[0]);
        let read = seq![rd32(MAC_BEACON_CONTROL_STATE, state)];
        let rest = s.skip(1);
        let served = if state == BEACON_STATE_HELD {
            raise_accesses(value_of(rest[0]), BEACON_SCHEDULER_BIT)
        } else if state != BEACON_STATE_MARKED {
            service_beacon_accesses(rest)
        } else {
            Seq::empty()
        };
        read + served + seq![wr32(MAC_BEACON_CONTROL_STATE, 1)]
    } else if event_type == 0x35 {
        let timer = value_of(s[0]);
        let read = seq![rd8(RADIO_TIMER_STATE, timer)];
        if (timer as u8) == 2 {
            read + seq![wr8(RADIO_TIMER_STATE, 4)] + raise_accesses(value_of(s[2]), RADIO_TIMER_EVENT)
        } else {
            read
        }
    } else {
        Seq::empty()
    }
}

proof fn lemma_service_beacon_extends(t: Seq<MmioAccess>, e: Seq<MmioAccess>)
    requires
        service_beacon_accesses(t).len() <= t.len(),
    ensures
        service_beacon_accesses(t + e) == service_beacon_accesses(t),
{
    lemma_beacon_extends(t, e);
    let k = beacon_accesses(t).len() as int;
    assert((t + e)[k] == t[k]);
}

/// Handles a MAC completion event that belongs to no pipe; see
/// `nonpipe_completion_accesses`.
pub fn service_mac_nonpipe_completion_event<M: MacPipeMmio>(mmio: &mut M, event_type: u8)
    ensures
        final(mmio).accesses() == old(mmio).accesses() + nonpipe_completion_accesses(
            event_type,
            trace_after(final(mmio).accesses(), old(mmio).accesses().len() as int),
        ),
{
    let ghost before = mmio.accesses();
    if event_type == 0x19 {
        let state = mmio.read_u32(MAC_BEACON_CONTROL_STATE);
        let ghost after_read = mmio.accesses();
        if state == BEACON_STATE_HELD {
            raise_scheduler_bits(mmio, BEACON_SCHEDULER_BIT);
        } else if state != BEACON_STATE_MARKED {
            service_mac_beacon_event(mmio);
        }
        let ghost served = mmio.accesses();
        mmio.write_u32(MAC_BEACON_CONTROL_STATE, 1);
        proof {
            let s = trace_after(mmio.accesses(), before.len() as int);
            let v = trace_after(served, after_read.len() as int);
            assert(value_of(s[0]) == state);
            assert(s.skip(1) =~= v + seq![wr32(MAC_BEACON_CONTROL_STATE, 1)]);
            if state == BEACON_STATE_HELD {
                assert(s.skip(1)[0] == v[0]);
            } else if state != BEACON_STATE_MARKED {
                lemma_service_beacon_extends(v, seq![wr32(MAC_BEACON_CONTROL_STATE, 1)]);
            }
        }
    } else if event_type == 0x35 {
        let timer = mmio.read_u8(RADIO_TIMER_STATE);
        if timer == 2 {
            mmio.write_u8(RADIO_TIMER_STATE, 4);
            raise_scheduler_bits(mmio, RADIO_TIMER_EVENT);
        }
        let ghost s = trace_after(mmio.accesses(), before.len() as int);
        assert(value_of(s[0]) == timer as u32);
    }
    assert(mmio.accesses() =~= before + nonpipe_completion_accesses(
        event_type,
        trace_after(mmio.accesses(), before.len() as int),
    ));
}

/// Scheduler event raised for a sideband capture.
pub const SIDEBAND_EVENT: u32 = 0x0008_0000;

/// Accesses of a sideband event, given the values read: the capture is
/// copied, the sideband counter bumped and the sideband event raised.
pub open spec fn sideband_accesses(s: Seq<MmioAccess>) -> Seq<MmioAccess> {
    let captured = value_of(s[0]);
    let count = value_of(s[2]);
    seq![
        rd32(MAC_SIDEBAND_SOURCE, captured),
        wr32(MAC_SIDEBAND_CAPTURE, captured),
        rd32(MAC_SIDEBAND_COUNTER, count),
        wr32(MAC_SIDEBAND_COUNTER, count.wrapping_add(1)),
    ] + raise_accesses(value_of(s[4]), SIDEBAND_EVENT)
}

/// Copies the sideband capture, counts it and raises the sideband event.
pub fn service_mac_sideband<M: MacPipeMmio>(mmio: &mut M)
    ensures
        final(mmio).accesses() == old(mmio).accesses() + sideband_accesses(
            trace_after(final(mmio).accesses(), old(mmio).accesses().len() as int),
        ),
{
    let ghost before = mmio.accesses();
    let captured = mmio.read_u32(MAC_SIDEBAND_SOURCE);
    mmio.write_u32(MAC_SIDEBAND_CAPTURE, captured);
    let count = mmio.read_u32(MAC_SIDEBAND_COUNTER);
    mmio.write_u32(MAC_SIDEBAND_COUNTER, count.wrapping_add(1));
    let ghost counted = mmio.accesses();
    raise_scheduler_bits(mmio, SIDEBAND_EVENT);
    proof {
        let s = trace_after(mmio.accesses(), before.len() as int);
        let r = trace_after(mmio.accesses(), counted.len() as int);
        assert(value_of(s[0]) == captured);
        assert(value_of(s[2]) == count);
        assert(s[4] == r[0]);
    }
    assert(mmio.accesses() =~= before + sideband_accesses(trace_after(mmio.accesses(), before.len() as int)));
}

} // verus!
