//! Per-completion TALA bookkeeping: a completed frame is counted as a
//! success or failure of its interface, its tries weighed against the rate
//! policy's short-retry limit, and, once enough frames were seen or the
//! penalty grew large, the interface's A-MPDU length is cut back or grown.

use vstd::prelude::*;

use crate::completion_enqueue::node_field;
use crate::context::FrameNodeAddress;
use crate::mmio::{rd16, rd32, rd8, trace_after, value_of, wr16, wr32, wr8, MacPipeMmio, MmioAccess};
use crate::offset::{INTERFACE, RETRY_POLICY, TERMINAL_STATUS, TRY_COUNT};
use crate::registers::MAC_STATUS_ACCOUNTING;
use crate::tala::{tala_reduction, tala_reduction_of};

verus! {

/// Per-interface TALA override halfwords; a non-zero override keeps the
/// A-MPDU length fixed.
pub const TALA_OVERRIDES: u32 = 0xfff0_1a7c;

/// Per-interface TALA counters.
pub const TALA_STATS: u32 = 0x0400_2500;

/// Size of one interface's TALA counters.
pub const TALA_STATS_STRIDE: u32 = 0x14;

/// Frames completed successfully.
pub const TALA_SUCCESS: u32 = 0x00;

/// Frames that failed.
pub const TALA_FAILURE: u32 = 0x04;

/// Tries spent on all frames.
pub const TALA_TRIES: u32 = 0x08;

/// Weighted penalty of tries beyond the expected count.
pub const TALA_PENALTY: u32 = 0x0c;

/// Evaluations in a row that allowed growth (one byte).
pub const TALA_GROWTH_STREAK: u32 = 0x10;

/// Short-retry limit of each rate policy (one byte per policy).
pub const RATE_POLICY_SHORT_RETRY: u32 = 0x0400_2600;

/// Accounting parameters: bits 0..8 maximum length, 8..16 minimum length,
/// 16..24 evaluation window in units of 200 frames, 24..28 growth streak.
pub const MAC_ACCOUNTING_PARAMETER0: u32 = 0x0400_2700;

/// Four penalty thresholds, one per byte.
pub const MAC_ACCOUNTING_PARAMETER1: u32 = 0x0400_2704;

/// Samples counted since the last evaluation.
pub const MAC_SAMPLE_COUNT: u32 = 0x0400_2708;

/// The serviced pipe's congestion state (one byte).
pub const MAC_CURRENT_PIPE_STATE_BYTE: u32 = 0x0400_270c;

/// Running average of the sample share (halfword).
pub const MAC_ACCOUNTING_AVERAGE: u32 = 0x0400_270e;

/// Silicon control byte; bit 0 requests a retune, bit 1 defers it.
pub const MAC_SILICON_CONTROL: u32 = 0x0400_2710;

/// Report word of the A-MPDU length last in force.
pub const TALA_LENGTH_REPORT: u32 = 0xfff0_2e4c;

/// RTS threshold from which an overridden interface keeps its length.
pub const TALA_RTS_LIMIT: u16 = 0x660;

/// A call made to the interface table, with what it answered.
#[derive(Clone, Copy, Debug, PartialEq, Eq, Structural)]
pub enum TalaVifCall {
    RtsThreshold { interface: u8, threshold: Option<u16> },
    AmpduLength { interface: u8, length: Option<u16> },
    SetAmpduLength { interface: u8, length: u16, accepted: bool },
}

/// The interface table, as TALA uses it. Each call is recorded in `calls`.
pub trait TalaVifEffects {
    /// Every call made so far, oldest first.
    /// A verified implementation defines it; the empty default only lets an
    /// implementation that Verus does not check leave it out.
    open spec fn calls(&self) -> Seq<TalaVifCall> {
        Seq::empty()
    }

    /// The interface's RTS threshold; `None` for an unknown interface.
    fn rts_threshold(&mut self, interface: u8) -> (threshold: Option<u16>)
        ensures
            final(self).calls() == old(self).calls().push(TalaVifCall::RtsThreshold { interface, threshold }),
    ;

    /// The interface's A-MPDU length; `None` for an unknown interface.
    fn ampdu_length(&mut self, interface: u8) -> (length: Option<u16>)
        ensures
            final(self).calls() == old(self).calls().push(TalaVifCall::AmpduLength { interface, length }),
    ;

    /// Sets the interface's A-MPDU length; false when refused.
    fn set_ampdu_length(&mut self, interface: u8, length: u16) -> (accepted: bool)
        ensures
            final(self).calls() == old(self).calls().push(
                TalaVifCall::SetAmpduLength { interface, length, accepted },
            ),
    ;
}

/// How a TALA update ended.
#[derive(Clone, Copy, Debug, PartialEq, Eq, Structural)]
pub enum TalaUpdate {
    /// The interface's length is overridden under a high RTS threshold.
    Overridden,
    /// The frame was counted; no evaluation was due.
    Counted,
    /// The counters were evaluated and restarted.
    Evaluated,
    /// The interface table refused the new length; the firmware stops.
    LengthRefused,
}

/// Counter `field` of `interface`.
pub open spec fn tala_stat(interface: u8, field: u32) -> u32 {
    (TALA_STATS + interface * TALA_STATS_STRIDE + field) as u32
}

fn tala_stat_address(interface: u8, field: u32) -> (address: u32)
    requires
        field <= TALA_GROWTH_STREAK,
    ensures
        address == tala_stat(interface, field),
{
    TALA_STATS + interface as u32 * TALA_STATS_STRIDE + field
}

/// The answer of the first call, when it is an RTS-threshold question.
pub open spec fn rts_answer(v: Seq<TalaVifCall>) -> Option<u16> {
    if v.len() > 0 && v[0] is RtsThreshold {
        v[0]->RtsThreshold_threshold
    } else {
        None
    }
}

/// The answer of the first call, when it is an A-MPDU length question.
pub open spec fn length_answer(v: Seq<TalaVifCall>) -> Option<u16> {
    if v.len() > 0 && v[0] is AmpduLength {
        v[0]->AmpduLength_length
    } else {
        None
    }
}

/// The answer of the first call, when it sets a length.
pub open spec fn set_answer(v: Seq<TalaVifCall>) -> bool {
    v.len() > 0 && v[0] is SetAmpduLength && v[0]->SetAmpduLength_accepted
}

pub open spec fn or_zero(value: Option<u16>) -> u16 {
    match value {
        Some(value) => value,
        None => 0,
    }
}

/// The penalty a frame of `tries` tries adds, against the `expected` tries
/// of its rate policy: its tries, or, beyond the expected count, a power of
/// two that grows with the excess.
pub open spec fn try_penalty(tries: u32, expected: u32) -> u32 {
    if tries > (expected & 0xffff) {
        1u32 << (tries.wrapping_sub(expected & 0xffff).wrapping_add(1) % 16)
    } else {
        tries
    }
}

/// The length between `minimum` and `maximum` nearest to `next`.
pub open spec fn clamp_length(next: u32, minimum: u32, maximum: u32) -> u32 {
    if next < minimum {
        minimum
    } else if next > maximum {
        maximum
    } else {
        next
    }
}

/// What the counting gives the evaluation: the interface, its override,
/// the frames completed, the short-retry limit and the first parameter word.
#[derive(Clone, Copy)]
pub struct TalaCounts {
    pub interface: u8,
    pub overridden: u32,
    pub completed: u32,
    pub short_retries: u32,
    pub parameter0: u32,
}

/// Counting a completed frame on `interface` once its override allows,
/// given the values read: the frame counts as a success or failure, its
/// tries and their penalty are added, and the update stops (`Some`) unless
/// the evaluation window is full or the penalty is over 0x400. Also gives
/// the frames completed, the short-retry limit and the first parameter word.
#[verifier::opaque]
pub open spec fn record_step(node: u32, interface: u8, r: Seq<MmioAccess>) -> (
    Seq<MmioAccess>,
    Option<TalaUpdate>,
    (u32, u32, u32),
) {
    let status = value_of(r[0]);
    let bump = if status == 0 {
        seq![
            rd32(tala_stat(interface, TALA_SUCCESS), value_of(r[1])),
            wr32(tala_stat(interface, TALA_SUCCESS), value_of(r[1]).wrapping_add(1)),
        ]
    } else if status == 0x0b {
        seq![
            rd32(tala_stat(interface, TALA_FAILURE), value_of(r[1])),
            wr32(tala_stat(interface, TALA_FAILURE), value_of(r[1]).wrapping_add(1)),
        ]
    } else {
        Seq::empty()
    };
    let k: int = (1 + bump.len()) as int;
    let success = value_of(r[k]);
    let failure = value_of(r[k + 1]);
    let completed = success.wrapping_add(failure);
    let policy = value_of(r[k + 2]);
    let short_retries = value_of(r[k + 3]);
    let expected = short_retries.wrapping_mul(15).wrapping_add(99) / 100;
    let tries = value_of(r[k + 4]);
    let tries_total = value_of(r[k + 5]);
    let penalty = value_of(r[k + 7]);
    let parameter0 = value_of(r[k + 9]);
    let counted = seq![rd16(node_field(node, TERMINAL_STATUS), status)] + bump + seq![
        rd32(tala_stat(interface, TALA_SUCCESS), success),
        rd32(tala_stat(interface, TALA_FAILURE), failure),
        rd8(node_field(node, RETRY_POLICY), policy),
        rd8((RATE_POLICY_SHORT_RETRY + (policy as u8)) as u32, short_retries),
        rd16(node_field(node, TRY_COUNT), tries),
        rd32(tala_stat(interface, TALA_TRIES), tries_total),
        wr32(tala_stat(interface, TALA_TRIES), tries_total.wrapping_add(tries)),
        rd32(tala_stat(interface, TALA_PENALTY), penalty),
        wr32(tala_stat(interface, TALA_PENALTY), penalty.wrapping_add(try_penalty(tries, expected))),
        rd32(MAC_ACCOUNTING_PARAMETER0, parameter0),
    ];
    let values = (completed, short_retries, parameter0);
    let window = ((parameter0 >> 16u32) % 256) * 200;
    if completed < window {
        let current = value_of(r[k + 10]);
        let read = counted.push(rd32(tala_stat(interface, TALA_PENALTY), current));
        if current <= 0x400 {
            (read, Some(TalaUpdate::Counted), values)
        } else {
            (read, None, values)
        }
    } else {
        (counted, None, values)
    }
}

/// Counting a completed frame, given the values read and the calls made:
/// the interface and its override are read, and an overridden interface
/// under a high RTS threshold keeps everything; otherwise the frame is
/// recorded as `record_step` says. `Some` outcome when the update stopped.
#[verifier::opaque]
pub open spec fn count_step(node: u32, s: Seq<MmioAccess>, v: Seq<TalaVifCall>) -> (
    Seq<MmioAccess>,
    Seq<TalaVifCall>,
    Option<TalaUpdate>,
    TalaCounts,
) {
    let interface = value_of(s[0]) as u8;
    let overridden = value_of(s[1]);
    let gate = seq![
        rd8(node_field(node, INTERFACE), value_of(s[0])),
        rd16((TALA_OVERRIDES + interface * 2) as u32, overridden),
    ];
    let threshold = rts_answer(v);
    let asked = if overridden != 0 {
        seq![TalaVifCall::RtsThreshold { interface, threshold }]
    } else {
        Seq::empty()
    };
    if overridden != 0 && or_zero(threshold) >= TALA_RTS_LIMIT {
        (
            gate,
            asked,
            Some(TalaUpdate::Overridden),
            TalaCounts { interface, overridden, completed: 0, short_retries: 0, parameter0: 0 },
        )
    } else {
        let record = record_step(node, interface, s.skip(2));
        (
            gate + record.0,
            asked,
            record.1,
            TalaCounts {
                interface,
                overridden,
                completed: record.2.0,
                short_retries: record.2.1,
                parameter0: record.2.2,
            },
        )
    }
}

fn record_completion<M: MacPipeMmio>(mmio: &mut M, node: FrameNodeAddress, interface: u8) -> (recorded: (
    Option<TalaUpdate>,
    (u32, u32, u32),
))
    ensures
        ({
            let t = trace_after(final(mmio).accesses(), old(mmio).accesses().len() as int);
            let step = record_step(node@, interface, t);
            &&& final(mmio).accesses() == old(mmio).accesses() + step.0
            &&& recorded.0 == step.1
            &&& recorded.1 == step.2
        }),
{
    reveal(record_step);
    let ghost before = mmio.accesses();
    let context = node.context();
    let status = mmio.read_u16(context.field_address(TERMINAL_STATUS));
    let mut bumped: u32 = 0;
    if status == 0 {
        let address = tala_stat_address(interface, TALA_SUCCESS);
        bumped = mmio.read_u32(address);
        mmio.write_u32(address, bumped.wrapping_add(1));
    } else if status == 0x0b {
        let address = tala_stat_address(interface, TALA_FAILURE);
        bumped = mmio.read_u32(address);
        mmio.write_u32(address, bumped.wrapping_add(1));
    }
    let ghost k: int = if status == 0 || status == 0x0b { 3 } else { 1 };
    let success = mmio.read_u32(tala_stat_address(interface, TALA_SUCCESS));
    let failure = mmio.read_u32(tala_stat_address(interface, TALA_FAILURE));
    let completed = success.wrapping_add(failure);
    let policy = mmio.read_u8(context.field_address(RETRY_POLICY));
    let short_retries = mmio.read_u8(RATE_POLICY_SHORT_RETRY + policy as u32) as u32;
    let expected = short_retries.wrapping_mul(15).wrapping_add(99) / 100;
    let tries = mmio.read_u16(context.field_address(TRY_COUNT)) as u32;
    let tries_address = tala_stat_address(interface, TALA_TRIES);
    let tries_total = mmio.read_u32(tries_address);
    mmio.write_u32(tries_address, tries_total.wrapping_add(tries));
    let addition = if tries > (expected & 0xffff) {
        let shift = tries.wrapping_sub(expected & 0xffff).wrapping_add(1) % 16;
        1u32 << shift
    } else {
        tries
    };
    let penalty_address = tala_stat_address(interface, TALA_PENALTY);
    let penalty = mmio.read_u32(penalty_address);
    mmio.write_u32(penalty_address, penalty.wrapping_add(addition));
    let parameter0 = mmio.read_u32(MAC_ACCOUNTING_PARAMETER0);
    let units = (parameter0 >> 16u32) % 256;
    let window = units * 200;
    let mut current: u32 = 0;
    let mut stop = false;
    if completed < window {
        current = mmio.read_u32(penalty_address);
        stop = current <= 0x400;
    }
    proof {
        let r = trace_after(mmio.accesses(), before.len() as int);
        assert(value_of(r[0]) == status as u32);
        if status == 0 || status == 0x0b {
            assert(value_of(r[1]) == bumped);
        }
        assert(value_of(r[k]) == success);
        assert(value_of(r[k + 1]) == failure);
        assert(value_of(r[k + 2]) == policy as u32);
        assert(value_of(r[k + 3]) == short_retries);
        assert(value_of(r[k + 4]) == tries);
        assert(value_of(r[k + 5]) == tries_total);
        assert(value_of(r[k + 7]) == penalty);
        assert(value_of(r[k + 9]) == parameter0);
        assert(addition == try_penalty(tries, expected));
        if completed < window {
            assert(value_of(r[k + 10]) == current);
        }
        assert(mmio.accesses() =~= before + record_step(node@, interface, r).0);
    }
    if stop {
        (Some(TalaUpdate::Counted), (completed, short_retries, parameter0))
    } else {
        (None, (completed, short_retries, parameter0))
    }
}

fn count_completion<M: MacPipeMmio, V: TalaVifEffects>(mmio: &mut M, vif: &mut V, node: FrameNodeAddress) -> (counted: (
    Option<TalaUpdate>,
    TalaCounts,
))
    ensures
        ({
            let t = trace_after(final(mmio).accesses(), old(mmio).accesses().len() as int);
            let v = final(vif).calls().skip(old(vif).calls().len() as int);
            let step = count_step(node@, t, v);
            &&& final(mmio).accesses() == old(mmio).accesses() + step.0
            &&& final(vif).calls() == old(vif).calls() + step.1
            &&& counted.0 == step.2
            &&& counted.1 == step.3
        }),
{
    reveal(count_step);
    let ghost before = mmio.accesses();
    let ghost calls_before = vif.calls();
    let context = node.context();
    let interface = mmio.read_u8(context.field_address(INTERFACE));
    let overridden = mmio.read_u16(TALA_OVERRIDES + interface as u32 * 2);
    let mut threshold: Option<u16> = None;
    let mut limit: u16 = 0;
    if overridden != 0 {
        threshold = vif.rts_threshold(interface);
        limit = match threshold {
            Some(value) => value,
            None => 0,
        };
    }
    let ghost gated = mmio.accesses();
    proof {
        let t = trace_after(gated, before.len() as int);
        let v = vif.calls().skip(calls_before.len() as int);
        assert(value_of(t[0]) == interface as u32);
        assert(value_of(t[1]) == overridden as u32);
        if overridden != 0 {
            assert(v[0] == vif.calls()[calls_before.len() as int]);
            assert(rts_answer(v) == threshold);
        }
    }
    if overridden != 0 && limit >= TALA_RTS_LIMIT {
        proof {
            let t = trace_after(mmio.accesses(), before.len() as int);
            let v = vif.calls().skip(calls_before.len() as int);
            assert(mmio.accesses() =~= before + count_step(node@, t, v).0);
            assert(vif.calls() =~= calls_before + count_step(node@, t, v).1);
        }
        return (
            Some(TalaUpdate::Overridden),
            TalaCounts { interface, overridden: overridden as u32, completed: 0, short_retries: 0, parameter0: 0 },
        );
    }
    let (stopped, values) = record_completion(mmio, node, interface);
    proof {
        let t = trace_after(mmio.accesses(), before.len() as int);
        let v = vif.calls().skip(calls_before.len() as int);
        assert(t.skip(2) =~= trace_after(mmio.accesses(), gated.len() as int));
        assert(t[0] == trace_after(gated, before.len() as int)[0]);
        assert(t[1] == trace_after(gated, before.len() as int)[1]);
        assert(mmio.accesses() =~= before + count_step(node@, t, v).0);
        assert(vif.calls() =~= calls_before + count_step(node@, t, v).1);
    }
    (
        stopped,
        TalaCounts {
            interface,
            overridden: overridden as u32,
            completed: values.0,
            short_retries: values.1,
            parameter0: values.2,
        },
    )
}

/// Sampling the congestion average, given the values read: with no samples
/// the pipe state is cleared when the average is low and too few tries
/// succeeded; otherwise the average takes the new sample share, a high one
/// marks the pipe congested, and the sample counters restart.
#[verifier::opaque]
pub open spec fn sample_step(interface: u8, s: Seq<MmioAccess>) -> Seq<MmioAccess> {
    let count = value_of(s[0]);
    let divisor = value_of(s[1]);
    let head = seq![rd32(MAC_SAMPLE_COUNT, count), rd32(MAC_STATUS_ACCOUNTING, divisor)];
    if count.wrapping_add(divisor) == 0 {
        let state = value_of(s[2]);
        let read_state = head.push(rd8(MAC_CURRENT_PIPE_STATE_BYTE, state));
        if state != 0 {
            let average = value_of(s[3]);
            let read_average = read_state.push(rd16(MAC_ACCOUNTING_AVERAGE, average));
            if average < 50 {
                let tries = value_of(s[4]);
                let success = value_of(s[5]);
                let again = value_of(s[6]);
                let read_tries = read_average + seq![
                    rd32(tala_stat(interface, TALA_TRIES), tries),
                    rd32(tala_stat(interface, TALA_SUCCESS), success),
                    rd32(tala_stat(interface, TALA_TRIES), again),
                ];
                if tries.wrapping_add(success).wrapping_mul(80) < again.wrapping_mul(100) {
                    read_tries.push(wr8(MAC_CURRENT_PIPE_STATE_BYTE, 0))
                } else {
                    read_tries
                }
            } else {
                read_average
            }
        } else {
            read_state
        }
    } else {
        let sample = count.wrapping_mul(600) / count.wrapping_add(divisor);
        let previous = value_of(s[2]);
        let average = sample.wrapping_add(previous.wrapping_mul(4)) / 10;
        let written = head + seq![
            rd16(MAC_ACCOUNTING_AVERAGE, previous),
            wr16(MAC_ACCOUNTING_AVERAGE, (average as u16) as u32),
        ];
        let marked = if average > 75 {
            written.push(wr8(MAC_CURRENT_PIPE_STATE_BYTE, 1))
        } else {
            written
        };
        marked + seq![wr32(MAC_SAMPLE_COUNT, 0), wr32(MAC_STATUS_ACCOUNTING, 0)]
    }
}

fn sample_congestion<M: MacPipeMmio>(mmio: &mut M, interface: u8)
    ensures
        final(mmio).accesses() == old(mmio).accesses() + sample_step(
            interface,
            trace_after(final(mmio).accesses(), old(mmio).accesses().len() as int),
        ),
{
    reveal(sample_step);
    let ghost before = mmio.accesses();
    let count = mmio.read_u32(MAC_SAMPLE_COUNT);
    let divisor = mmio.read_u32(MAC_STATUS_ACCOUNTING);
    if count.wrapping_add(divisor) == 0 {
        let state = mmio.read_u8(MAC_CURRENT_PIPE_STATE_BYTE);
        let mut average: u16 = 0;
        let mut tries: u32 = 0;
        let mut success: u32 = 0;
        let mut again: u32 = 0;
        if state != 0 {
            average = mmio.read_u16(MAC_ACCOUNTING_AVERAGE);
            if average < 50 {
                tries = mmio.read_u32(tala_stat_address(interface, TALA_TRIES));
                success = mmio.read_u32(tala_stat_address(interface, TALA_SUCCESS));
                again = mmio.read_u32(tala_stat_address(interface, TALA_TRIES));
                if tries.wrapping_add(success).wrapping_mul(80) < again.wrapping_mul(100) {
                    mmio.write_u8(MAC_CURRENT_PIPE_STATE_BYTE, 0);
                }
            }
        }
        proof {
            let t = trace_after(mmio.accesses(), before.len() as int);
            assert(value_of(t[0]) == count && value_of(t[1]) == divisor);
            assert(value_of(t[2]) == state as u32);
            if state != 0 {
                assert(value_of(t[3]) == average as u32);
                if average < 50 {
                    assert(value_of(t[4]) == tries && value_of(t[5]) == success && value_of(t[6]) == again);
                }
            }
            assert(mmio.accesses() =~= before + sample_step(interface, t));
        }
    } else {
        let sample = count.wrapping_mul(600) / count.wrapping_add(divisor);
        let previous = mmio.read_u16(MAC_ACCOUNTING_AVERAGE) as u32;
        let average = sample.wrapping_add(previous.wrapping_mul(4)) / 10;
        mmio.write_u16(MAC_ACCOUNTING_AVERAGE, average as u16);
        if average > 75 {
            mmio.write_u8(MAC_CURRENT_PIPE_STATE_BYTE, 1);
        }
        mmio.write_u32(MAC_SAMPLE_COUNT, 0);
        mmio.write_u32(MAC_STATUS_ACCOUNTING, 0);
        proof {
            let t = trace_after(mmio.accesses(), before.len() as int);
            assert(value_of(t[0]) == count && value_of(t[1]) == divisor);
            assert(value_of(t[2]) == previous);
            assert(mmio.accesses() =~= before + sample_step(interface, t));
        }
    }
}

proof fn lemma_sample_extends(interface: u8, t: Seq<MmioAccess>, e: Seq<MmioAccess>)
    requires
        sample_step(interface, t).len() <= t.len(),
    ensures
        sample_step(interface, t + e) == sample_step(interface, t),
{
    reveal(sample_step);
    let u = t + e;
    assert(u[0] == t[0] && u[1] == t[1]);
    if value_of(t[0]).wrapping_add(value_of(t[1])) == 0 {
        assert(u[2] == t[2]);
        if value_of(t[2]) != 0 {
            assert(u[3] == t[3]);
            if value_of(t[3]) < 50 {
                assert(u[4] == t[4] && u[5] == t[5] && u[6] == t[6]);
            }
        }
    } else {
        assert(u[2] == t[2]);
    }
}

/// Growing or holding the length after the cut, given the values read:
/// when the penalty outweighs half the tolerated share, the growth streak
/// restarts and a retune is requested unless deferred; otherwise the streak
/// grows, and a long enough streak marks the pipe congested, decays the
/// average, grows the length by one and requests a deferred retune. Also
/// gives the length that results from `next`.
#[verifier::opaque]
pub open spec fn streak_step(
    interface: u8,
    weighted_total: u32,
    weighted_penalty: u32,
    parameter0: u32,
    parameter1: u32,
    next: u32,
    s: Seq<MmioAccess>,
) -> (Seq<MmioAccess>, u32) {
    let control = value_of(s[0]);
    let read_control = seq![rd8(MAC_SILICON_CONTROL, control)];
    let retune = wr8(MAC_SILICON_CONTROL, ((control as u8) | 1) as u32);
    if weighted_total.wrapping_mul(parameter1 & 0xff) >> 1u32 < weighted_penalty {
        let reset = read_control.push(wr8(tala_stat(interface, TALA_GROWTH_STREAK), 0));
        (if control & 2 == 0 { reset.push(retune) } else { reset }, next)
    } else {
        let streak = value_of(s[1]);
        let grown = (streak as u8).wrapping_add(1);
        let counted = read_control + seq![
            rd8(tala_stat(interface, TALA_GROWTH_STREAK), streak),
            wr8(tala_stat(interface, TALA_GROWTH_STREAK), grown as u32),
        ];
        if ((parameter0 >> 24u32) & 0x0f) <= grown as u32 {
            let average = value_of(s[4]);
            let decayed = counted + seq![
                wr8(MAC_CURRENT_PIPE_STATE_BYTE, 1),
                rd16(MAC_ACCOUNTING_AVERAGE, average),
                wr16(MAC_ACCOUNTING_AVERAGE, (average as u16).wrapping_sub((average as u16) >> 5u16) as u32),
            ];
            (if control & 2 != 0 { decayed.push(retune) } else { decayed }, next.wrapping_add(1) % 256)
        } else {
            (counted, next)
        }
    }
}

fn grow_or_hold<M: MacPipeMmio>(
    mmio: &mut M,
    interface: u8,
    weighted_total: u32,
    weighted_penalty: u32,
    parameter0: u32,
    parameter1: u32,
    next: u32,
) -> (length: u32)
    ensures
        ({
            let t = trace_after(final(mmio).accesses(), old(mmio).accesses().len() as int);
            let step = streak_step(interface, weighted_total, weighted_penalty, parameter0, parameter1, next, t);
            &&& final(mmio).accesses() == old(mmio).accesses() + step.0
            &&& length == step.1
        }),
{
    reveal(streak_step);
    let ghost before = mmio.accesses();
    let control = mmio.read_u8(MAC_SILICON_CONTROL);
    let streak_address = tala_stat_address(interface, TALA_GROWTH_STREAK);
    let mut length = next;
    if weighted_total.wrapping_mul(parameter1 & 0xff) >> 1u32 < weighted_penalty {
        mmio.write_u8(streak_address, 0);
        if control & 2 == 0 {
            mmio.write_u8(MAC_SILICON_CONTROL, control | 1);
        }
        proof {
            let t = trace_after(mmio.accesses(), before.len() as int);
            assert(value_of(t[0]) == control as u32);
            assert((control as u32) & 2 == 0 <==> control & 2 == 0) by (bit_vector);
        }
    } else {
        let streak = mmio.read_u8(streak_address).wrapping_add(1);
        mmio.write_u8(streak_address, streak);
        let mut average: u16 = 0;
        if ((parameter0 >> 24u32) & 0x0f) <= streak as u32 {
            mmio.write_u8(MAC_CURRENT_PIPE_STATE_BYTE, 1);
            average = mmio.read_u16(MAC_ACCOUNTING_AVERAGE);
            mmio.write_u16(MAC_ACCOUNTING_AVERAGE, average.wrapping_sub(average >> 5u16));
            length = next.wrapping_add(1) % 256;
            if control & 2 != 0 {
                mmio.write_u8(MAC_SILICON_CONTROL, control | 1);
            }
        }
        proof {
            let t = trace_after(mmio.accesses(), before.len() as int);
            assert(value_of(t[0]) == control as u32);
            assert((value_of(t[1]) as u8).wrapping_add(1) == streak);
            if ((parameter0 >> 24u32) & 0x0f) <= streak as u32 {
                assert(value_of(t[4]) == average as u32);
            }
            assert((control as u32) & 2 == 0 <==> control & 2 == 0) by (bit_vector);
        }
    }
    proof {
        let t = trace_after(mmio.accesses(), before.len() as int);
        assert(mmio.accesses() =~= before + streak_step(
            interface,
            weighted_total,
            weighted_penalty,
            parameter0,
            parameter1,
            next,
            t,
        ).0);
    }
    length
}

/// Evaluating the counters, given the values read and the calls made: the
/// interface's A-MPDU length is cut back by the weighted penalty
/// (`tala_reduction_of`), the congestion average sampled, and the length
/// grown or held. Gives the new length and the minimum kept with it.
#[verifier::opaque]
pub open spec fn evaluate_step(counts: TalaCounts, s: Seq<MmioAccess>, v: Seq<TalaVifCall>) -> (
    Seq<MmioAccess>,
    Seq<TalaVifCall>,
    (u32, u32),
) {
    let interface = counts.interface;
    let parameter1 = value_of(s[0]);
    let penalty = value_of(s[1]);
    let weighted_penalty = penalty.wrapping_mul(100);
    let weighted_total = counts.short_retries.wrapping_mul(counts.completed);
    let length = length_answer(v);
    let cut = tala_reduction_of(
        (or_zero(length) & 0xff) as u32,
        weighted_total,
        weighted_penalty,
        parameter1,
        (counts.parameter0 >> 8u32) & 0xff,
    );
    let head = seq![rd32(MAC_ACCOUNTING_PARAMETER1, parameter1), rd32(tala_stat(interface, TALA_PENALTY), penalty)];
    let sampled = sample_step(interface, s.skip(2));
    let grown = streak_step(
        interface,
        weighted_total,
        weighted_penalty,
        counts.parameter0,
        parameter1,
        cut.0,
        s.skip(2 + sampled.len() as int),
    );
    (head + sampled + grown.0, seq![TalaVifCall::AmpduLength { interface, length }], (grown.1, cut.1))
}

fn evaluate_counts<M: MacPipeMmio, V: TalaVifEffects>(mmio: &mut M, vif: &mut V, counts: TalaCounts) -> (decided: (
    u32,
    u32,
))
    ensures
        ({
            let t = trace_after(final(mmio).accesses(), old(mmio).accesses().len() as int);
            let v = final(vif).calls().skip(old(vif).calls().len() as int);
            let step = evaluate_step(counts, t, v);
            &&& final(mmio).accesses() == old(mmio).accesses() + step.0
            &&& final(vif).calls() == old(vif).calls() + step.1
            &&& decided == step.2
        }),
{
    reveal(evaluate_step);
    let ghost before = mmio.accesses();
    let ghost calls_before = vif.calls();
    let interface = counts.interface;
    let parameter1 = mmio.read_u32(MAC_ACCOUNTING_PARAMETER1);
    let penalty = mmio.read_u32(tala_stat_address(interface, TALA_PENALTY));
    let weighted_penalty = penalty.wrapping_mul(100);
    let weighted_total = counts.short_retries.wrapping_mul(counts.completed);
    let length = vif.ampdu_length(interface);
    let current = match length {
        Some(value) => value,
        None => 0,
    };
    let (next, minimum) = tala_reduction(
        (current & 0xff) as u32,
        weighted_total,
        weighted_penalty,
        parameter1,
        (counts.parameter0 >> 8u32) & 0xff,
    );
    let ghost headed = mmio.accesses();
    sample_congestion(mmio, interface);
    let ghost sampled = mmio.accesses();
    let grown = grow_or_hold(mmio, interface, weighted_total, weighted_penalty, counts.parameter0, parameter1, next);
    proof {
        let t = trace_after(mmio.accesses(), before.len() as int);
        let v = vif.calls().skip(calls_before.len() as int);
        let ts = trace_after(sampled, headed.len() as int);
        let tg = trace_after(mmio.accesses(), sampled.len() as int);
        assert(value_of(t[0]) == parameter1);
        assert(value_of(t[1]) == penalty);
        assert(v[0] == vif.calls()[calls_before.len() as int]);
        assert(length_answer(v) == length);
        assert(t.skip(2) =~= ts + tg);
        lemma_sample_extends(interface, ts, tg);
        assert(t.skip(2 + sample_step(interface, ts).len() as int) =~= tg);
        assert(mmio.accesses() =~= before + evaluate_step(counts, t, v).0);
        assert(vif.calls() =~= calls_before + evaluate_step(counts, t, v).1);
    }
    (grown, minimum)
}

/// Applying the evaluation, given the calls made: a length that is not
/// overridden is set to `next` kept between `minimum` and the maximum, and a
/// refusal stops everything; then the counters restart and the length in
/// force is reported. True when the length was refused.
pub open spec fn apply_step(counts: TalaCounts, next: u32, minimum: u32, v: Seq<TalaVifCall>) -> (
    Seq<MmioAccess>,
    Seq<TalaVifCall>,
    bool,
) {
    let interface = counts.interface;
    let accepted = set_answer(v);
    let set = if counts.overridden == 0 {
        seq![
            TalaVifCall::SetAmpduLength {
                interface,
                length: clamp_length(next, minimum, counts.parameter0 & 0xff) as u16,
                accepted,
            },
        ]
    } else {
        Seq::empty()
    };
    if counts.overridden == 0 && !accepted {
        (Seq::empty(), set, true)
    } else {
        let length = length_answer(v.skip(set.len() as int));
        (
            seq![
                wr32(tala_stat(interface, TALA_TRIES), 0),
                wr32(tala_stat(interface, TALA_PENALTY), 0),
                wr32(tala_stat(interface, TALA_FAILURE), 0),
                wr32(tala_stat(interface, TALA_SUCCESS), 0),
                wr32(TALA_LENGTH_REPORT, or_zero(length) as u32),
            ],
            set.push(TalaVifCall::AmpduLength { interface, length }),
            false,
        )
    }
}

fn apply_evaluation<M: MacPipeMmio, V: TalaVifEffects>(
    mmio: &mut M,
    vif: &mut V,
    counts: TalaCounts,
    next: u32,
    minimum: u32,
) -> (refused: bool)
    ensures
        ({
            let v = final(vif).calls().skip(old(vif).calls().len() as int);
            let step = apply_step(counts, next, minimum, v);
            &&& final(mmio).accesses() == old(mmio).accesses() + step.0
            &&& final(vif).calls() == old(vif).calls() + step.1
            &&& refused == step.2
        }),
{
    let ghost before = mmio.accesses();
    let ghost calls_before = vif.calls();
    let interface = counts.interface;
    let mut accepted = false;
    if counts.overridden == 0 {
        let maximum = counts.parameter0 & 0xff;
        let clamped = if next < minimum {
            minimum
        } else if next > maximum {
            maximum
        } else {
            next
        };
        accepted = vif.set_ampdu_length(interface, clamped as u16);
        if !accepted {
            proof {
                let v = vif.calls().skip(calls_before.len() as int);
                assert(v[0] == vif.calls()[calls_before.len() as int]);
                assert(mmio.accesses() =~= before + apply_step(counts, next, minimum, v).0);
                assert(vif.calls() =~= calls_before + apply_step(counts, next, minimum, v).1);
            }
            return true;
        }
    }
    let ghost set_calls = vif.calls();
    mmio.write_u32(tala_stat_address(interface, TALA_TRIES), 0);
    mmio.write_u32(tala_stat_address(interface, TALA_PENALTY), 0);
    mmio.write_u32(tala_stat_address(interface, TALA_FAILURE), 0);
    mmio.write_u32(tala_stat_address(interface, TALA_SUCCESS), 0);
    let length = vif.ampdu_length(interface);
    let reported = match length {
        Some(value) => value,
        None => 0,
    };
    mmio.write_u32(TALA_LENGTH_REPORT, reported as u32);
    proof {
        let v = vif.calls().skip(calls_before.len() as int);
        if counts.overridden == 0 {
            assert(v[0] == vif.calls()[calls_before.len() as int]);
            assert(set_answer(v) == accepted);
        }
        let k = set_calls.len() - calls_before.len();
        assert(v.skip(k)[0] == vif.calls()[set_calls.len() as int]);
        assert(length_answer(v.skip(k)) == length);
        assert(mmio.accesses() =~= before + apply_step(counts, next, minimum, v).0);
        assert(vif.calls() =~= calls_before + apply_step(counts, next, minimum, v).1);
    }
    false
}

proof fn lemma_record_extends(node: u32, interface: u8, t: Seq<MmioAccess>, e: Seq<MmioAccess>)
    requires
        record_step(node, interface, t).0.len() <= t.len(),
    ensures
        record_step(node, interface, t + e) == record_step(node, interface, t),
{
    reveal(record_step);
    let u = t + e;
    assert(u[0] == t[0]);
    let k: int = if value_of(t[0]) == 0 || value_of(t[0]) == 0x0b { 3 } else { 1 };
    if k == 3 {
        assert(u[1] == t[1]);
    }
    assert(u[k] == t[k] && u[k + 1] == t[k + 1] && u[k + 2] == t[k + 2] && u[k + 3] == t[k + 3]);
    assert(u[k + 4] == t[k + 4] && u[k + 5] == t[k + 5] && u[k + 7] == t[k + 7] && u[k + 9] == t[k + 9]);
    let completed = value_of(t[k]).wrapping_add(value_of(t[k + 1]));
    if completed < ((value_of(t[k + 9]) >> 16u32) % 256) * 200 {
        assert(u[k + 10] == t[k + 10]);
    }
}

proof fn lemma_count_extends(node: u32, t: Seq<MmioAccess>, e: Seq<MmioAccess>, v: Seq<TalaVifCall>, d: Seq<TalaVifCall>)
    requires
        count_step(node, t, v).0.len() <= t.len(),
        count_step(node, t, v).1.len() <= v.len(),
    ensures
        count_step(node, t + e, v + d) == count_step(node, t, v),
{
    reveal(count_step);
    let u = t + e;
    assert(u[0] == t[0] && u[1] == t[1]);
    if value_of(t[1]) != 0 {
        assert((v + d)[0] == v[0]);
    }
    let interface = value_of(t[0]) as u8;
    if !(value_of(t[1]) != 0 && or_zero(rts_answer(v)) >= TALA_RTS_LIMIT) {
        assert(u.skip(2) =~= t.skip(2) + e);
        lemma_record_extends(node, interface, t.skip(2), e);
    }
}

proof fn lemma_streak_extends(
    interface: u8,
    weighted_total: u32,
    weighted_penalty: u32,
    parameter0: u32,
    parameter1: u32,
    next: u32,
    t: Seq<MmioAccess>,
    e: Seq<MmioAccess>,
)
    requires
        streak_step(interface, weighted_total, weighted_penalty, parameter0, parameter1, next, t).0.len() <= t.len(),
    ensures
        streak_step(interface, weighted_total, weighted_penalty, parameter0, parameter1, next, t + e) == streak_step(
            interface,
            weighted_total,
            weighted_penalty,
            parameter0,
            parameter1,
            next,
            t,
        ),
{
    reveal(streak_step);
    let u = t + e;
    assert(u[0] == t[0]);
    if !(weighted_total.wrapping_mul(parameter1 & 0xff) >> 1u32 < weighted_penalty) {
        assert(u[1] == t[1]);
        if ((parameter0 >> 24u32) & 0x0f) <= (value_of(t[1]) as u8).wrapping_add(1) as u32 {
            assert(u[4] == t[4]);
        }
    }
}

proof fn lemma_evaluate_extends(
    counts: TalaCounts,
    t: Seq<MmioAccess>,
    e: Seq<MmioAccess>,
    v: Seq<TalaVifCall>,
    d: Seq<TalaVifCall>,
)
    requires
        evaluate_step(counts, t, v).0.len() <= t.len(),
        evaluate_step(counts, t, v).1.len() <= v.len(),
    ensures
        evaluate_step(counts, t + e, v + d) == evaluate_step(counts, t, v),
{
    reveal(evaluate_step);
    let u = t + e;
    assert(u[0] == t[0] && u[1] == t[1]);
    assert((v + d)[0] == v[0]);
    let interface = counts.interface;
    assert(u.skip(2) =~= t.skip(2) + e);
    lemma_sample_extends(interface, t.skip(2), e);
    let m = sample_step(interface, t.skip(2)).len() as int;
    assert(u.skip(2 + m) =~= t.skip(2 + m) + e);
    let weighted_penalty = value_of(t[1]).wrapping_mul(100);
    let weighted_total = counts.short_retries.wrapping_mul(counts.completed);
    let cut = tala_reduction_of(
        (or_zero(length_answer(v)) & 0xff) as u32,
        weighted_total,
        weighted_penalty,
        value_of(t[0]),
        (counts.parameter0 >> 8u32) & 0xff,
    );
    lemma_streak_extends(
        interface,
        weighted_total,
        weighted_penalty,
        counts.parameter0,
        value_of(t[0]),
        cut.0,
        t.skip(2 + m),
        e,
    );
}

proof fn lemma_apply_extends(
    counts: TalaCounts,
    next: u32,
    minimum: u32,
    v: Seq<TalaVifCall>,
    d: Seq<TalaVifCall>,
)
    requires
        apply_step(counts, next, minimum, v).1.len() <= v.len(),
    ensures
        apply_step(counts, next, minimum, v + d) == apply_step(counts, next, minimum, v),
{
    let w = v + d;
    if counts.overridden == 0 {
        assert(w[0] == v[0]);
        if set_answer(v) {
            assert(w.skip(1)[0] == v.skip(1)[0]);
        }
    } else {
        assert(w.skip(0)[0] == v.skip(0)[0]);
    }
}

/// A TALA update depends only on its own reads and calls.
pub proof fn lemma_tala_update_extends(
    node: u32,
    t: Seq<MmioAccess>,
    e: Seq<MmioAccess>,
    v: Seq<TalaVifCall>,
    d: Seq<TalaVifCall>,
)
    requires
        tala_update_step(node, t, v).0.len() <= t.len(),
        tala_update_step(node, t, v).1.len() <= v.len(),
    ensures
        tala_update_step(node, t + e, v + d) == tala_update_step(node, t, v),
{
    let counted = count_step(node, t, v);
    lemma_count_extends(node, t, e, v, d);
    if counted.2 is None {
        let t2 = t.skip(counted.0.len() as int);
        let v2 = v.skip(counted.1.len() as int);
        assert((t + e).skip(counted.0.len() as int) =~= t2 + e);
        assert((v + d).skip(counted.1.len() as int) =~= v2 + d);
        let evaluated = evaluate_step(counted.3, t2, v2);
        lemma_evaluate_extends(counted.3, t2, e, v2, d);
        let v3 = v.skip((counted.1.len() + evaluated.1.len()) as int);
        assert((v + d).skip((counted.1.len() + evaluated.1.len()) as int) =~= v3 + d);
        lemma_apply_extends(counted.3, evaluated.2.0, evaluated.2.1, v3, d);
    }
}

/// A TALA update of a completed frame, given the values read and the calls
/// made: counting, then, unless that stopped, evaluating and applying.
pub open spec fn tala_update_step(node: u32, t: Seq<MmioAccess>, v: Seq<TalaVifCall>) -> (
    Seq<MmioAccess>,
    Seq<TalaVifCall>,
    TalaUpdate,
) {
    let counted = count_step(node, t, v);
    match counted.2 {
        Some(outcome) => (counted.0, counted.1, outcome),
        None => {
            let evaluated = evaluate_step(counted.3, t.skip(counted.0.len() as int), v.skip(counted.1.len() as int));
            let applied = apply_step(
                counted.3,
                evaluated.2.0,
                evaluated.2.1,
                v.skip((counted.1.len() + evaluated.1.len()) as int),
            );
            (
                counted.0 + evaluated.0 + applied.0,
                counted.1 + evaluated.1 + applied.1,
                if applied.2 {
                    TalaUpdate::LengthRefused
                } else {
                    TalaUpdate::Evaluated
                },
            )
        },
    }
}

/// Adapts the A-MPDU length of the completed frame's interface: counts the
/// frame and, when the evaluation window is full or the penalty large, cuts
/// the length back by the penalty, samples congestion, grows or holds the
/// length, sets it within its bounds unless overridden, and restarts the
/// counters.
#[verifier::spinoff_prover]
#[verifier::rlimit(40)]
pub fn update_tala_for_completion<M: MacPipeMmio, V: TalaVifEffects>(
    mmio: &mut M,
    vif: &mut V,
    frame_node: FrameNodeAddress,
) -> (outcome: TalaUpdate)
    ensures
        ({
            let t = trace_after(final(mmio).accesses(), old(mmio).accesses().len() as int);
            let v = final(vif).calls().skip(old(vif).calls().len() as int);
            let step = tala_update_step(frame_node@, t, v);
            &&& final(mmio).accesses() == old(mmio).accesses() + step.0
            &&& final(vif).calls() == old(vif).calls() + step.1
            &&& outcome == step.2
        }),
{
    let ghost before = mmio.accesses();
    let ghost calls_before = vif.calls();
    let (stopped, counts) = count_completion(mmio, vif, frame_node);
    let ghost counted = mmio.accesses();
    let ghost counted_calls = vif.calls();
    if let Some(outcome) = stopped {
        return outcome;
    }
    let (next, minimum) = evaluate_counts(mmio, vif, counts);
    let ghost evaluated = mmio.accesses();
    let ghost evaluated_calls = vif.calls();
    let refused = apply_evaluation(mmio, vif, counts, next, minimum);
    proof {
        let t = trace_after(mmio.accesses(), before.len() as int);
        let v = vif.calls().skip(calls_before.len() as int);
        let t1 = trace_after(counted, before.len() as int);
        let t2 = trace_after(evaluated, counted.len() as int);
        let t3 = trace_after(mmio.accesses(), evaluated.len() as int);
        let v1 = counted_calls.skip(calls_before.len() as int);
        let v2 = evaluated_calls.skip(counted_calls.len() as int);
        let v3 = vif.calls().skip(evaluated_calls.len() as int);
        assert(t =~= t1 + (t2 + t3));
        assert(v =~= v1 + (v2 + v3));
        let c = count_step(frame_node@, t1, v1);
        assert(counted =~= before + c.0);
        assert(v1 =~= c.1);
        lemma_count_extends(frame_node@, t1, t2 + t3, v1, v2 + v3);
        assert(t.skip(c.0.len() as int) =~= t2 + t3);
        assert(v.skip(c.1.len() as int) =~= v2 + v3);
        let ev = evaluate_step(counts, t2, v2);
        assert(evaluated =~= counted + ev.0);
        assert(v2 =~= ev.1);
        lemma_evaluate_extends(counts, t2, t3, v2, v3);
        assert(v.skip((c.1.len() + ev.1.len()) as int) =~= v3);
        assert(mmio.accesses() =~= before + tala_update_step(frame_node@, t, v).0);
        assert(vif.calls() =~= calls_before + tala_update_step(frame_node@, t, v).1);
    }
    if refused {
        TalaUpdate::LengthRefused
    } else {
        TalaUpdate::Evaluated
    }
}

/// When the penalty does not outweigh half of the share the last threshold
/// tolerates, the growth streak goes up by one; once it reaches the streak
/// the first parameter word asks for, the length handed on is the cut
/// length plus one (modulo 256). Otherwise the cut length is handed on.
pub proof fn lemma_good_streak_grows_length(
    interface: u8,
    weighted_total: u32,
    weighted_penalty: u32,
    parameter0: u32,
    parameter1: u32,
    next: u32,
    s: Seq<MmioAccess>,
)
    ensures
        ({
            let penalized = weighted_total.wrapping_mul(parameter1 & 0xff) >> 1u32 < weighted_penalty;
            let streak = (value_of(s[1]) as u8 as int + 1) % 256;
            let grown = streak_step(interface, weighted_total, weighted_penalty, parameter0, parameter1, next, s).1;
            &&& !penalized && (parameter0 >> 24u32) & 0x0f <= streak ==> grown == (next as int + 1) % 256
            &&& (penalized || streak < (parameter0 >> 24u32) & 0x0f) ==> grown == next
        }),
{
    reveal(streak_step);
    let streak = value_of(s[1]) as u8;
    assert(streak.wrapping_add(1) as int == (streak as int + 1) % 256);
    if next == 0xffff_ffff {
        assert(next.wrapping_add(1) == 0);
    } else {
        assert(next.wrapping_add(1) == next + 1);
    }
}


/// The length set lies between the minimum and the maximum when they are
/// ordered, and is the proposed length itself when that already does.
pub proof fn lemma_clamped_length_in_bounds(next: u32, minimum: u32, maximum: u32)
    ensures
        minimum <= maximum ==> minimum <= clamp_length(next, minimum, maximum) <= maximum,
        minimum <= next <= maximum ==> clamp_length(next, minimum, maximum) == next,
{
}

} // verus!
