//! Pure decisions of ordinary TX status, pipe watchdog, status accounting,
//! slot publication and bounded retry.

use vstd::prelude::*;
use crate::registers::{slot_record_address, slot_record_of};

verus! {

#[derive(Clone, Copy, Debug, PartialEq, Eq, Structural)]
pub struct OrdinaryTxPipeStatusInput {
    pub pipe_active: bool,
    pub expected_status: u8,
    pub slot_kind: u8,
    pub slot_state: u8,
    pub global_busy: bool,
    pub pipe_current: u8,
    pub pipe_last: u8,
    pub pipe_status: u8,
}

#[derive(Clone, Copy, Debug, PartialEq, Eq, Structural)]
pub enum OrdinaryTxPipeCursorPlan {
    AdvanceCurrent { next_current: u8 },
    Recycle { next_head: u8 },
}

#[derive(Clone, Copy, Debug, PartialEq, Eq, Structural)]
pub enum OrdinaryTxPipeStatusPlan {
    Ineligible,
    SuppressedAfterSlotMark,
    AdvanceWithoutCompletion { initialize_pipe_status: bool, next_current: u8 },
    Complete { initialize_pipe_status: bool, cursor: OrdinaryTxPipeCursorPlan },
}

/// Ordinary TX status: a matching status on an armed pipe's started slot
/// either is suppressed (pipe globally busy), advances a kind-2 slot, or
/// completes the slot and advances or recycles the pipe cursor.
pub open spec fn ordinary_status_plan(input: OrdinaryTxPipeStatusInput, status: u8)
    -> OrdinaryTxPipeStatusPlan {
    if !input.pipe_active || input.expected_status != status || input.slot_state != 3 {
        OrdinaryTxPipeStatusPlan::Ineligible
    } else if input.global_busy {
        OrdinaryTxPipeStatusPlan::SuppressedAfterSlotMark
    } else {
        let initialize = input.pipe_status == 0 || input.pipe_status >= 0x80;
        let next_current = ((input.pipe_current + 1) % 256) as u8 & 3;
        if input.slot_kind == 2 {
            OrdinaryTxPipeStatusPlan::AdvanceWithoutCompletion {
                initialize_pipe_status: initialize,
                next_current,
            }
        } else if input.pipe_current == input.pipe_last {
            OrdinaryTxPipeStatusPlan::Complete {
                initialize_pipe_status: initialize,
                cursor: OrdinaryTxPipeCursorPlan::Recycle {
                    next_head: ((input.pipe_last + 1) % 256) as u8 & 3,
                },
            }
        } else {
            OrdinaryTxPipeStatusPlan::Complete {
                initialize_pipe_status: initialize,
                cursor: OrdinaryTxPipeCursorPlan::AdvanceCurrent { next_current },
            }
        }
    }
}

pub fn plan_ordinary_tx_pipe_status(input: OrdinaryTxPipeStatusInput, status: u8) -> (plan:
    OrdinaryTxPipeStatusPlan)
    ensures
        plan == ordinary_status_plan(input, status),
{
    if !input.pipe_active || input.expected_status != status || input.slot_state != 3 {
        return OrdinaryTxPipeStatusPlan::Ineligible;
    }
    if input.global_busy {
        return OrdinaryTxPipeStatusPlan::SuppressedAfterSlotMark;
    }
    // The pipe status byte is signed: values below one reinitialize it.
    let initialize_pipe_status = input.pipe_status == 0 || input.pipe_status >= 0x80;
    let next_current = input.pipe_current.wrapping_add(1) & 3;
    if input.slot_kind == 2 {
        return OrdinaryTxPipeStatusPlan::AdvanceWithoutCompletion {
            initialize_pipe_status,
            next_current,
        };
    }
    let cursor = if input.pipe_current == input.pipe_last {
        OrdinaryTxPipeCursorPlan::Recycle { next_head: input.pipe_last.wrapping_add(1) & 3 }
    } else {
        OrdinaryTxPipeCursorPlan::AdvanceCurrent { next_current }
    };
    OrdinaryTxPipeStatusPlan::Complete { initialize_pipe_status, cursor }
}

/// Main-loop passes between hardware-timer samples.
pub const WATCHDOG_TIMER_SAMPLE_DIVIDER: u8 = 16;

/// One pass of the sample divider: the countdown goes down by one, and when
/// it was already zero the timer is due and the countdown restarts at 15.
pub open spec fn divider_step(countdown: u8) -> (u8, bool) {
    if countdown == 0 {
        ((WATCHDOG_TIMER_SAMPLE_DIVIDER - 1) as u8, true)
    } else {
        ((countdown - 1) as u8, false)
    }
}

/// The countdown after `passes` passes.
pub open spec fn divider_after(countdown: u8, passes: nat) -> u8
    decreases passes,
{
    if passes == 0 {
        countdown
    } else {
        divider_step(divider_after(countdown, (passes - 1) as nat)).0
    }
}

/// Next countdown and whether the timer is due on this pass.
pub fn advance_watchdog_timer_divider(countdown: u8) -> (next: (u8, bool))
    ensures
        next == divider_step(countdown),
{
    if countdown == 0 {
        (WATCHDOG_TIMER_SAMPLE_DIVIDER - 1, true)
    } else {
        (countdown - 1, false)
    }
}

proof fn lemma_divider_after(countdown: u8, passes: nat)
    requires
        countdown < 16,
    ensures
        divider_after(countdown, passes) == ((countdown - passes) % 16) as u8,
    decreases passes,
{
    if passes > 0 {
        lemma_divider_after(countdown, (passes - 1) as nat);
        let before = (countdown - (passes - 1)) % 16;
        assert(0 <= before < 16);
        if before == 0 {
            assert((countdown - passes) % 16 == 15) by (nonlinear_arith)
                requires
                    (countdown - (passes - 1)) % 16 == 0,
            ;
        } else {
            assert((countdown - passes) % 16 == before - 1) by (nonlinear_arith)
                requires
                    before == (countdown - (passes - 1)) % 16,
                    0 < before < 16,
            ;
        }
    }
}

/// Over any sixteen consecutive passes the divider is due exactly once, and
/// after sixteen passes it is back where it started.
pub proof fn lemma_watchdog_divider_period(countdown: u8)
    requires
        countdown < 16,
    ensures
        forall|k: nat| k < 16 ==> (#[trigger] divider_step(divider_after(countdown, k)).1 <==> k == countdown),
        divider_after(countdown, 16) == countdown,
{
    assert forall|k: nat| k < 16 implies (#[trigger] divider_step(divider_after(countdown, k)).1 <==> k
        == countdown) by {
        lemma_divider_after(countdown, k);
        assert(((countdown - k) % 16 == 0) <==> k == countdown) by (nonlinear_arith)
            requires
                countdown < 16,
                k < 16,
        ;
    }
    lemma_divider_after(countdown, 16);
    assert((countdown - 16) % 16 == countdown) by (nonlinear_arith)
        requires
            countdown < 16,
    ;
}

#[derive(Clone, Copy, Debug, PartialEq, Eq, Structural)]
pub enum PipeWatchdogAction {
    /// Not programmed, or not armed: nothing to supervise.
    Idle,
    /// Healthy; the counter is decremented.
    Tick,
    /// One or two ticks from expiry: nudge the pipe to drain.
    Nudge,
    /// Armed without completing for the whole watchdog window.
    Expired,
}

/// Per-pipe watchdog decision on the signed counter: a pipe that is not
/// both programmed and armed is idle; otherwise counters above 2 tick, 1 and
/// 2 nudge, and anything else has expired.
pub open spec fn pipe_watchdog_action(programmed: bool, armed: bool, counter: i8) -> PipeWatchdogAction {
    if !programmed || !armed {
        PipeWatchdogAction::Idle
    } else if counter > 2 {
        PipeWatchdogAction::Tick
    } else if counter > 0 {
        PipeWatchdogAction::Nudge
    } else {
        PipeWatchdogAction::Expired
    }
}

/// Per-pipe watchdog decision on the signed counter.
pub fn plan_pipe_watchdog(programmed: bool, armed: bool, counter: i8) -> (action:
    PipeWatchdogAction)
    ensures
        action == pipe_watchdog_action(programmed, armed, counter),
{
    if !programmed || !armed {
        return PipeWatchdogAction::Idle;
    }
    if counter > 2 {
        PipeWatchdogAction::Tick
    } else if counter > 0 {
        PipeWatchdogAction::Nudge
    } else {
        PipeWatchdogAction::Expired
    }
}

#[derive(Clone, Copy, Debug, PartialEq, Eq, Structural)]
pub struct MacTxStatusAccountingPlan {
    pub increment_range_counter: bool,
    pub specific_counter: Option<u32>,
    pub increment_total_counter: bool,
    pub service_status_0e_side_effects: bool,
}

/// Statistics touched by one TX status before ordinary dispatch.
pub fn plan_mac_tx_status_accounting(status: u8) -> (plan: MacTxStatusAccountingPlan)
    ensures
        plan.increment_range_counter == (6 <= status < 0x19),
        plan.specific_counter == if status == 0 {
            Some(0xfff0_2e40u32)
        } else if status == 3 {
            Some(0xfff0_1a90u32)
        } else if status == 4 {
            Some(0xfff0_1a94u32)
        } else {
            None
        },
        plan.increment_total_counter == (status == 3 || status == 4),
        plan.service_status_0e_side_effects == (status == 0x0e),
{
    let (specific_counter, increment_total_counter) = match status {
        0 => (Some(0xfff0_2e40u32), false),
        3 => (Some(0xfff0_1a90u32), true),
        4 => (Some(0xfff0_1a94u32), true),
        _ => (None, false),
    };
    MacTxStatusAccountingPlan {
        increment_range_counter: status >= 6 && status < 0x19,
        specific_counter,
        increment_total_counter,
        service_status_0e_side_effects: status == 0x0e,
    }
}

/// A kind-1 slot in state 4 is owned by the aggregate retry command.
pub fn aggregate_retry_command_owned(slot_kind: u8, slot_state: u8) -> (owned: bool)
    ensures
        owned == (slot_kind == 1 && slot_state == 4),
{
    slot_kind == 1 && slot_state == 4
}

/// An empty slot may be retired unless a retry still owns its command.
pub fn empty_retirement_allowed(frame_node: u32, slot_kind: u8, slot_state: u8) -> (allowed: bool)
    ensures
        allowed == (frame_node == 0 && !(slot_kind == 1 && slot_state == 4)),
{
    frame_node == 0 && !aggregate_retry_command_owned(slot_kind, slot_state)
}

/// The software producer equals the hardware ring cursor in a packed
/// cursor diagnostic (nibble 1 against nibble 6).
pub fn pipe_cursor_invariant_holds(packed: u32) -> (holds: bool)
    ensures
        holds == ((packed >> 4) & 0x0f == (packed >> 24) & 0x0f),
{
    (packed >> 4) & 0x0f == (packed >> 24) & 0x0f
}

/// Index of one pipe slot in per-slot tables of sixteen entries.
pub fn pipe_slot_state_index(pipe: u8, slot: u8) -> (index: Option<usize>)
    ensures
        index == if pipe < 4 && slot < 4 {
            Some((pipe * 4 + slot) as usize)
        } else {
            None
        },
{
    if pipe < 4 && slot < 4 {
        Some(pipe as usize * 4 + slot as usize)
    } else {
        None
    }
}

/// Retry-state index of the slot of pipe `pipe` whose record address is
/// `slot_raw`, when one of its four slots has that address.
pub open spec fn retained_slot_index_of(pipe: u8, slot_raw: u32) -> Option<usize> {
    if pipe >= 4 {
        None
    } else if slot_raw == slot_record_of(pipe as int, 0) {
        Some((pipe * 4) as usize)
    } else if slot_raw == slot_record_of(pipe as int, 1) {
        Some((pipe * 4 + 1) as usize)
    } else if slot_raw == slot_record_of(pipe as int, 2) {
        Some((pipe * 4 + 2) as usize)
    } else if slot_raw == slot_record_of(pipe as int, 3) {
        Some((pipe * 4 + 3) as usize)
    } else {
        None
    }
}

/// Finds the retry-state index of a retained slot from its record address.
pub fn retained_slot_state_index(pipe: u8, slot_raw: u32) -> (index: Option<usize>)
    ensures
        index == retained_slot_index_of(pipe, slot_raw),
{
    if pipe >= 4 {
        return None;
    }
    let mut slot: u8 = 0;
    while slot < 4
        invariant
            pipe < 4,
            slot <= 4,
            forall|s: int| 0 <= s < slot ==> slot_record_of(pipe as int, s) != slot_raw,
        decreases 4 - slot,
    {
        if slot_record_address(pipe, slot) == slot_raw {
            return Some(pipe as usize * 4 + slot as usize);
        }
        slot = slot + 1;
    }
    None
}

/// Slot order of an A-MPDU publication: the head slot first, then the
/// remaining slots in increasing order. Unused positions hold `usize::MAX`.
pub open spec fn ampdu_indices_of(slot: int, member_count: int) -> Seq<usize> {
    let others = Seq::new(4, |i: int| i).filter(|i: int| i != slot);
    Seq::new(
        4,
        |p: int|
            if p == 0 {
                slot as usize
            } else if p < member_count {
                others[p - 1] as usize
            } else {
                usize::MAX
            },
    )
}

pub fn ampdu_publication_indices(slot: u8, member_count: usize) -> (indices: Option<[usize; 4]>)
    ensures
        indices is Some <==> (slot < 4 && 2 <= member_count <= 4),
        indices matches Some(ix) ==> (forall|p: int|
            0 <= p < 4 ==> #[trigger] ix[p] == if p == 0 {
                slot as usize
            } else if p < member_count {
                (if p - 1 < slot {
                    p - 1
                } else {
                    p
                }) as usize
            } else {
                usize::MAX
            }),
{
    if slot >= 4 || member_count < 2 || member_count > 4 {
        return None;
    }
    let mut indices = [usize::MAX; 4];
    indices[0] = slot as usize;
    let mut position: usize = 1;
    let mut index: usize = 0;
    while index < 4 && position < member_count
        invariant
            slot < 4,
            2 <= member_count <= 4,
            index <= 4,
            position == 1 + (if index <= slot {
                index as int
            } else {
                index - 1
            }),
            position <= member_count,
            forall|p: int|
                0 <= p < 4 ==> #[trigger] indices[p] == if p == 0 {
                    slot as usize
                } else if p < position {
                    (if p - 1 < slot {
                        p - 1
                    } else {
                        p
                    }) as usize
                } else {
                    usize::MAX
                },
        decreases 4 - index,
    {
        if index != slot as usize {
            indices[position] = index;
            position += 1;
        }
        index += 1;
    }
    Some(indices)
}

/// Where a staged frame sits in a pipe batch.
#[derive(Clone, Copy, Debug, PartialEq, Eq, Structural)]
pub enum BatchPosition {
    Only,
    First,
    Middle,
    Last,
}

impl BatchPosition {
    /// The current-slot cursor is set once, before the publish loop.
    pub fn sets_current(self) -> (sets: bool)
        ensures
            sets == (self == BatchPosition::Only || self == BatchPosition::First),
    {
        match self {
            BatchPosition::Only | BatchPosition::First => true,
            _ => false,
        }
    }

    /// The pipe is armed and GO written once, after the publish loop.
    pub fn arms(self) -> (arms: bool)
        ensures
            arms == (self == BatchPosition::Only || self == BatchPosition::Last),
    {
        match self {
            BatchPosition::Only | BatchPosition::Last => true,
            _ => false,
        }
    }
}

/// Number of occupied slots.
pub open spec fn occupied_count(occupied: [bool; 4]) -> int {
    (if occupied[0] {
        1int
    } else {
        0
    }) + (if occupied[1] {
        1int
    } else {
        0
    }) + (if occupied[2] {
        1int
    } else {
        0
    }) + (if occupied[3] {
        1int
    } else {
        0
    })
}

/// Registering `slot` is allowed when it is free and the batch shape fits:
/// the first (or only) frame needs an empty pipe, and the last frame of a
/// two-frame batch needs exactly one earlier frame.
pub open spec fn registration_allowed(occupied: [bool; 4], batch: BatchPosition, slot: u8) -> bool {
    slot < 4 && !occupied[slot as int] && match batch {
        BatchPosition::Only | BatchPosition::First => occupied_count(occupied) == 0,
        BatchPosition::Middle => false,
        BatchPosition::Last => occupied_count(occupied) == 1,
    }
}

pub fn publication_registration_allowed(occupied: [bool; 4], batch: BatchPosition, slot: u8) -> (
    allowed: bool)
    ensures
        allowed == registration_allowed(occupied, batch, slot),
{
    if slot >= 4 || occupied[slot as usize] {
        return false;
    }
    let count: u8 = (if occupied[0] {
        1u8
    } else {
        0
    }) + (if occupied[1] {
        1u8
    } else {
        0
    }) + (if occupied[2] {
        1u8
    } else {
        0
    }) + (if occupied[3] {
        1u8
    } else {
        0
    });
    match batch {
        BatchPosition::Only | BatchPosition::First => count == 0,
        BatchPosition::Middle => false,
        BatchPosition::Last => count == 1,
    }
}

#[derive(Clone, Copy, Debug, PartialEq, Eq, Structural)]
pub enum SingleTxRetryDecision {
    /// Another bounded attempt: the backend rebuilds, re-arms and acknowledges.
    Rearm,
    /// The received BlockAck confirms every tracked aggregate member.
    CompleteSuccess,
    /// A kind-1 transmission is waiting for its BlockAck bitmap.
    AwaitBlockAck,
    /// Complete the frame or aggregate with give-up status 0x0b.
    GiveUp,
}

/// One retry decision on `attempts` re-arms so far under a bound of
/// `max_retries`: re-arm and count it while below the bound, otherwise give
/// up without counting.
pub open spec fn retry_step(attempts: u8, max_retries: u8) -> (SingleTxRetryDecision, u8) {
    if attempts >= max_retries {
        (SingleTxRetryDecision::GiveUp, attempts)
    } else {
        (SingleTxRetryDecision::Rearm, (attempts + 1) as u8)
    }
}

/// The re-arm count after `decisions` decisions.
pub open spec fn retry_attempts_after(attempts: u8, max_retries: u8, decisions: nat) -> u8
    decreases decisions,
{
    if decisions == 0 {
        attempts
    } else {
        retry_step(retry_attempts_after(attempts, max_retries, (decisions - 1) as nat), max_retries).1
    }
}

/// Bounded retry policy: `max_retries` counts re-arms after the original
/// transmission.
#[derive(Clone, Copy, Debug, PartialEq, Eq, Structural)]
pub struct BoundedSingleTxRetry {
    attempts: u8,
    max_retries: u8,
}

impl BoundedSingleTxRetry {
    /// Re-arms granted so far.
    pub closed spec fn attempt_count(self) -> u8 {
        self.attempts
    }

    /// Most re-arms granted.
    pub closed spec fn retry_limit(self) -> u8 {
        self.max_retries
    }

    /// The same policy with one more re-arm granted (saturating).
    pub closed spec fn rearmed(self) -> Self {
        BoundedSingleTxRetry {
            attempts: if self.attempts == 255 {
                255
            } else {
                (self.attempts + 1) as u8
            },
            max_retries: self.max_retries,
        }
    }

    /// What one decision gives: a re-arm, counted, while below the bound;
    /// otherwise a give-up, uncounted.
    pub closed spec fn decided(self) -> (SingleTxRetryDecision, Self) {
        if self.attempts >= self.max_retries {
            (SingleTxRetryDecision::GiveUp, self)
        } else {
            (SingleTxRetryDecision::Rearm, self.rearmed())
        }
    }

    /// The same policy with no re-arm granted yet.
    pub closed spec fn restarted(self) -> Self {
        BoundedSingleTxRetry { attempts: 0, max_retries: self.max_retries }
    }

    pub fn new(max_retries: u8) -> (retry: Self)
        ensures
            retry.attempt_count() == 0,
            retry.retry_limit() == max_retries,
    {
        BoundedSingleTxRetry { attempts: 0, max_retries }
    }

    pub fn attempts(self) -> (attempts: u8)
        ensures
            attempts == self.attempt_count(),
    {
        self.attempts
    }

    /// Re-arm while attempts remain, counting the re-arm; otherwise give up.
    pub fn decide(&mut self) -> (decision: SingleTxRetryDecision)
        ensures
            final(self).retry_limit() == old(self).retry_limit(),
            (decision, final(self).attempt_count()) == retry_step(
                old(self).attempt_count(),
                old(self).retry_limit(),
            ),
            (decision, *final(self)) == old(self).decided(),
    {
        if self.attempts >= self.max_retries {
            SingleTxRetryDecision::GiveUp
        } else {
            self.record_rearm();
            SingleTxRetryDecision::Rearm
        }
    }

    pub(crate) fn record_rearm(&mut self)
        ensures
            *final(self) == old(self).rearmed(),
    {
        self.attempts = self.attempts.saturating_add(1);
    }

    pub fn reset(&mut self)
        ensures
            *final(self) == old(self).restarted(),
            final(self).attempt_count() == 0,
            final(self).retry_limit() == old(self).retry_limit(),
    {
        self.attempts = 0;
    }
}

/// Starting within the bound, `n` decisions leave `min(attempts + n,
/// max_retries)` re-arms: re-arms are granted until the bound is reached and
/// never beyond it, and from then on every decision gives up.
pub proof fn lemma_retry_bound(attempts: u8, max_retries: u8, n: nat)
    requires
        attempts <= max_retries,
    ensures
        retry_attempts_after(attempts, max_retries, n) == if attempts + n < max_retries {
            attempts + n
        } else {
            max_retries as int
        },
        retry_step(retry_attempts_after(attempts, max_retries, n), max_retries).0 == if attempts + n
            < max_retries {
            SingleTxRetryDecision::Rearm
        } else {
            SingleTxRetryDecision::GiveUp
        },
    decreases n,
{
    if n > 0 {
        lemma_retry_bound(attempts, max_retries, (n - 1) as nat);
    }
}

/// Host-visible WSM status of an internal completion status.
pub fn wsm_status_from_internal(status: u16) -> (wsm: u32)
    ensures
        wsm == match status {
            0 => 0u32,
            1 => 1,
            2 => 2,
            8 => 13,
            10 => 7,
            11 => 6,
            12 => 8,
            16 => 9,
            17 => 10,
            19 => 5,
            21 => 4,
            22 => 11,
            23 => 14,
            24 => 15,
            _ => 1,
        },
{
    match status {
        0 => 0,
        1 => 1,
        2 => 2,
        8 => 13,
        10 => 7,
        11 => 6,
        12 => 8,
        16 => 9,
        17 => 10,
        19 => 5,
        21 => 4,
        22 => 11,
        23 => 14,
        24 => 15,
        _ => 1,
    }
}

/// A configured publication bisect stage matches only its own nonzero stage.
pub fn publication_bisect_matches(configured: u8, reached: u8) -> (matches: bool)
    ensures
        matches == (configured != 0 && configured == reached),
{
    configured != 0 && configured == reached
}

/// Value of a string of ASCII decimal digits.
pub open spec fn decimal_value(digits: Seq<u8>) -> int
    decreases digits.len(),
{
    if digits.len() == 0 {
        0
    } else {
        decimal_value(digits.drop_last()) * 10 + (digits.last() - 48)
    }
}

/// A string of decimal digit characters, read as bytes.
pub open spec fn digit_bytes(value: Seq<char>) -> Seq<u8> {
    value.map_values(|c: char| c as u8)
}

/// Every character is a decimal digit.
pub open spec fn all_decimal_digits(value: Seq<char>) -> bool {
    forall|i: int| 0 <= i < value.len() ==> '0' <= #[trigger] value[i] <= '9'
}

proof fn lemma_decimal_value_nonnegative(digits: Seq<u8>)
    requires
        forall|k: int| 0 <= k < digits.len() ==> 48 <= #[trigger] digits[k] <= 57,
    ensures
        decimal_value(digits) >= 0,
    decreases digits.len(),
{
    if digits.len() > 0 {
        lemma_decimal_value_nonnegative(digits.drop_last());
    }
}

proof fn lemma_decimal_prefix_bounded(digits: Seq<u8>, i: int)
    requires
        0 <= i <= digits.len(),
        forall|k: int| 0 <= k < digits.len() ==> 48 <= #[trigger] digits[k] <= 57,
    ensures
        decimal_value(digits.subrange(0, i)) <= decimal_value(digits),
    decreases digits.len(),
{
    if i == digits.len() {
        assert(digits.subrange(0, i) =~= digits);
    } else {
        let shorter = digits.drop_last();
        lemma_decimal_prefix_bounded(shorter, i);
        assert(shorter.subrange(0, i) =~= digits.subrange(0, i));
        lemma_decimal_value_nonnegative(shorter);
    }
}

/// Value of a decimal digit string; the value must fit in sixteen bits.
pub fn parse_decimal_u16(value: &str) -> (result: u16)
    requires
        all_decimal_digits(value@),
        decimal_value(digit_bytes(value@)) <= u16::MAX,
    ensures
        result == decimal_value(digit_bytes(value@)),
{
    let length = value.unicode_len();
    let mut result: u16 = 0;
    let mut index: usize = 0;
    let ghost digits = digit_bytes(value@);
    assert forall|k: int| 0 <= k < digits.len() implies 48 <= #[trigger] digits[k] <= 57 by {
        assert('0' <= value@[k] <= '9');
    }
    while index < length
        invariant
            length == value@.len(),
            index <= length,
            digits == digit_bytes(value@),
            all_decimal_digits(value@),
            forall|k: int| 0 <= k < digits.len() ==> 48 <= #[trigger] digits[k] <= 57,
            decimal_value(digits) <= u16::MAX,
            result == decimal_value(digits.subrange(0, index as int)),
        decreases length - index,
    {
        let character = value.get_char(index);
        assert('0' <= value@[index as int] <= '9');
        let digit: u8 = (character as u8) - 48;
        proof {
            let prefix = digits.subrange(0, index as int + 1);
            assert(prefix.drop_last() =~= digits.subrange(0, index as int));
            lemma_decimal_prefix_bounded(digits, index as int + 1);
        }
        result = result * 10 + digit as u16;
        index += 1;
    }
    assert(digits.subrange(0, length as int) =~= digits);
    result
}

/// Value of a decimal digit string, kept to its low eight bits; the value
/// must fit in sixteen bits.
pub fn parse_decimal_u8(value: &str) -> (result: u8)
    requires
        all_decimal_digits(value@),
        decimal_value(digit_bytes(value@)) <= u16::MAX,
    ensures
        result == decimal_value(digit_bytes(value@)) % 0x100,
{
    let wide = parse_decimal_u16(value);
    assert(wide as u8 == wide % 0x100) by (bit_vector);
    wide as u8
}

/// Diagnostic word of the probe experiment whose runtime holds
/// `diagnostic`.
pub fn probe_experiment_diagnostic_word(diagnostic: u16) -> (word: u16)
    ensures
        word == diagnostic,
{
    diagnostic
}

/// Diagnostic value of the probe experiment whose runtime holds
/// `diagnostic` and has completed `completed_count` frames: the diagnostic
/// word in the low half, the count above it (its low sixteen bits).
pub fn probe_experiment_diagnostic_value(diagnostic: u16, completed_count: u32) -> (value: u32)
    ensures
        value == (diagnostic as u32) | (completed_count << 16u32),
        value % 0x10000 == diagnostic as u32,
        value / 0x10000 == completed_count % 0x10000,
{
    let value = (diagnostic as u32) | (completed_count << 16u32);
    assert(value % 0x10000 == diagnostic as u32 && value / 0x10000 == completed_count % 0x10000) by (bit_vector)
        requires
            value == (diagnostic as u32) | (completed_count << 16u32),
    ;
    value
}

/// A slot holds the expected single frame: the same frame node, slot kind
/// 0, and the expected frame kind.
pub fn single_frame_slot_matches(
    slot_frame_node: u32,
    expected_frame_node: u32,
    slot_kind: u8,
    slot_frame_kind: u8,
    frame_kind: u8,
) -> (matches: bool)
    ensures
        matches == (slot_frame_node == expected_frame_node && slot_kind == 0 && slot_frame_kind
            == frame_kind),
{
    slot_frame_node == expected_frame_node && slot_kind == 0 && slot_frame_kind == frame_kind
}

/// The empty-FIFO drain tail runs when its request bit 1 is set and either
/// the MAC hardware or the pipes are idle; it then clears the request and
/// sets bit 2.
pub fn mac_drain_tail_transition(control: u8, hardware_idle: bool, pipes_idle: bool) -> (next:
    Option<u8>)
    ensures
        next == if control & 2 != 0 && (hardware_idle || pipes_idle) {
            Some(((control & 0xfd) | 4) as u8)
        } else {
            None::<u8>
        },
{
    if control & 2 != 0 && (hardware_idle || pipes_idle) {
        Some((control & 0xfd) | 4)
    } else {
        None
    }
}

/// A completed context goes through the completion drain unless it is a
/// class-0 data frame (frame-control bit 3) while the special gate is set.
pub fn completion_drain_required(
    context_completion_class: u8,
    frame_control: u16,
    special_gate_nonzero: bool,
) -> (required: bool)
    ensures
        required == (context_completion_class != 0 || frame_control & 8 == 0
            || !special_gate_nonzero),
{
    context_completion_class != 0 || frame_control & 8 == 0 || !special_gate_nonzero
}

/// Offset of the retry limit in an interface's completion record.
pub fn completion_retry_limit_offset(alternate: bool) -> (offset: usize)
    ensures
        offset == if alternate {
            0x115usize
        } else {
            0x114usize
        },
{
    if alternate {
        0x115
    } else {
        0x114
    }
}

/// Arming reloads the counter to 5. Counting down from there, a programmed,
/// armed pipe ticks or nudges at 5 to 1 and expires at 0, so one that never
/// completes expires on the sixth sample.
pub proof fn lemma_watchdog_expires_after_reload()
    ensures
        forall|k: int|
            0 <= k < 5 ==> #[trigger] pipe_watchdog_action(true, true, (5 - k) as i8)
                != PipeWatchdogAction::Expired,
        pipe_watchdog_action(true, true, 5) == PipeWatchdogAction::Tick,
        pipe_watchdog_action(true, true, 0) == PipeWatchdogAction::Expired,
{
}

} // verus!
