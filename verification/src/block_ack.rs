//! Compressed BlockAck bookkeeping for small A-MPDUs.
//!
//! A BlockAck carries a 12-bit starting sequence number and a 64-bit bitmap.
//! Every aggregate member is classified against that window, observations of
//! one aggregate are merged monotonically (an acknowledgement is sticky), and
//! the merged states are turned into per-member actions.

use vstd::prelude::*;

verus! {

/// Largest aggregate depth planned by the experimental A-MPDU path.
pub const MAX_AMPDU_DEPTH: usize = 4;

#[derive(Clone, Copy, Debug, PartialEq, Eq, Structural)]
pub enum BlockAckMemberState {
    Acknowledged,
    Missing,
    OutsideWindow,
}

#[derive(Clone, Copy, Debug, PartialEq, Eq, Structural)]
pub enum BlockAckMemberAction {
    Confirm,
    Retry,
    GiveUp,
}

/// Distance of a member sequence number from the window start, modulo 4096.
pub open spec fn window_offset(start_sequence: u16, sequence: u16) -> int {
    (((sequence & 0x0fff) as int) - ((start_sequence & 0x0fff) as int)) % 4096
}

/// State of one member sequence number against one BlockAck bitmap.
pub open spec fn member_state(start_sequence: u16, bitmap: u64, sequence: u16) -> BlockAckMemberState {
    let delta = window_offset(start_sequence, sequence);
    if delta >= 64 {
        BlockAckMemberState::OutsideWindow
    } else if (bitmap >> (delta as u64)) & 1 == 1 {
        BlockAckMemberState::Acknowledged
    } else {
        BlockAckMemberState::Missing
    }
}

/// Merge of two observations of the same member: acknowledged wins, then
/// missing, then outside-window.
pub open spec fn merged_state(
    previous: Option<BlockAckMemberState>,
    current: BlockAckMemberState,
) -> BlockAckMemberState {
    if previous == Some(BlockAckMemberState::Acknowledged)
        || current == BlockAckMemberState::Acknowledged {
        BlockAckMemberState::Acknowledged
    } else if previous == Some(BlockAckMemberState::Missing)
        || current == BlockAckMemberState::Missing {
        BlockAckMemberState::Missing
    } else {
        BlockAckMemberState::OutsideWindow
    }
}

/// Action for one member given its merged state.
pub open spec fn member_action(
    state: BlockAckMemberState,
    retry_allowed: bool,
    session_active: bool,
) -> BlockAckMemberAction {
    match state {
        BlockAckMemberState::Acknowledged => BlockAckMemberAction::Confirm,
        BlockAckMemberState::Missing => if session_active && retry_allowed {
            BlockAckMemberAction::Retry
        } else {
            BlockAckMemberAction::GiveUp
        },
        BlockAckMemberState::OutsideWindow => BlockAckMemberAction::GiveUp,
    }
}

fn classify_member(start_sequence: u16, bitmap: u64, sequence: u16) -> (state: BlockAckMemberState)
    ensures
        state == member_state(start_sequence, bitmap, sequence),
{
    let delta: u16 = (sequence & 0x0fff).wrapping_sub(start_sequence & 0x0fff) & 0x0fff;
    proof {
        let a = sequence & 0x0fff;
        let b = start_sequence & 0x0fff;
        assert(sequence & 0x0fff <= 0x0fff) by (bit_vector);
        assert(start_sequence & 0x0fff <= 0x0fff) by (bit_vector);
        let w = a.wrapping_sub(b);
        assert(w == (if a >= b { (a - b) as u16 } else { (a - b + 0x10000) as u16 }));
        assert(forall|x: u16| #[trigger] (x & 0x0fff) == x % 4096) by (bit_vector);
    }
    if delta >= 64 {
        BlockAckMemberState::OutsideWindow
    } else {
        let bit: u64 = (bitmap >> (delta as u64)) & 1;
        if bit == 1 {
            BlockAckMemberState::Acknowledged
        } else {
            BlockAckMemberState::Missing
        }
    }
}

fn merge_member(
    previous: Option<BlockAckMemberState>,
    current: BlockAckMemberState,
) -> (state: BlockAckMemberState)
    ensures
        state == merged_state(previous, current),
{
    match (previous, current) {
        (Some(BlockAckMemberState::Acknowledged), _)
        | (_, BlockAckMemberState::Acknowledged) => BlockAckMemberState::Acknowledged,
        (Some(BlockAckMemberState::Missing), _)
        | (_, BlockAckMemberState::Missing) => BlockAckMemberState::Missing,
        _ => BlockAckMemberState::OutsideWindow,
    }
}

fn member_action_of(
    state: BlockAckMemberState,
    retry_allowed: bool,
    session_active: bool,
) -> (action: BlockAckMemberAction)
    ensures
        action == member_action(state, retry_allowed, session_active),
{
    match state {
        BlockAckMemberState::Acknowledged => BlockAckMemberAction::Confirm,
        BlockAckMemberState::Missing => {
            if session_active && retry_allowed {
                BlockAckMemberAction::Retry
            } else {
                BlockAckMemberAction::GiveUp
            }
        },
        BlockAckMemberState::OutsideWindow => BlockAckMemberAction::GiveUp,
    }
}

/// Classifies both members of a depth-two aggregate against one BlockAck.
pub fn classify_depth_two_block_ack(
    start_sequence: u16,
    bitmap: u64,
    sequences: [u16; 2],
) -> (states: [BlockAckMemberState; 2])
    ensures
        states[0] == member_state(start_sequence, bitmap, sequences[0]),
        states[1] == member_state(start_sequence, bitmap, sequences[1]),
{
    [
        classify_member(start_sequence, bitmap, sequences[0]),
        classify_member(start_sequence, bitmap, sequences[1]),
    ]
}

/// Merges a new observation of a depth-two aggregate into the previous one.
pub fn merge_depth_two_block_ack_states(
    previous: Option<[BlockAckMemberState; 2]>,
    current: [BlockAckMemberState; 2],
) -> (merged: [BlockAckMemberState; 2])
    ensures
        forall|i: int|
            0 <= i < 2 ==> #[trigger] merged[i] == merged_state(
                match previous {
                    Some(states) => Some(states[i]),
                    None => None,
                },
                current[i],
            ),
{
    let (first, second) = match previous {
        Some(states) => (Some(states[0]), Some(states[1])),
        None => (None, None),
    };
    [merge_member(first, current[0]), merge_member(second, current[1])]
}

/// Per-member actions for a depth-two aggregate.
pub fn plan_depth_two_block_ack_actions(
    members: [BlockAckMemberState; 2],
    retry_allowed: [bool; 2],
    session_active: bool,
) -> (actions: [BlockAckMemberAction; 2])
    ensures
        forall|i: int|
            0 <= i < 2 ==> #[trigger] actions[i] == member_action(
                members[i],
                retry_allowed[i],
                session_active,
            ),
{
    [
        member_action_of(members[0], retry_allowed[0], session_active),
        member_action_of(members[1], retry_allowed[1], session_active),
    ]
}

/// A whole-aggregate retry is allowed when every member would be retried
/// and both members move to the same next rate.
pub fn depth_two_whole_retry_allowed(
    retry_allowed: [bool; 2],
    session_active: bool,
    next_rates: [u8; 2],
) -> (allowed: bool)
    ensures
        allowed == (session_active && retry_allowed[0] && retry_allowed[1] && next_rates[0]
            == next_rates[1]),
{
    let actions = plan_depth_two_block_ack_actions(
        [BlockAckMemberState::Missing, BlockAckMemberState::Missing],
        retry_allowed,
        session_active,
    );
    let both_retry = match (actions[0], actions[1]) {
        (BlockAckMemberAction::Retry, BlockAckMemberAction::Retry) => true,
        _ => false,
    };
    both_retry && next_rates[0] == next_rates[1]
}

/// Observation of an aggregate of two to four members.
#[derive(Clone, Copy, Debug, PartialEq, Eq)]
pub struct PlannedBlockAck {
    pub states: [BlockAckMemberState; 4],
    pub member_count: u8,
}

/// Number of members in a contiguous prefix of `Some` entries, when that
/// prefix has two to four members and nothing follows it.
pub open spec fn planned_prefix_count(sequences: [Option<u16>; 4]) -> Option<int> {
    let n = if sequences[0] is None {
        0int
    } else if sequences[1] is None {
        1
    } else if sequences[2] is None {
        2
    } else if sequences[3] is None {
        3
    } else {
        4
    };
    if n >= 2 && (forall|i: int| n <= i < 4 ==> #[trigger] sequences[i] is None) {
        Some(n)
    } else {
        None
    }
}

/// Classifies an aggregate of two to four members against one BlockAck.
pub fn classify_planned_block_ack(
    start_sequence: u16,
    bitmap: u64,
    sequences: [Option<u16>; 4],
) -> (observation: Option<PlannedBlockAck>)
    ensures
        match planned_prefix_count(sequences) {
            None => observation is None,
            Some(n) => observation matches Some(o) && o.member_count == n && (forall|i: int|
                0 <= i < 4 ==> #[trigger] o.states[i] == if i < n {
                    member_state(start_sequence, bitmap, sequences[i]->0)
                } else {
                    BlockAckMemberState::OutsideWindow
                }),
        },
{
    let count: usize = if sequences[0].is_none() {
        0
    } else if sequences[1].is_none() {
        1
    } else if sequences[2].is_none() {
        2
    } else if sequences[3].is_none() {
        3
    } else {
        4
    };
    let mut tail_empty = true;
    let mut k: usize = count;
    while k < 4
        invariant
            count <= k <= 4,
            tail_empty == (forall|i: int| count <= i < k ==> #[trigger] sequences[i] is None),
        decreases 4 - k,
    {
        if sequences[k].is_some() {
            tail_empty = false;
        }
        k += 1;
    }
    if count < 2 || !tail_empty {
        return None;
    }
    let mut states = [BlockAckMemberState::OutsideWindow; 4];
    let mut index: usize = 0;
    while index < count
        invariant
            2 <= count <= 4,
            index <= count,
            forall|i: int| 0 <= i < count ==> #[trigger] sequences[i] is Some,
            forall|i: int|
                0 <= i < 4 ==> #[trigger] states[i] == if i < index {
                    member_state(start_sequence, bitmap, sequences[i]->0)
                } else {
                    BlockAckMemberState::OutsideWindow
                },
        decreases count - index,
    {
        let sequence = match sequences[index] {
            Some(sequence) => sequence,
            None => 0,
        };
        states[index] = classify_member(start_sequence, bitmap, sequence);
        index += 1;
    }
    Some(PlannedBlockAck { states, member_count: count as u8 })
}

/// Merges a repeated observation of the same aggregate. Observations of
/// different member counts are rejected.
pub fn merge_planned_block_ack(
    previous: Option<PlannedBlockAck>,
    current: PlannedBlockAck,
) -> (merged: Option<PlannedBlockAck>)
    requires
        current.member_count <= 4,
    ensures
        match previous {
            Some(p) if p.member_count != current.member_count => merged is None,
            _ => merged matches Some(m) && m.member_count == current.member_count && (forall|
                i: int,
            |
                0 <= i < 4 ==> #[trigger] m.states[i] == if i < current.member_count {
                    merged_state(
                        match previous {
                            Some(p) => Some(p.states[i]),
                            None => None,
                        },
                        current.states[i],
                    )
                } else {
                    current.states[i]
                }),
        },
{
    if let Some(p) = previous {
        if p.member_count != current.member_count {
            return None;
        }
    }
    let mut merged = current;
    let count = current.member_count as usize;
    let mut index: usize = 0;
    while index < count
        invariant
            count == current.member_count,
            count <= 4,
            index <= count,
            merged.member_count == current.member_count,
            forall|i: int|
                0 <= i < 4 ==> #[trigger] merged.states[i] == if i < index {
                    merged_state(
                        match previous {
                            Some(p) => Some(p.states[i]),
                            None => None,
                        },
                        current.states[i],
                    )
                } else {
                    current.states[i]
                },
        decreases count - index,
    {
        let prior = match previous {
            Some(p) => Some(p.states[index]),
            None => None,
        };
        merged.states[index] = merge_member(prior, current.states[index]);
        index += 1;
    }
    Some(merged)
}

/// Per-member actions of an aggregate; members past the count have none.
pub fn plan_planned_block_ack_actions(
    observation: PlannedBlockAck,
    retry_allowed: [bool; 4],
    session_active: bool,
) -> (actions: [Option<BlockAckMemberAction>; 4])
    ensures
        forall|i: int|
            0 <= i < 4 ==> #[trigger] actions[i] == if i < observation.member_count {
                Some(member_action(observation.states[i], retry_allowed[i], session_active))
            } else {
                None
            },
{
    let mut actions: [Option<BlockAckMemberAction>; 4] = [None; 4];
    let mut index: usize = 0;
    while index < 4
        invariant
            index <= 4,
            forall|i: int|
                0 <= i < 4 ==> #[trigger] actions[i] == if i < index && i
                    < observation.member_count {
                    Some(member_action(observation.states[i], retry_allowed[i], session_active))
                } else {
                    None
                },
        decreases 4 - index,
    {
        if index < observation.member_count as usize {
            actions[index] = Some(
                member_action_of(observation.states[index], retry_allowed[index], session_active),
            );
        }
        index += 1;
    }
    actions
}

/// A whole-aggregate retry needs at least two members, every member retried,
/// and one shared next rate.
pub fn planned_whole_retry_allowed(
    observation: PlannedBlockAck,
    retry_allowed: [bool; 4],
    session_active: bool,
    next_rates: [Option<u8>; 4],
) -> (allowed: bool)
    requires
        observation.member_count <= 4,
    ensures
        allowed == (observation.member_count >= 2 && (forall|i: int|
            0 <= i < observation.member_count ==> #[trigger] member_action(
                observation.states[i],
                retry_allowed[i],
                session_active,
            ) == BlockAckMemberAction::Retry) && next_rates[0] is Some && (forall|i: int|
            0 <= i < observation.member_count ==> #[trigger] next_rates[i] == next_rates[0])),
{
    let actions = plan_planned_block_ack_actions(observation, retry_allowed, session_active);
    let count = observation.member_count as usize;
    if count < 2 {
        return false;
    }
    let mut index: usize = 0;
    while index < count
        invariant
            2 <= count <= 4,
            count == observation.member_count,
            index <= count,
            forall|i: int|
                0 <= i < 4 ==> #[trigger] actions[i] == if i < observation.member_count {
                    Some(member_action(observation.states[i], retry_allowed[i], session_active))
                } else {
                    None
                },
            forall|i: int|
                0 <= i < index ==> #[trigger] member_action(
                    observation.states[i],
                    retry_allowed[i],
                    session_active,
                ) == BlockAckMemberAction::Retry,
        decreases count - index,
    {
        match actions[index] {
            Some(BlockAckMemberAction::Retry) => {},
            _ => {
                return false;
            },
        }
        index += 1;
    }
    let first_rate = match next_rates[0] {
        Some(rate) => rate,
        None => {
            return false;
        },
    };
    let mut index: usize = 0;
    while index < count
        invariant
            2 <= count <= 4,
            count == observation.member_count,
            index <= count,
            next_rates[0] == Some(first_rate),
            forall|i: int| 0 <= i < index ==> #[trigger] next_rates[i] == next_rates[0],
        decreases count - index,
    {
        match next_rates[index] {
            Some(rate) => {
                if rate != first_rate {
                    return false;
                }
            },
            None => {
                return false;
            },
        }
        index += 1;
    }
    true
}

} // verus!
