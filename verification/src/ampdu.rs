//! The opcode stream of an A-MPDU of two to four members.

use vstd::prelude::*;

use crate::packet_ram::{
    ampdu_spacing_word_address, ampdu_spacing_word_address_of, ampdu_transfer_word,
    ampdu_transfer_word_of,
};
use crate::phy::ampdu_member_valid;

verus! {

/// Most members of one planned aggregate.
pub const MAX_AMPDU_MEMBERS: usize = 4;

#[derive(Clone, Copy, Debug, PartialEq, Eq, Structural)]
pub struct PlannedAmpduMember {
    pub frame_state: u32,
    pub frame_length: u16,
}

#[derive(Clone, Copy, Debug, PartialEq, Eq)]
pub struct PlannedAmpduInput {
    pub members: [Option<PlannedAmpduMember>; 4],
    pub phy_rate_word: u32,
    pub phy_control_word: u32,
    pub hardware_rate: u8,
    /// Spacing blocks after every member but the last; zero emits none.
    pub spacing_selector: u8,
}

#[derive(Clone, Copy, Debug, PartialEq, Eq)]
pub struct PlannedAmpduDescriptor {
    pub words: [u32; 11],
    pub length: u8,
    pub phy_words: [u32; 3],
    pub aggregate_length: u16,
    pub member_count: u8,
}

/// Number of members when they form one prefix of two to four.
pub open spec fn planned_member_count(members: [Option<PlannedAmpduMember>; 4]) -> Option<int> {
    let n = if members[0] is None {
        0int
    } else if members[1] is None {
        1
    } else if members[2] is None {
        2
    } else if members[3] is None {
        3
    } else {
        4
    };
    if n >= 2 && (forall|i: int| n <= i < 4 ==> #[trigger] members[i] is None) {
        Some(n)
    } else {
        None
    }
}

/// The words member `k` contributes: its transfer, and unless it is the
/// last member the delimiter and the spacing transfer.
pub open spec fn member_words(input: PlannedAmpduInput, k: int, last: bool) -> Seq<u32> {
    let transfer = seq![ampdu_transfer_word_of(input.members[k]->0.frame_state.wrapping_add(8))];
    if last {
        transfer
    } else if input.spacing_selector == 0 {
        transfer.push(0x6600_0000u32)
    } else {
        transfer.push(0x6600_0000u32).push(
            ampdu_transfer_word_of(ampdu_spacing_word_address_of(input.spacing_selector)),
        )
    }
}

/// Bytes member `k` adds to the aggregate: the last its frame and FCS,
/// every other its frame with delimiter padded to a word, and the spacing.
pub open spec fn member_length(input: PlannedAmpduInput, k: int, last: bool) -> int {
    let length = input.members[k]->0.frame_length;
    if last {
        length + 8
    } else {
        (((length + 0x0b) as u32) & !3u32) + input.spacing_selector * 4
    }
}

/// Words of the first `k` of `n` members.
pub open spec fn planned_words_upto(input: PlannedAmpduInput, n: int, k: int) -> Seq<u32>
    decreases k,
{
    if k <= 0 {
        Seq::empty()
    } else {
        planned_words_upto(input, n, k - 1) + member_words(input, k - 1, k == n)
    }
}

/// Aggregate length of the first `k` of `n` members.
pub open spec fn planned_length_upto(input: PlannedAmpduInput, n: int, k: int) -> int
    decreases k,
{
    if k <= 0 {
        0
    } else {
        planned_length_upto(input, n, k - 1) + member_length(input, k - 1, k == n)
    }
}

proof fn lemma_planned_bounds(input: PlannedAmpduInput, n: int, k: int)
    requires
        0 <= k <= n <= 4,
    ensures
        planned_words_upto(input, n, k).len() <= 3 * k,
        planned_words_upto(input, n, k).len() <= 3 * k - (if k == n && k > 0 { 2int } else { 0int }),
        0 <= planned_length_upto(input, n, k) <= k * 0x2_0000,
    decreases k,
{
    if k > 0 {
        lemma_planned_bounds(input, n, k - 1);
        let length = input.members[k - 1]->0.frame_length;
        let x = (length + 0x0b) as u32;
        assert(x & !3u32 <= x) by (bit_vector);
    }
}

/// Builds the opcode stream of an aggregate whose members are one prefix of
/// two to four entries: each member's transfer, a delimiter and spacing
/// after every member but the last, and the end marker; with the shared PHY
/// words. `None` when the members are not such a prefix or the aggregate
/// does not fit in 16 bits.
pub fn build_planned_ampdu_descriptor(input: PlannedAmpduInput) -> (descriptor: Option<
    PlannedAmpduDescriptor,
>)
    requires
        forall|i: int|
            0 <= i < 4 ==> (#[trigger] input.members[i] matches Some(m) ==> ampdu_member_valid(
                m.frame_state,
            )),
    ensures
        match planned_member_count(input.members) {
            None => descriptor is None,
            Some(n) => {
                let total = planned_length_upto(input, n, n);
                if total > 0xffff {
                    descriptor is None
                } else {
                    descriptor matches Some(d) && {
                        &&& d.member_count == n
                        &&& d.aggregate_length == total
                        &&& d.length <= 11
                        &&& d.words@.subrange(0, d.length as int) == planned_words_upto(input, n, n).push(
                            0xe400_0000u32,
                        )
                        &&& d.phy_words[0] == 0x5100_0000u32 | (input.phy_rate_word & 0x00ff_ffff)
                        &&& d.phy_words[1] == 0x5000_0000u32 | (input.phy_control_word & 0x00ff_ffff)
                        &&& d.phy_words[2] == 0x5200_0000u32 | ((input.hardware_rate as u32) << 16) | (
                        d.aggregate_length as u32)
                    }
                }
            },
        },
{
    let members = input.members;
    let count: usize = if members[0].is_none() {
        0
    } else if members[1].is_none() {
        1
    } else if members[2].is_none() {
        2
    } else if members[3].is_none() {
        3
    } else {
        4
    };
    let mut tail_empty = true;
    let mut k: usize = count;
    while k < 4
        invariant
            count <= k <= 4,
            tail_empty == (forall|i: int| count <= i < k ==> #[trigger] members[i] is None),
        decreases 4 - k,
    {
        if members[k].is_some() {
            tail_empty = false;
        }
        k += 1;
    }
    if count < 2 || !tail_empty {
        return None;
    }
    let ghost n = count as int;
    let mut words = [0u32; 11];
    let mut word_count: usize = 0;
    let mut aggregate: u32 = 0;
    let mut index: usize = 0;
    while index < count
        invariant
            2 <= count <= 4,
            n == count,
            index <= count,
            members == input.members,
            forall|i: int| 0 <= i < count ==> #[trigger] members[i] is Some,
            forall|i: int|
                0 <= i < 4 ==> (#[trigger] input.members[i] matches Some(m) ==> ampdu_member_valid(
                    m.frame_state,
                )),
            word_count == planned_words_upto(input, n, index as int).len(),
            words@.subrange(0, word_count as int) == planned_words_upto(input, n, index as int),
            aggregate == planned_length_upto(input, n, index as int),
            words@.len() == 11,
        decreases count - index,
    {
        proof {
            lemma_planned_bounds(input, n, index as int);
            lemma_planned_bounds(input, n, index as int + 1);
        }
        let member = match members[index] {
            Some(member) => member,
            None => PlannedAmpduMember { frame_state: 0, frame_length: 0 },
        };
        let ghost before = words@.subrange(0, word_count as int);
        let transfer = match ampdu_transfer_word(member.frame_state.wrapping_add(8)) {
            Some(word) => word,
            None => 0,
        };
        words[word_count] = transfer;
        word_count += 1;
        if index + 1 == count {
            aggregate = aggregate + member.frame_length as u32 + 8;
        } else {
            words[word_count] = 0x6600_0000;
            word_count += 1;
            if input.spacing_selector != 0 {
                let spacing = match ampdu_transfer_word(ampdu_spacing_word_address(input.spacing_selector)) {
                    Some(word) => word,
                    None => 0,
                };
                words[word_count] = spacing;
                word_count += 1;
            }
            let padded: u32 = (member.frame_length as u32 + 0x0b) & !3u32;
            aggregate = aggregate + padded + input.spacing_selector as u32 * 4;
        }
        proof {
            let last = index + 1 == count;
            assert(words@.subrange(0, word_count as int) =~= before + member_words(
                input,
                index as int,
                last,
            ));
            assert(planned_words_upto(input, n, index as int + 1) == before + member_words(
                input,
                index as int,
                last,
            ));
        }
        index += 1;
    }
    proof {
        lemma_planned_bounds(input, n, n);
    }
    let ghost before_end = words@.subrange(0, word_count as int);
    words[word_count] = 0xe400_0000;
    word_count += 1;
    assert(words@.subrange(0, word_count as int) =~= before_end.push(0xe400_0000u32));
    if aggregate > 0xffff {
        return None;
    }
    let aggregate_length = aggregate as u16;
    let phy_words = [
        0x5100_0000 | (input.phy_rate_word & 0x00ff_ffff),
        0x5000_0000 | (input.phy_control_word & 0x00ff_ffff),
        0x5200_0000 | ((input.hardware_rate as u32) << 16) | (aggregate_length as u32),
    ];
    assert(planned_member_count(input.members) == Some(n));
    Some(
        PlannedAmpduDescriptor {
            words,
            length: word_count as u8,
            phy_words,
            aggregate_length,
            member_count: count as u8,
        },
    )
}

} // verus!
