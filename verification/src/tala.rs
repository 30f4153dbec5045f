//! TALA (transmit A-MPDU length adaptation): how far the A-MPDU length is
//! cut back after a completion, from the weighted failure penalty and four
//! thresholds packed into one parameter word.

use vstd::prelude::*;

verus! {

/// The reduced length and the minimum kept with it. Each threshold byte of
/// `parameter1`, from the top byte down, is tried in turn: the first one
/// whose share of `weighted_total` is within `weighted_penalty` selects a
/// cut to 1/2, 5/8, 3/4 or 7/8 of `current` (the last one keeps only its
/// low byte); when none is, `current` stays.
pub open spec fn tala_reduction_of(
    current: u32,
    weighted_total: u32,
    weighted_penalty: u32,
    parameter1: u32,
    minimum: u32,
) -> (u32, u32) {
    if weighted_total.wrapping_mul(parameter1 >> 24) <= weighted_penalty {
        (current >> 1, 0)
    } else if weighted_total.wrapping_mul((parameter1 >> 16) & 0xff) <= weighted_penalty {
        ((current >> 1).wrapping_add(current >> 3), 1)
    } else if weighted_total.wrapping_mul((parameter1 >> 8) & 0xff) <= weighted_penalty {
        ((current >> 1).wrapping_add(current >> 2), 1)
    } else if weighted_total.wrapping_mul(parameter1 & 0xff) <= weighted_penalty {
        ((current >> 1).wrapping_add(current >> 2).wrapping_add(current >> 3) & 0xff, minimum)
    } else {
        (current, minimum)
    }
}

/// Cuts the A-MPDU length `current` back according to the penalty; see
/// `tala_reduction_of`.
pub fn tala_reduction(
    current: u32,
    weighted_total: u32,
    weighted_penalty: u32,
    parameter1: u32,
    minimum: u32,
) -> (reduced: (u32, u32))
    ensures
        reduced == tala_reduction_of(current, weighted_total, weighted_penalty, parameter1, minimum),
{
    if weighted_total.wrapping_mul(parameter1 >> 24) <= weighted_penalty {
        (current >> 1, 0)
    } else if weighted_total.wrapping_mul((parameter1 >> 16) & 0xff) <= weighted_penalty {
        ((current >> 1).wrapping_add(current >> 3), 1)
    } else if weighted_total.wrapping_mul((parameter1 >> 8) & 0xff) <= weighted_penalty {
        ((current >> 1).wrapping_add(current >> 2), 1)
    } else if weighted_total.wrapping_mul(parameter1 & 0xff) <= weighted_penalty {
        ((current >> 1).wrapping_add(current >> 2).wrapping_add(current >> 3) & 0xff, minimum)
    } else {
        (current, minimum)
    }
}

/// The same cut, with the current length read (its low byte) only when
/// the decision is taken.
pub fn tala_reduction_at_decision<F: FnOnce() -> u16>(
    read_ampdu_length: F,
    weighted_total: u32,
    weighted_penalty: u32,
    parameter1: u32,
    minimum: u32,
) -> (reduced: (u32, u32))
    requires
        read_ampdu_length.requires(()),
    ensures
        exists|length: u16|
            read_ampdu_length.ensures((), length) && reduced == tala_reduction_of(
                (length & 0xff) as u32,
                weighted_total,
                weighted_penalty,
                parameter1,
                minimum,
            ),
{
    let length = read_ampdu_length();
    tala_reduction((length & 0xff) as u32, weighted_total, weighted_penalty, parameter1, minimum)
}

/// A reduction never lengthens the A-MPDU.
pub proof fn lemma_tala_never_lengthens(
    current: u32,
    weighted_total: u32,
    weighted_penalty: u32,
    parameter1: u32,
    minimum: u32,
)
    ensures
        tala_reduction_of(current, weighted_total, weighted_penalty, parameter1, minimum).0
            <= current,
{
    assert((current >> 1) <= current && (current >> 1).wrapping_add(current >> 3) <= current
        && (current >> 1).wrapping_add(current >> 2) <= current && ((current >> 1).wrapping_add(
        current >> 2,
    ).wrapping_add(current >> 3) & 0xff) <= current) by (bit_vector);
}

} // verus!
