//! The cooperative scheduler's timer list: a doubly linked list kept in
//! deadline order. A timer record holds its next pointer at +0, the address
//! of the link that points at it at +4 (zero when unlinked) and its deadline
//! at +8. Deadlines compare by wrapping difference, so the order survives
//! timer wrap.

use vstd::prelude::*;

use crate::mmio::{rd32, trace_after, value_of, wr32, MacPipeMmio, MmioAccess};
use crate::registers::SCHEDULER_TIMER_LIST_HEAD;

verus! {

/// Most list nodes the insertion walks past. Nodes are at least twelve
/// bytes apart, so a list without a cycle never has this many.
pub const TIMER_WALK_LIMIT: u32 = 0xffff_ffff;

/// `deadline` of a listed timer is due no later than the inserted one.
pub open spec fn due_no_later(listed: u32, deadline: u32) -> bool {
    (listed.wrapping_sub(deadline) as i32) <= 0
}

/// The walk from link `previous` (which points at `next`) to the place of a
/// timer due at `deadline`, given the values read: the reads made, the link
/// that will point at the new timer and the node that will follow it.
/// Each step reads the next node's deadline and, while that node is due no
/// later, its next pointer.
pub open spec fn timer_walk(deadline: u32, previous: u32, next: u32, budget: nat, t: Seq<MmioAccess>) -> (
    Seq<MmioAccess>,
    u32,
    u32,
)
    decreases budget,
{
    if next == 0 || budget == 0 {
        (Seq::empty(), previous, next)
    } else {
        let listed = value_of(t[0]);
        let check = seq![rd32(next.wrapping_add(8), listed)];
        if !due_no_later(listed, deadline) {
            (check, previous, next)
        } else {
            let following = value_of(t[1]);
            let rest = timer_walk(deadline, next, following, (budget - 1) as nat, t.skip(2));
            (check.push(rd32(next, following)) + rest.0, rest.1, rest.2)
        }
    }
}

proof fn lemma_walk_stop(deadline: u32, previous: u32, next: u32, budget: nat, t: Seq<MmioAccess>)
    requires
        next == 0 || budget == 0 || (t.len() >= 1 && !due_no_later(value_of(t[0]), deadline)),
    ensures
        timer_walk(deadline, previous, next, budget, t) == if next == 0 || budget == 0 {
            (Seq::<MmioAccess>::empty(), previous, next)
        } else {
            (seq![rd32(next.wrapping_add(8), value_of(t[0]))], previous, next)
        },
{
}

proof fn lemma_walk_step(
    deadline: u32,
    previous: u32,
    next: u32,
    budget: nat,
    listed: u32,
    following: u32,
    e: Seq<MmioAccess>,
)
    requires
        next != 0,
        budget > 0,
        due_no_later(listed, deadline),
    ensures
        ({
            let chunk = seq![rd32(next.wrapping_add(8), listed), rd32(next, following)];
            let whole = timer_walk(deadline, previous, next, budget, chunk + e);
            let rest = timer_walk(deadline, next, following, (budget - 1) as nat, e);
            whole == (chunk + rest.0, rest.1, rest.2)
        }),
{
    let chunk = seq![rd32(next.wrapping_add(8), listed), rd32(next, following)];
    let t = chunk + e;
    assert(value_of(t[0]) == listed);
    assert(value_of(t[1]) == following);
    assert(t.skip(2) =~= e);
    assert(seq![rd32(next.wrapping_add(8), listed)].push(rd32(next, following)) =~= chunk);
}

/// Accesses of `insert_scheduler_timer_list`.
pub open spec fn insert_timer_accesses(timer: u32, deadline: u32, s: Seq<MmioAccess>) -> Seq<MmioAccess> {
    let first = value_of(s[0]);
    let walk = timer_walk(
        deadline,
        SCHEDULER_TIMER_LIST_HEAD,
        first,
        TIMER_WALK_LIMIT as nat,
        s.skip(1),
    );
    let successor = walk.2;
    let link = walk.1;
    let back_link = if successor != 0 {
        seq![wr32(successor.wrapping_add(4), timer)]
    } else {
        Seq::empty()
    };
    let head_read_at = (1 + walk.0.len() + back_link.len() + 4) as int;
    seq![rd32(SCHEDULER_TIMER_LIST_HEAD, first)] + walk.0 + back_link + seq![
        wr32((timer + 8) as u32, deadline),
        wr32(link, timer),
        wr32(timer, successor),
        wr32((timer + 4) as u32, link),
        rd32(SCHEDULER_TIMER_LIST_HEAD, value_of(s[head_read_at])),
    ]
}

/// Where `insert_scheduler_timer_list` reads the head back.
pub open spec fn insert_timer_head_read(deadline: u32, s: Seq<MmioAccess>) -> int {
    let walk = timer_walk(
        deadline,
        SCHEDULER_TIMER_LIST_HEAD,
        value_of(s[0]),
        TIMER_WALK_LIMIT as nat,
        s.skip(1),
    );
    1 + walk.0.len() + (if walk.2 != 0 { 1int } else { 0int }) + 4
}

/// Links `timer` into the list before the first node due later than
/// `deadline` (after every node due no later), writing its deadline and both
/// of its links and the back link of its successor. Returns whether the
/// timer became the head of the list.
pub fn insert_scheduler_timer_list<M: MacPipeMmio>(mmio: &mut M, timer: u32, deadline: u32) -> (
    at_head: bool)
    requires
        timer + 8 <= u32::MAX,
    ensures
        ({
            let s = trace_after(final(mmio).accesses(), old(mmio).accesses().len() as int);
            &&& final(mmio).accesses() == old(mmio).accesses() + insert_timer_accesses(
                timer,
                deadline,
                s,
            )
            &&& at_head == (value_of(s[insert_timer_head_read(deadline, s)]) == timer)
        }),
{
    let ghost before = mmio.accesses();
    let first = mmio.read_u32(SCHEDULER_TIMER_LIST_HEAD);
    let ghost walk_start = mmio.accesses().len();
    let mut previous_link = SCHEDULER_TIMER_LIST_HEAD;
    let mut next = first;
    let mut budget = TIMER_WALK_LIMIT;
    loop
        invariant
            before == old(mmio).accesses(),
            walk_start == before.len() + 1,
            mmio.accesses().len() >= walk_start,
            mmio.accesses().subrange(0, walk_start as int) == before.push(
                rd32(SCHEDULER_TIMER_LIST_HEAD, first),
            ),
            forall|e: Seq<MmioAccess>|
                #![trigger timer_walk(deadline, SCHEDULER_TIMER_LIST_HEAD, first, TIMER_WALK_LIMIT as nat, mmio.accesses().skip(walk_start as int) + e)]
                timer_walk(
                    deadline,
                    SCHEDULER_TIMER_LIST_HEAD,
                    first,
                    TIMER_WALK_LIMIT as nat,
                    mmio.accesses().skip(walk_start as int) + e,
                ) == ({
                    let rest = timer_walk(deadline, previous_link, next, budget as nat, e);
                    (mmio.accesses().skip(walk_start as int) + rest.0, rest.1, rest.2)
                }),
        ensures
            next == 0 || budget == 0,
        decreases budget,
    {
        let ghost done = mmio.accesses().skip(walk_start as int);
        if next == 0 || budget == 0 {
            proof {
                assert forall|e: Seq<MmioAccess>|
                    #![trigger timer_walk(deadline, previous_link, next, budget as nat, e)]
                    timer_walk(deadline, previous_link, next, budget as nat, e) == (
                        Seq::<MmioAccess>::empty(),
                        previous_link,
                        next,
                    ) by {
                    lemma_walk_stop(deadline, previous_link, next, budget as nat, e);
                }
            }
            break;
        }
        let listed = mmio.read_u32(next.wrapping_add(8));
        if (listed.wrapping_sub(deadline) as i32) > 0 {
            proof {
                let chunk = seq![rd32(next.wrapping_add(8), listed)];
                assert(mmio.accesses().skip(walk_start as int) =~= done + chunk);
                assert forall|e: Seq<MmioAccess>|
                    #![trigger timer_walk(deadline, SCHEDULER_TIMER_LIST_HEAD, first, TIMER_WALK_LIMIT as nat, mmio.accesses().skip(walk_start as int) + e)]
                    timer_walk(
                        deadline,
                        SCHEDULER_TIMER_LIST_HEAD,
                        first,
                        TIMER_WALK_LIMIT as nat,
                        mmio.accesses().skip(walk_start as int) + e,
                    ) == (mmio.accesses().skip(walk_start as int), previous_link, next) by {
                    assert(done + chunk + e =~= done + (chunk + e));
                    assert((chunk + e)[0] == rd32(next.wrapping_add(8), listed));
                    lemma_walk_stop(deadline, previous_link, next, budget as nat, chunk + e);
                    assert(done + chunk =~= mmio.accesses().skip(walk_start as int));
                }
                assert forall|e: Seq<MmioAccess>|
                    #![trigger timer_walk(deadline, previous_link, next, 0, e)]
                    timer_walk(deadline, previous_link, next, 0, e) == (
                        Seq::<MmioAccess>::empty(),
                        previous_link,
                        next,
                    ) by {
                    lemma_walk_stop(deadline, previous_link, next, 0, e);
                }
                assert(mmio.accesses().skip(walk_start as int) + Seq::<MmioAccess>::empty()
                    =~= mmio.accesses().skip(walk_start as int));
            }
            budget = 0;
            break;
        }
        let following = mmio.read_u32(next);
        proof {
            let chunk = seq![rd32(next.wrapping_add(8), listed), rd32(next, following)];
            assert(mmio.accesses().skip(walk_start as int) =~= done + chunk);
            assert forall|e: Seq<MmioAccess>|
                #![trigger timer_walk(deadline, SCHEDULER_TIMER_LIST_HEAD, first, TIMER_WALK_LIMIT as nat, mmio.accesses().skip(walk_start as int) + e)]
                timer_walk(
                    deadline,
                    SCHEDULER_TIMER_LIST_HEAD,
                    first,
                    TIMER_WALK_LIMIT as nat,
                    mmio.accesses().skip(walk_start as int) + e,
                ) == ({
                    let rest = timer_walk(deadline, next, following, (budget - 1) as nat, e);
                    (mmio.accesses().skip(walk_start as int) + rest.0, rest.1, rest.2)
                }) by {
                assert(done + chunk + e =~= done + (chunk + e));
                lemma_walk_step(deadline, previous_link, next, budget as nat, listed, following, e);
                let rest = timer_walk(deadline, next, following, (budget - 1) as nat, e);
                assert(done + (chunk + rest.0) =~= mmio.accesses().skip(walk_start as int) + rest.0);
            }
        }
        previous_link = next;
        next = following;
        budget = budget - 1;
    }
    let ghost walked = mmio.accesses().skip(walk_start as int);
    let ghost after_walk = mmio.accesses();
    assert(after_walk =~= before.push(rd32(SCHEDULER_TIMER_LIST_HEAD, first)) + walked);
    if next != 0 {
        mmio.write_u32(next.wrapping_add(4), timer);
    }
    mmio.write_u32(timer + 8, deadline);
    mmio.write_u32(previous_link, timer);
    mmio.write_u32(timer, next);
    mmio.write_u32(timer + 4, previous_link);
    let head = mmio.read_u32(SCHEDULER_TIMER_LIST_HEAD);
    let ghost s = trace_after(mmio.accesses(), before.len() as int);
    proof {
        let tail = trace_after(mmio.accesses(), after_walk.len() as int);
        let back_link = if next != 0 {
            seq![wr32(next.wrapping_add(4), timer)]
        } else {
            Seq::empty()
        };
        assert(tail =~= back_link + seq![
            wr32((timer + 8) as u32, deadline),
            wr32(previous_link, timer),
            wr32(timer, next),
            wr32((timer + 4) as u32, previous_link),
            rd32(SCHEDULER_TIMER_LIST_HEAD, head),
        ]);
        assert(mmio.accesses() =~= after_walk + tail);
        assert(s =~= seq![rd32(SCHEDULER_TIMER_LIST_HEAD, first)] + walked + tail);
        assert(s.skip(1) =~= walked + tail);
        assert(walked + Seq::<MmioAccess>::empty() =~= walked);
        let w = timer_walk(deadline, SCHEDULER_TIMER_LIST_HEAD, first, TIMER_WALK_LIMIT as nat, walked + tail);
        assert(timer_walk(deadline, previous_link, next, budget as nat, tail) == (
            Seq::<MmioAccess>::empty(),
            previous_link,
            next,
        )) by {
            lemma_walk_stop(deadline, previous_link, next, budget as nat, tail);
        }
        assert(w == (walked, previous_link, next));
        assert(value_of(s[0]) == first);
        assert(value_of(s[insert_timer_head_read(deadline, s)]) == head);
    }
    assert(mmio.accesses() =~= before + insert_timer_accesses(timer, deadline, s));
    head == timer
}

/// Accesses of `unlink_scheduler_timer_list`.
pub open spec fn unlink_timer_accesses(timer: u32, s: Seq<MmioAccess>) -> Seq<MmioAccess> {
    let previous = value_of(s[0]);
    let head = seq![rd32((timer + 4) as u32, previous)];
    if previous == 0 {
        head
    } else {
        let next = value_of(s[1]);
        let body = head + seq![rd32(timer, next), wr32((timer + 4) as u32, 0), wr32(previous, next)];
        if next != 0 {
            body.push(wr32(next.wrapping_add(4), previous))
        } else {
            body
        }
    }
}

/// Unlinks `timer`: its predecessor link takes its next pointer, its
/// successor's back link takes its predecessor, and its own back link is
/// cleared. Returns false, after one read, when it was not linked.
pub fn unlink_scheduler_timer_list<M: MacPipeMmio>(mmio: &mut M, timer: u32) -> (unlinked: bool)
    requires
        timer + 4 <= u32::MAX,
    ensures
        ({
            let s = trace_after(final(mmio).accesses(), old(mmio).accesses().len() as int);
            &&& final(mmio).accesses() == old(mmio).accesses() + unlink_timer_accesses(timer, s)
            &&& unlinked == (value_of(s[0]) != 0)
        }),
{
    let ghost before = mmio.accesses();
    let previous_link = mmio.read_u32(timer + 4);
    if previous_link == 0 {
        let ghost s = trace_after(mmio.accesses(), before.len() as int);
        assert(s =~= seq![rd32((timer + 4) as u32, previous_link)]);
        assert(mmio.accesses() =~= before + unlink_timer_accesses(timer, s));
        return false;
    }
    let next = mmio.read_u32(timer);
    mmio.write_u32(timer + 4, 0);
    mmio.write_u32(previous_link, next);
    if next != 0 {
        mmio.write_u32(next.wrapping_add(4), previous_link);
    }
    let ghost s = trace_after(mmio.accesses(), before.len() as int);
    assert(value_of(s[0]) == previous_link);
    assert(value_of(s[1]) == next);
    assert(mmio.accesses() =~= before + unlink_timer_accesses(timer, s));
    true
}

} // verus!
