//! Publication of a staged batch: slots `first` through `last` of one pipe,
//! wrapping past slot 3, handed to the MAC behind a single trigger and a
//! single GO.

use vstd::prelude::*;

use crate::mmio::{rd32, rd8, trace_after, value_of, wr32, wr8, MacPipeMmio, MmioAccess};
use crate::registers::{
    lemma_pipe_bits, pipe_record_address, pipe_record_of, slot_record_address, slot_record_of,
    tx_ring_of, TxHardwareRingAddress, LOW_MAC_ACTIVE_TX_COUNT, PIPE_CONTROL, PIPE_IRQ_TRIGGER,
    PIPE_STATE, PIPE_WATCHDOG, RING_DURATION_FIFO, RING_GO, SLOT_DURATION, SLOT_STATE,
};

verus! {

/// Number of slots from `first` through `last`, wrapping past slot 3.
pub open spec fn staged_slot_count(first: u8, last: u8) -> int {
    (last - first) % 4 + 1
}

/// The `k`-th slot of a batch that starts at `first`.
pub open spec fn staged_slot(first: u8, k: int) -> int {
    (first + k) % 4
}

/// Accesses of arming slot `slot` of `pipe`, given the values read in `t`:
/// count one more active frame, mark the slot started, and push its
/// duration into the ring's FIFO.
pub open spec fn slot_arm_accesses(pipe: u8, slot: int, t: Seq<MmioAccess>) -> Seq<MmioAccess> {
    let record = slot_record_of(pipe as int, slot);
    let count = value_of(t[0]);
    let duration = value_of(t[3]);
    seq![
        rd8(LOW_MAC_ACTIVE_TX_COUNT, count),
        wr8(LOW_MAC_ACTIVE_TX_COUNT, ((count + 1) % 256) as u32),
        wr8((record + SLOT_STATE) as u32, 1),
        rd32((record + SLOT_DURATION) as u32, duration),
        wr32((tx_ring_of(pipe as int) + RING_DURATION_FIFO) as u32, duration),
    ]
}

/// Accesses of arming the `k`-th slot of the batch, whose reads start at
/// position `1 + 5 * k` of `s`.
pub open spec fn staged_slot_accesses(pipe: u8, first: u8, k: int, s: Seq<MmioAccess>) -> Seq<MmioAccess> {
    slot_arm_accesses(pipe, staged_slot(first, k), s.skip(1 + 5 * k))
}

/// Accesses of arming the first `k` slots.
pub open spec fn staged_slots_accesses(pipe: u8, first: u8, k: int, s: Seq<MmioAccess>) -> Seq<
    MmioAccess,
>
    decreases k,
{
    if k <= 0 {
        Seq::empty()
    } else {
        staged_slots_accesses(pipe, first, k - 1, s) + staged_slot_accesses(pipe, first, k - 1, s)
    }
}

/// Accesses of arming the pipe once its slots are armed, given the values
/// read in `t`: arm the pipe, set its control flag, reload its watchdog and
/// write GO.
pub open spec fn pipe_arm_accesses(pipe: u8, t: Seq<MmioAccess>) -> Seq<MmioAccess> {
    let record = pipe_record_of(pipe as int);
    let flags = value_of(t[1]);
    seq![
        wr8((record + PIPE_STATE) as u32, 1),
        rd8((record + PIPE_CONTROL) as u32, flags),
        wr8((record + PIPE_CONTROL) as u32, flags | 1),
        wr8((record + PIPE_WATCHDOG) as u32, 5),
        wr32((tx_ring_of(pipe as int) + RING_GO) as u32, 1),
    ]
}

/// The batch can be published: pipe and slots in range, and the pipe record
/// and hardware ring are that pipe's own.
pub open spec fn staged_batch_valid(pipe: u8, pipe_state: u32, hardware_ring: u32, first: u8, last: u8) -> bool {
    &&& pipe < 4
    &&& first < 4
    &&& last < 4
    &&& hardware_ring == tx_ring_of(pipe as int)
    &&& pipe_state == pipe_record_of(pipe as int)
}

/// Accesses of `finalize_staged_pipe`.
pub open spec fn staged_accesses(
    pipe: u8,
    pipe_state: u32,
    hardware_ring: u32,
    first: u8,
    last: u8,
    s: Seq<MmioAccess>,
) -> Seq<MmioAccess> {
    if !staged_batch_valid(pipe, pipe_state, hardware_ring, first, last) {
        Seq::empty()
    } else {
        let n = staged_slot_count(first, last);
        seq![wr32(PIPE_IRQ_TRIGGER, (1u32 << pipe) << 25u32)] + staged_slots_accesses(pipe, first, n, s)
            + pipe_arm_accesses(pipe, s.skip(1 + 5 * n))
    }
}

/// A staged batch walks from `first` to `last` once: it has one to four
/// slots, ends exactly at `last`, reaches `last` at no earlier step, and
/// never visits a slot twice.
pub proof fn lemma_staged_batch_wraps_once(first: u8, last: u8)
    requires
        first < 4,
        last < 4,
    ensures
        1 <= staged_slot_count(first, last) <= 4,
        staged_slot(first, staged_slot_count(first, last) - 1) == last,
        forall|k: int| 0 <= k < staged_slot_count(first, last) - 1 ==> staged_slot(first, k) != last,
        forall|j: int, k: int|
            0 <= j < k < staged_slot_count(first, last) ==> staged_slot(first, j) != staged_slot(first, k),
{
}

/// The slot accesses read `s` only before position `1 + 5 * k`.
proof fn lemma_slots_prefix(pipe: u8, first: u8, k: int, s: Seq<MmioAccess>, t: Seq<MmioAccess>)
    requires
        k >= 0,
        s.len() >= 1 + 5 * k,
        t.len() >= 1 + 5 * k,
        s.subrange(0, 1 + 5 * k) == t.subrange(0, 1 + 5 * k),
    ensures
        staged_slots_accesses(pipe, first, k, s) == staged_slots_accesses(pipe, first, k, t),
        staged_slots_accesses(pipe, first, k, s).len() == 5 * k,
    decreases k,
{
    if k > 0 {
        assert(s.subrange(0, 1 + 5 * (k - 1)) =~= s.subrange(0, 1 + 5 * k).subrange(0, 1 + 5 * (k - 1)));
        assert(t.subrange(0, 1 + 5 * (k - 1)) =~= t.subrange(0, 1 + 5 * k).subrange(0, 1 + 5 * (k - 1)));
        lemma_slots_prefix(pipe, first, k - 1, s, t);
        assert(s.skip(1 + 5 * (k - 1))[0] == s.subrange(0, 1 + 5 * k)[1 + 5 * (k - 1)]);
        assert(t.skip(1 + 5 * (k - 1))[0] == t.subrange(0, 1 + 5 * k)[1 + 5 * (k - 1)]);
        assert(s.skip(1 + 5 * (k - 1))[3] == s.subrange(0, 1 + 5 * k)[4 + 5 * (k - 1)]);
        assert(t.skip(1 + 5 * (k - 1))[3] == t.subrange(0, 1 + 5 * k)[4 + 5 * (k - 1)]);
    }
}

fn arm_staged_slot<M: MacPipeMmio>(mmio: &mut M, pipe: u8, slot_index: u8, ring: TxHardwareRingAddress)
    requires
        pipe < 4,
        slot_index < 4,
        ring.address == tx_ring_of(pipe as int),
    ensures
        final(mmio).accesses() == old(mmio).accesses() + slot_arm_accesses(
            pipe,
            slot_index as int,
            trace_after(final(mmio).accesses(), old(mmio).accesses().len() as int),
        ),
{
    let ghost before = mmio.accesses();
    let slot = slot_record_address(pipe, slot_index);
    let active = mmio.read_u8(LOW_MAC_ACTIVE_TX_COUNT);
    mmio.write_u8(LOW_MAC_ACTIVE_TX_COUNT, active.wrapping_add(1));
    mmio.write_u8(slot + SLOT_STATE, 1);
    let duration = mmio.read_u32(slot + SLOT_DURATION);
    mmio.write_u32(ring.duration_fifo(), duration);
    let ghost t = trace_after(mmio.accesses(), before.len() as int);
    assert(value_of(t[0]) == active as u32);
    assert(value_of(t[3]) == duration);
    assert(mmio.accesses() =~= before + slot_arm_accesses(pipe, slot_index as int, t));
}

fn arm_staged_pipe<M: MacPipeMmio>(mmio: &mut M, pipe: u8, ring: TxHardwareRingAddress)
    requires
        pipe < 4,
        ring.address == tx_ring_of(pipe as int),
    ensures
        final(mmio).accesses() == old(mmio).accesses() + pipe_arm_accesses(
            pipe,
            trace_after(final(mmio).accesses(), old(mmio).accesses().len() as int),
        ),
{
    let ghost before = mmio.accesses();
    proof {
        lemma_pipe_bits(pipe);
    }
    let record = pipe_record_address(pipe);
    mmio.write_u8(record + PIPE_STATE, 1);
    let flags = mmio.read_u8(record + PIPE_CONTROL);
    mmio.write_u8(record + PIPE_CONTROL, flags | 1);
    mmio.write_u8(record + PIPE_WATCHDOG, 5);
    mmio.write_u32(ring.go(), 1);
    let ghost t = trace_after(mmio.accesses(), before.len() as int);
    proof {
        lemma_pipe_bits(flags);
    }
    assert(value_of(t[1]) == flags as u32);
    assert(mmio.accesses() =~= before + pipe_arm_accesses(pipe, t));
}

/// Publishes slots `first` through `last` of `pipe`: one trigger for the
/// pipe, then for each slot in order the active-frame count, the slot's
/// started state and its duration into the ring's FIFO, then the pipe is
/// armed, flagged, given a fresh watchdog and GO. Returns false, touching
/// nothing, when the pipe, a slot, the pipe record or the ring does not
/// check out.
pub fn finalize_staged_pipe<M: MacPipeMmio>(
    mmio: &mut M,
    pipe: u8,
    pipe_state: u32,
    hardware_ring: u32,
    first_slot: u8,
    last_slot: u8,
) -> (published: bool)
    ensures
        ({
            let s = trace_after(final(mmio).accesses(), old(mmio).accesses().len() as int);
            &&& final(mmio).accesses() == old(mmio).accesses() + staged_accesses(
                pipe,
                pipe_state,
                hardware_ring,
                first_slot,
                last_slot,
                s,
            )
            &&& published == staged_batch_valid(pipe, pipe_state, hardware_ring, first_slot, last_slot)
        }),
{
    let ghost before = mmio.accesses();
    if pipe >= 4 || first_slot >= 4 || last_slot >= 4 {
        assert(mmio.accesses() =~= before + Seq::empty());
        return false;
    }
    proof {
        lemma_pipe_bits(pipe);
    }
    let record = pipe_record_address(pipe);
    let ring = match TxHardwareRingAddress::for_pipe(pipe, hardware_ring) {
        Some(ring) => ring,
        None => {
            assert(mmio.accesses() =~= before + Seq::empty());
            return false;
        },
    };
    if pipe_state != record {
        assert(mmio.accesses() =~= before + Seq::empty());
        return false;
    }
    proof {
        crate::registers::lemma_pipe_bits(pipe);
    }
    mmio.write_u32(PIPE_IRQ_TRIGGER, (1u32 << pipe) << 25u32);
    let count: u8 = ((last_slot + 4 - first_slot) % 4) + 1;
    assert(count == staged_slot_count(first_slot, last_slot));
    let mut k: u8 = 0;
    while k < count
        invariant
            before == old(mmio).accesses(),
            pipe < 4,
            first_slot < 4,
            ring.address == tx_ring_of(pipe as int),
            count <= 4,
            k <= count,
            mmio.accesses().len() == before.len() + 1 + 5 * k,
            mmio.accesses() == before + seq![wr32(PIPE_IRQ_TRIGGER, (1u32 << pipe) << 25u32)]
                + staged_slots_accesses(
                pipe,
                first_slot,
                k as int,
                trace_after(mmio.accesses(), before.len() as int),
            ),
        decreases count - k,
    {
        let ghost start = mmio.accesses();
        let slot_index = (first_slot + k) % 4;
        arm_staged_slot(mmio, pipe, slot_index, ring);
        proof {
            let s0 = trace_after(start, before.len() as int);
            let s1 = trace_after(mmio.accesses(), before.len() as int);
            assert(s1.subrange(0, 1 + 5 * k) =~= s0);
            assert(s0.subrange(0, 1 + 5 * k) =~= s0);
            lemma_slots_prefix(pipe, first_slot, k as int, s0, s1);
            assert(s1.skip(1 + 5 * k) =~= trace_after(mmio.accesses(), start.len() as int));
            assert(staged_slot(first_slot, k as int) == slot_index);
            assert(mmio.accesses() =~= start + staged_slot_accesses(pipe, first_slot, k as int, s1));
        }
        k = k + 1;
    }
    let ghost slots_end = mmio.accesses();
    arm_staged_pipe(mmio, pipe, ring);
    let ghost s = trace_after(mmio.accesses(), before.len() as int);
    proof {
        let n = count as int;
        let s0 = trace_after(slots_end, before.len() as int);
        assert(s.subrange(0, 1 + 5 * n) =~= s0);
        assert(s0.subrange(0, 1 + 5 * n) =~= s0);
        lemma_slots_prefix(pipe, first_slot, n, s0, s);
        assert(s.skip(1 + 5 * n) =~= trace_after(mmio.accesses(), slots_end.len() as int));
    }
    assert(mmio.accesses() =~= before + staged_accesses(
        pipe,
        pipe_state,
        hardware_ring,
        first_slot,
        last_slot,
        s,
    ));
    true
}

} // verus!
