//! MMIO executors for MAC pipe bookkeeping: ring cursors, slot advance,
//! pipe service and the scheduler pending word.
//!
//! Each executor's contract gives the complete access sequence it performs,
//! with every written value computed from the values it read.

use vstd::prelude::*;

use crate::mac_event::SchedulerWord;
use crate::mmio::{rd32, rd8, trace_after, value_of, wr32, wr8, MacPipeMmio, MmioAccess};
use crate::registers::{
    lemma_pipe_bits, pipe_record_address, pipe_record_of, tx_ring_of, TxHardwareRingAddress, MAC_PIPE_RECORDS,
    MAC_PIPE_RECORD_SIZE, PIPE_ABORT_STATUS, PIPE_ADVANCE_ACK_BASE, PIPE_HARDWARE_RING,
    PIPE_IRQ_PENDING, PIPE_LAST, PIPE_PRODUCER, PIPE_RETRY_INACTIVE_SENTINEL, PIPE_STATE,
    RING_CURSOR_AND_PENDING_MASK, RING_INACTIVE_SENTINEL, SCHEDULER_PENDING_EVENTS, TX_RING_BASE,
    TX_RING_STRIDE, MAC_CURRENT_PIPE_RECORD, MAC_CURRENT_SLOT, PIPE_CURRENT, MAC_PIPE_SLOTS_OFFSET,
    MAC_PIPE_SLOT_SIZE, SLOT_COMMAND, slot_record_of, slot_record_address,
};

verus! {

/// Acknowledgement written when a pipe's slot is advanced.
pub open spec fn advance_ack(pipe: u8) -> u32 {
    0u32.wrapping_sub(((PIPE_ADVANCE_ACK_BASE << ((pipe & 3) as u32)) + 0x10) as u32)
}

/// Ring word with both cursor fields (bits 26:24 and 29:27) set to `cursor`,
/// keeping the pending mask and the two hardware-owned high bits.
pub open spec fn ring_word_with_cursor(word: u32, cursor: u32) -> u32 {
    (word & 0xc0ff_ffff) | ((cursor & 3) << 24) | ((cursor & 3) << 27)
}

/// Accesses of reading a pipe's retained hardware-ring pointer.
pub open spec fn retained_ring_accesses(pipe: u8, s: Seq<MmioAccess>) -> Seq<MmioAccess> {
    if pipe >= 4 {
        Seq::empty()
    } else {
        seq![rd32((pipe_record_of(pipe as int) + PIPE_HARDWARE_RING) as u32, value_of(s[0]))]
    }
}

/// The ring is retained when the pointer read is the pipe's exact ring.
pub open spec fn retained_ring_ok(pipe: u8, s: Seq<MmioAccess>) -> bool {
    pipe < 4 && value_of(s[0]) == tx_ring_of(pipe as int)
}

proof fn lemma_record_bounds(pipe: u8)
    requires
        pipe < 4,
    ensures
        pipe_record_of((pipe & 3) as int) == pipe_record_of(pipe as int),
        MAC_PIPE_RECORDS <= pipe_record_of(pipe as int) <= MAC_PIPE_RECORDS + 3
            * MAC_PIPE_RECORD_SIZE,
        tx_ring_of(pipe as int) <= TX_RING_BASE + 3 * TX_RING_STRIDE,
{
    lemma_pipe_bits(pipe);
}

/// Reads the hardware-ring pointer of `pipe` and accepts it only when it is
/// that pipe's exact ring. Nothing is read for an out-of-range pipe.
pub(crate) fn retained_hardware_ring<M: MacPipeMmio>(mmio: &mut M, pipe: u8) -> (ring: Option<
    TxHardwareRingAddress,
>)
    ensures
        ({
            let s = trace_after(final(mmio).accesses(), old(mmio).accesses().len() as int);
            &&& final(mmio).accesses() == old(mmio).accesses() + retained_ring_accesses(pipe, s)
            &&& (ring is Some <==> retained_ring_ok(pipe, s))
            &&& (ring matches Some(r) ==> r.address == tx_ring_of(pipe as int))
        }),
{
    let ghost before = mmio.accesses();
    if pipe >= 4 {
        assert(mmio.accesses() =~= before + Seq::empty());
        return None;
    }
    proof {
        lemma_record_bounds(pipe);
    }
    let record = pipe_record_address(pipe);
    let raw = mmio.read_u32(record + PIPE_HARDWARE_RING);
    let ghost s = trace_after(mmio.accesses(), before.len() as int);
    assert(s =~= seq![rd32((record + PIPE_HARDWARE_RING) as u32, raw)]);
    assert(mmio.accesses() =~= before + retained_ring_accesses(pipe, s));
    TxHardwareRingAddress::for_pipe(pipe, raw)
}

/// Reads the scheduler pending word once.
pub fn capture_pipe_scheduler_word<M: MacPipeMmio>(mmio: &mut M) -> (word: SchedulerWord)
    ensures
        final(mmio).accesses() == old(mmio).accesses().push(rd32(PIPE_IRQ_PENDING, word.0)),
{
    SchedulerWord::new(mmio.read_u32(PIPE_IRQ_PENDING))
}

/// Claims the requested bits of the cooperative scheduler's pending word,
/// clearing only bits that were set.
pub fn claim_scheduler_mask<M: MacPipeMmio>(mmio: &mut M, mask: u32) -> (claimed: u32)
    ensures
        ({
            let s = trace_after(final(mmio).accesses(), old(mmio).accesses().len() as int);
            let pending = value_of(s[0]);
            &&& claimed == pending & mask
            &&& final(mmio).accesses() == old(mmio).accesses() + if claimed != 0 {
                seq![
                    rd32(SCHEDULER_PENDING_EVENTS, pending),
                    wr32(SCHEDULER_PENDING_EVENTS, pending & !claimed),
                ]
            } else {
                seq![rd32(SCHEDULER_PENDING_EVENTS, pending)]
            }
        }),
{
    let ghost before = mmio.accesses();
    let pending = mmio.read_u32(SCHEDULER_PENDING_EVENTS);
    let claimed = pending & mask;
    if claimed != 0 {
        mmio.write_u32(SCHEDULER_PENDING_EVENTS, pending & !claimed);
    }
    let ghost s = trace_after(mmio.accesses(), before.len() as int);
    assert(value_of(s[0]) == pending);
    assert(mmio.accesses() =~= before + if claimed != 0 {
        seq![
            rd32(SCHEDULER_PENDING_EVENTS, pending),
            wr32(SCHEDULER_PENDING_EVENTS, pending & !claimed),
        ]
    } else {
        seq![rd32(SCHEDULER_PENDING_EVENTS, pending)]
    });
    claimed
}

/// Accesses of rewriting both ring cursor fields.
pub open spec fn resync_ring_accesses(ring: u32, cursor: u32, s: Seq<MmioAccess>) -> Seq<
    MmioAccess,
> {
    let word = value_of(s[0]);
    seq![
        rd32((ring + RING_CURSOR_AND_PENDING_MASK) as u32, word),
        wr32((ring + RING_CURSOR_AND_PENDING_MASK) as u32, ring_word_with_cursor(word, cursor)),
    ]
}

fn resync_pipe_ring_cursor<M: MacPipeMmio>(mmio: &mut M, ring: TxHardwareRingAddress, cursor: u8)
    requires
        ring.address <= TX_RING_BASE + 3 * TX_RING_STRIDE,
    ensures
        final(mmio).accesses() == old(mmio).accesses() + resync_ring_accesses(
            ring.address,
            cursor as u32,
            trace_after(final(mmio).accesses(), old(mmio).accesses().len() as int),
        ),
{
    let ghost before = mmio.accesses();
    let requested = cursor;
    let cursor = (cursor & 3) as u32;
    assert(cursor == (requested as u32) & 3) by (bit_vector)
        requires
            cursor == (requested & 3) as u32,
    ;
    let address = ring.cursor_and_pending_mask();
    let word = mmio.read_u32(address);
    mmio.write_u32(address, (word & 0xc0ff_ffff) | (cursor << 24) | (cursor << 27));
    let ghost s = trace_after(mmio.accesses(), before.len() as int);
    assert(value_of(s[0]) == word);
    assert(mmio.accesses() =~= before + resync_ring_accesses(ring.address, requested as u32, s));
}

/// Accesses of `resync_pipe_cursor`.
pub open spec fn resync_pipe_cursor_accesses(pipe: u8, s: Seq<MmioAccess>) -> Seq<MmioAccess> {
    let head = retained_ring_accesses(pipe, s);
    if !retained_ring_ok(pipe, s) {
        head
    } else {
        let record = pipe_record_of(pipe as int);
        let producer = value_of(s[1]);
        head + seq![rd8((record + PIPE_PRODUCER) as u32, producer)] + resync_ring_accesses(
            tx_ring_of(pipe as int),
            producer,
            s.subrange(2, s.len() as int),
        )
    }
}

/// Restores the invariant that the software producer equals the hardware
/// ring cursor, touching neither the acknowledgement nor the sentinel.
/// Returns false, without writing, when the pipe's ring is not retained.
pub fn resync_pipe_cursor<M: MacPipeMmio>(mmio: &mut M, pipe: u8) -> (resynced: bool)
    ensures
        ({
            let s = trace_after(final(mmio).accesses(), old(mmio).accesses().len() as int);
            &&& final(mmio).accesses() == old(mmio).accesses() + resync_pipe_cursor_accesses(
                pipe,
                s,
            )
            &&& resynced == retained_ring_ok(pipe, s)
        }),
{
    let ghost before = mmio.accesses();
    let ring = match retained_hardware_ring(mmio, pipe) {
        Some(ring) => ring,
        None => {
            return false;
        },
    };
    let ghost mid = mmio.accesses();
    proof {
        lemma_record_bounds(pipe);
    }
    let record = pipe_record_address(pipe);
    let producer = mmio.read_u8(record + PIPE_PRODUCER);
    let ghost mid2 = mmio.accesses();
    resync_pipe_ring_cursor(mmio, ring, producer);
    let ghost s = trace_after(mmio.accesses(), before.len() as int);
    proof {
        let s1 = trace_after(mid, before.len() as int);
        assert(s.subrange(0, 1) =~= s1);
        assert(value_of(s[1]) == producer as u32);
        let s3 = trace_after(mmio.accesses(), mid2.len() as int);
        assert(s.subrange(2, s.len() as int) =~= s3);
    }
    assert(mmio.accesses() =~= before + resync_pipe_cursor_accesses(pipe, s));
    true
}

/// Slot cursor the retire path leaves in the ring: `last + 1` for an armed
/// pipe, the producer for an idle one.
pub open spec fn advance_pipe_slot_accesses(pipe: u8, s: Seq<MmioAccess>) -> Seq<MmioAccess> {
    let head = retained_ring_accesses(pipe, s);
    if !retained_ring_ok(pipe, s) {
        head
    } else {
        let record = pipe_record_of(pipe as int);
        let ring = tx_ring_of(pipe as int);
        let armed = value_of(s[1]);
        let body = if armed != 0 {
            let aborts = value_of(s[3]);
            if aborts != 0xff {
                seq![
                    rd8((record + PIPE_STATE) as u32, armed),
                    wr8((record + PIPE_STATE) as u32, 0),
                    rd8((record + PIPE_ABORT_STATUS) as u32, aborts),
                    wr8((record + PIPE_ABORT_STATUS) as u32, (aborts + 1) as u32),
                    rd8((record + PIPE_LAST) as u32, value_of(s[5])),
                ]
            } else {
                seq![
                    rd8((record + PIPE_STATE) as u32, armed),
                    wr8((record + PIPE_STATE) as u32, 0),
                    rd8((record + PIPE_ABORT_STATUS) as u32, aborts),
                    rd8((record + PIPE_LAST) as u32, value_of(s[4])),
                ]
            }
        } else {
            seq![rd8((record + PIPE_STATE) as u32, armed), rd8((record + PIPE_PRODUCER) as u32, value_of(s[2]))]
        };
        let cursor = if armed != 0 {
            (value_of(s[body.len() as int]) + 1) as u32
        } else {
            value_of(s[2])
        };
        let tail_start = 1 + body.len() as int + 2;
        head + body + seq![
            wr32((ring + RING_INACTIVE_SENTINEL) as u32, PIPE_RETRY_INACTIVE_SENTINEL),
            wr32(PIPE_IRQ_PENDING, advance_ack(pipe)),
        ] + resync_ring_accesses(ring, cursor, s.subrange(tail_start, s.len() as int))
    }
}

/// Retires one pipe's hardware ring state: marks the command sentinel
/// inactive, acknowledges the pipe, and moves both ring cursors to the next
/// slot. An armed pipe is disarmed, its abort counter saturates at 0xff,
/// and the cursor becomes `last + 1`; an idle pipe republishes its
/// producer. Returns whether the pipe was armed, or `None` when its ring is
/// not retained.
pub fn advance_pipe_slot<M: MacPipeMmio>(mmio: &mut M, pipe: u8) -> (armed: Option<bool>)
    ensures
        ({
            let s = trace_after(final(mmio).accesses(), old(mmio).accesses().len() as int);
            &&& final(mmio).accesses() == old(mmio).accesses() + advance_pipe_slot_accesses(
                pipe,
                s,
            )
            &&& armed == if retained_ring_ok(pipe, s) {
                Some(value_of(s[1]) != 0)
            } else {
                None
            }
        }),
{
    let ghost before = mmio.accesses();
    let ring = match retained_hardware_ring(mmio, pipe) {
        Some(ring) => ring,
        None => {
            return None;
        },
    };
    proof {
        lemma_record_bounds(pipe);
    }
    let record = pipe_record_address(pipe);
    let armed_byte = mmio.read_u8(record + PIPE_STATE);
    let armed = armed_byte != 0;
    let ghost aborts_byte: u8 = 0;
    let ghost read_byte: u8 = 0;
    let cursor: u8 = if armed {
        mmio.write_u8(record + PIPE_STATE, 0);
        let aborts = mmio.read_u8(record + PIPE_ABORT_STATUS);
        proof {
            aborts_byte = aborts;
        }
        if aborts != 0xff {
            mmio.write_u8(record + PIPE_ABORT_STATUS, aborts + 1);
        }
        let last = mmio.read_u8(record + PIPE_LAST);
        proof {
            read_byte = last;
        }
        last.wrapping_add(1) & 3
    } else {
        let producer = mmio.read_u8(record + PIPE_PRODUCER);
        proof {
            read_byte = producer;
        }
        producer & 3
    };
    let ghost mid = mmio.accesses();
    proof {
        assert(PIPE_ADVANCE_ACK_BASE << ((pipe & 3) as u32) <= 0x8880) by (bit_vector)
            requires
                pipe < 4,
        ;
    }
    mmio.write_u32(ring.inactive_sentinel(), PIPE_RETRY_INACTIVE_SENTINEL);
    mmio.write_u32(
        PIPE_IRQ_PENDING,
        0u32.wrapping_sub((PIPE_ADVANCE_ACK_BASE << ((pipe & 3) as u32)) + 0x10),
    );
    let ghost mid2 = mmio.accesses();
    resync_pipe_ring_cursor(mmio, ring, cursor);
    let ghost s = trace_after(mmio.accesses(), before.len() as int);
    proof {
        let rec = pipe_record_of(pipe as int);
        let head = seq![rd32((rec + PIPE_HARDWARE_RING) as u32, ring.address)];
        let body = if armed {
            if aborts_byte != 0xff {
                seq![
                    rd8((rec + PIPE_STATE) as u32, armed_byte as u32),
                    wr8((rec + PIPE_STATE) as u32, 0),
                    rd8((rec + PIPE_ABORT_STATUS) as u32, aborts_byte as u32),
                    wr8((rec + PIPE_ABORT_STATUS) as u32, (aborts_byte + 1) as u32),
                    rd8((rec + PIPE_LAST) as u32, read_byte as u32),
                ]
            } else {
                seq![
                    rd8((rec + PIPE_STATE) as u32, armed_byte as u32),
                    wr8((rec + PIPE_STATE) as u32, 0),
                    rd8((rec + PIPE_ABORT_STATUS) as u32, aborts_byte as u32),
                    rd8((rec + PIPE_LAST) as u32, read_byte as u32),
                ]
            }
        } else {
            seq![
                rd8((rec + PIPE_STATE) as u32, armed_byte as u32),
                rd8((rec + PIPE_PRODUCER) as u32, read_byte as u32),
            ]
        };
        assert(trace_after(mid, before.len() as int) =~= head + body);
        let acks = seq![
            wr32((ring.address + RING_INACTIVE_SENTINEL) as u32, PIPE_RETRY_INACTIVE_SENTINEL),
            wr32(PIPE_IRQ_PENDING, advance_ack(pipe)),
        ];
        lemma_pipe_bits(pipe);
        assert(trace_after(mid2, mid.len() as int) =~= acks);
        let tail = trace_after(mmio.accesses(), mid2.len() as int);
        assert(s =~= head + body + acks + tail);
        assert(s.subrange(1 + body.len() as int + 2, s.len() as int) =~= tail);
        assert(value_of(s[1]) == armed_byte as u32);
        assert(value_of(s[body.len() as int]) == read_byte as u32);
        let expected_cursor: u32 = if armed {
            (read_byte as u32 + 1) as u32
        } else {
            read_byte as u32
        };
        if armed {
            assert(value_of(s[3]) == aborts_byte as u32);
            assert((cursor as u32) & 3 == expected_cursor & 3) by (bit_vector)
                requires
                    cursor == read_byte.wrapping_add(1) & 3,
                    expected_cursor == (read_byte as u32 + 1) as u32,
            ;
        } else {
            assert(value_of(s[2]) == read_byte as u32);
            assert((cursor as u32) & 3 == expected_cursor & 3) by (bit_vector)
                requires
                    cursor == read_byte & 3,
                    expected_cursor == read_byte as u32,
            ;
        }
        assert(resync_ring_accesses(ring.address, cursor as u32, tail) == resync_ring_accesses(
            ring.address,
            expected_cursor,
            tail,
        ));
    }
    assert(mmio.accesses() =~= before + advance_pipe_slot_accesses(pipe, s));
    Some(armed)
}

/// Slot record selected by the current-slot byte `current` of pipe
/// `pipe & 3`; the byte is not bounded.
pub open spec fn current_slot_of(pipe: u8, current: u32) -> u32 {
    slot_record_of((pipe & 3) as int, current as int)
}

proof fn lemma_current_slot_bounds(pipe: u8, current: u8)
    ensures
        pipe & 3 < 4,
        pipe_record_of((pipe & 3) as int) + PIPE_CURRENT <= u32::MAX,
        current_slot_of(pipe, current as u32) == slot_record_of((pipe & 3) as int, current as int),
        MAC_PIPE_RECORDS + 3 * MAC_PIPE_RECORD_SIZE + MAC_PIPE_SLOTS_OFFSET + 255
            * MAC_PIPE_SLOT_SIZE + SLOT_COMMAND <= 0x0500_0000,
{
    lemma_pipe_bits(pipe);
}

/// Reads pipe `pipe & 3`'s current-slot byte and returns that slot record.
fn current_slot<M: MacPipeMmio>(mmio: &mut M, pipe: u8) -> (slot: u32)
    ensures
        ({
            let s = trace_after(final(mmio).accesses(), old(mmio).accesses().len() as int);
            &&& final(mmio).accesses() == old(mmio).accesses().push(
                rd8((pipe_record_of((pipe & 3) as int) + PIPE_CURRENT) as u32, value_of(s[0])),
            )
            &&& value_of(s[0]) < 256
            &&& slot == current_slot_of(pipe, value_of(s[0]))
            &&& slot <= 0x0500_0000 - SLOT_COMMAND
        }),
{
    let ghost before = mmio.accesses();
    let record = pipe_record_address(pipe);
    let current = mmio.read_u8(record + PIPE_CURRENT);
    proof {
        lemma_current_slot_bounds(pipe, current);
        let s = trace_after(mmio.accesses(), before.len() as int);
        assert(s[0] == rd8((record + PIPE_CURRENT) as u32, current as u32));
    }
    slot_record_address(pipe & 3, current)
}

/// Same as `current_slot`, for the other executors of the crate.
pub(crate) fn current_slot_pub<M: MacPipeMmio>(mmio: &mut M, pipe: u8) -> (slot: u32)
    ensures
        ({
            let s = trace_after(final(mmio).accesses(), old(mmio).accesses().len() as int);
            &&& final(mmio).accesses() == old(mmio).accesses().push(
                rd8((pipe_record_of((pipe & 3) as int) + PIPE_CURRENT) as u32, value_of(s[0])),
            )
            &&& value_of(s[0]) < 256
            &&& slot == current_slot_of(pipe, value_of(s[0]))
            &&& slot <= 0x0500_0000 - SLOT_COMMAND
        }),
{
    current_slot(mmio, pipe)
}

/// Address of pipe `pipe & 3`'s current slot record.
pub fn current_slot_address<M: MacPipeMmio>(mmio: &mut M, pipe: u8) -> (slot: u32)
    ensures
        ({
            let s = trace_after(final(mmio).accesses(), old(mmio).accesses().len() as int);
            &&& final(mmio).accesses() == old(mmio).accesses().push(
                rd8((pipe_record_of((pipe & 3) as int) + PIPE_CURRENT) as u32, value_of(s[0])),
            )
            &&& slot == current_slot_of(pipe, value_of(s[0]))
        }),
{
    current_slot(mmio, pipe)
}

/// Accesses of publishing a pipe's record and current slot as the MAC's
/// current ones.
pub open spec fn publish_current_accesses(pipe: u8, s: Seq<MmioAccess>) -> Seq<MmioAccess> {
    seq![
        rd8((pipe_record_of((pipe & 3) as int) + PIPE_CURRENT) as u32, value_of(s[0])),
        wr32(MAC_CURRENT_PIPE_RECORD, pipe_record_of((pipe & 3) as int)),
        wr32(MAC_CURRENT_SLOT, current_slot_of(pipe, value_of(s[0]))),
    ]
}

/// Same as `publish_current_pipe_slot`, for the other executors of the crate.
pub(crate) fn publish_current_pipe_slot_pub<M: MacPipeMmio>(mmio: &mut M, pipe: u8) -> (published: (u32, u32))
    ensures
        ({
            let s = trace_after(final(mmio).accesses(), old(mmio).accesses().len() as int);
            &&& final(mmio).accesses() == old(mmio).accesses() + publish_current_accesses(pipe, s)
            &&& published == (pipe_record_of((pipe & 3) as int), current_slot_of(pipe, value_of(s[0])))
            &&& published.1 <= 0x0500_0000 - SLOT_COMMAND
        }),
{
    publish_current_pipe_slot(mmio, pipe)
}

/// Publishes pipe `pipe & 3`'s record and current slot as the MAC's current
/// pipe record and slot; returns both.
fn publish_current_pipe_slot<M: MacPipeMmio>(mmio: &mut M, pipe: u8) -> (published: (u32, u32))
    ensures
        ({
            let s = trace_after(final(mmio).accesses(), old(mmio).accesses().len() as int);
            &&& final(mmio).accesses() == old(mmio).accesses() + publish_current_accesses(pipe, s)
            &&& published == (pipe_record_of((pipe & 3) as int), current_slot_of(pipe, value_of(s[0])))
            &&& published.1 <= 0x0500_0000 - SLOT_COMMAND
        }),
{
    let ghost before = mmio.accesses();
    let pipe_state = pipe_record_address(pipe);
    let slot = current_slot(mmio, pipe);
    let ghost s0 = trace_after(mmio.accesses(), before.len() as int)[0];
    mmio.write_u32(MAC_CURRENT_PIPE_RECORD, pipe_state);
    mmio.write_u32(MAC_CURRENT_SLOT, slot);
    let ghost s = trace_after(mmio.accesses(), before.len() as int);
    assert(s[0] == s0);
    assert(mmio.accesses() =~= before + publish_current_accesses(pipe, s));
    (pipe_state, slot)
}

/// Accesses of reading a pipe's hardware cursor: the ring pointer, then the
/// cursor word when the pointer is the pipe's own ring.
pub open spec fn hardware_pipe_cursor_accesses(pipe: u8, s: Seq<MmioAccess>) -> Seq<MmioAccess> {
    if pipe >= 4 {
        Seq::empty()
    } else {
        let raw = value_of(s[0]);
        let head = seq![rd32((pipe_record_of(pipe as int) + PIPE_HARDWARE_RING) as u32, raw)];
        if raw != 0 && raw == tx_ring_of(pipe as int) {
            head + seq![
                rd32((tx_ring_of(pipe as int) + RING_CURSOR_AND_PENDING_MASK) as u32, value_of(s[1])),
            ]
        } else {
            head
        }
    }
}

/// Result of `hardware_pipe_cursor`, given what it read.
pub open spec fn hardware_pipe_cursor_result(pipe: u8, s: Seq<MmioAccess>) -> Result<Option<u8>, ()> {
    if pipe >= 4 {
        Err(())
    } else if value_of(s[0]) == 0 {
        Ok(None)
    } else if value_of(s[0]) != tx_ring_of(pipe as int) {
        Err(())
    } else {
        Ok(Some(((value_of(s[1]) >> 27) & 3) as u8))
    }
}

/// The hardware cursor (bits 28:27 of the ring word) of `pipe`: `Ok(None)`
/// when no ring is programmed, `Err` for a pipe out of range or a ring
/// pointer that is not the pipe's own.
pub fn hardware_pipe_cursor<M: MacPipeMmio>(mmio: &mut M, pipe: u8) -> (cursor: Result<Option<u8>, ()>)
    ensures
        ({
            let s = trace_after(final(mmio).accesses(), old(mmio).accesses().len() as int);
            &&& final(mmio).accesses() == old(mmio).accesses() + hardware_pipe_cursor_accesses(pipe, s)
            &&& cursor == hardware_pipe_cursor_result(pipe, s)
        }),
{
    let ghost before = mmio.accesses();
    if pipe >= 4 {
        assert(mmio.accesses() =~= before + Seq::empty());
        return Err(());
    }
    proof {
        lemma_record_bounds(pipe);
    }
    let record = pipe_record_address(pipe);
    let raw = mmio.read_u32(record + PIPE_HARDWARE_RING);
    let ghost head = seq![rd32((record + PIPE_HARDWARE_RING) as u32, raw)];
    if raw == 0 {
        let ghost s = trace_after(mmio.accesses(), before.len() as int);
        assert(s =~= head);
        assert(mmio.accesses() =~= before + hardware_pipe_cursor_accesses(pipe, s));
        return Ok(None);
    }
    let ring = match TxHardwareRingAddress::for_pipe(pipe, raw) {
        Some(ring) => ring,
        None => {
            let ghost s = trace_after(mmio.accesses(), before.len() as int);
            assert(s =~= head);
            assert(mmio.accesses() =~= before + hardware_pipe_cursor_accesses(pipe, s));
            return Err(());
        },
    };
    let word = mmio.read_u32(ring.cursor_and_pending_mask());
    let ghost s = trace_after(mmio.accesses(), before.len() as int);
    assert(s =~= head + seq![rd32((raw + RING_CURSOR_AND_PENDING_MASK) as u32, word)]);
    assert(value_of(s[1]) == word);
    assert(mmio.accesses() =~= before + hardware_pipe_cursor_accesses(pipe, s));
    assert((word >> 27) & 3 < 256) by (bit_vector);
    Ok(Some(((word >> 27) & 3) as u8))
}

/// Diagnostic word of a pipe's cursors: pipe, producer, last, current and
/// state nibbles, then the ring's two 3-bit cursor fields.
pub open spec fn pipe_cursor_packed(
    pipe: u8,
    producer: u32,
    last: u32,
    current: u32,
    state: u32,
    ring_word: u32,
) -> u32 {
    ((pipe & 3) as u32) | ((producer & 0x0f) << 4) | ((last & 0x0f) << 8) | ((current & 0x0f) << 12)
        | ((state & 0x0f) << 16) | (((ring_word >> 24) & 7) << 20) | (((ring_word >> 27) & 7) << 24)
}

/// Accesses of `pipe_cursor_diagnostic` after the ring reads, which take
/// `k` accesses: the producer, last, current and state bytes.
pub open spec fn cursor_byte_accesses(pipe: u8, k: int, s: Seq<MmioAccess>) -> Seq<MmioAccess> {
    let record = pipe_record_of(pipe as int);
    seq![
        rd8((record + PIPE_PRODUCER) as u32, value_of(s[k])),
        rd8((record + PIPE_LAST) as u32, value_of(s[k + 1])),
        rd8((record + PIPE_CURRENT) as u32, value_of(s[k + 2])),
        rd8((record + PIPE_STATE) as u32, value_of(s[k + 3])),
    ]
}

/// Accesses of `pipe_cursor_diagnostic`.
pub open spec fn pipe_cursor_diagnostic_accesses(pipe: u8, s: Seq<MmioAccess>) -> Seq<MmioAccess> {
    if pipe >= 4 {
        Seq::empty()
    } else if retained_ring_ok(pipe, s) {
        retained_ring_accesses(pipe, s) + seq![
            rd32((tx_ring_of(pipe as int) + RING_CURSOR_AND_PENDING_MASK) as u32, value_of(s[1])),
        ] + cursor_byte_accesses(pipe, 2, s)
    } else {
        retained_ring_accesses(pipe, s) + cursor_byte_accesses(pipe, 1, s)
    }
}

/// Cursor diagnostic of `pipe`: the packed software and hardware cursors and
/// the raw ring word (zero when the ring is not retained). A pipe out of
/// range reads nothing and gives `(pipe, 0)`.
pub fn pipe_cursor_diagnostic<M: MacPipeMmio>(mmio: &mut M, pipe: u8) -> (diagnostic: (u32, u32))
    ensures
        ({
            let s = trace_after(final(mmio).accesses(), old(mmio).accesses().len() as int);
            let k: int = if retained_ring_ok(pipe, s) { 2 } else { 1 };
            let ring_word = if retained_ring_ok(pipe, s) { value_of(s[1]) } else { 0 };
            &&& final(mmio).accesses() == old(mmio).accesses() + pipe_cursor_diagnostic_accesses(pipe, s)
            &&& diagnostic == if pipe >= 4 {
                (pipe as u32, 0u32)
            } else {
                (
                    pipe_cursor_packed(
                        pipe,
                        value_of(s[k]),
                        value_of(s[k + 1]),
                        value_of(s[k + 2]),
                        value_of(s[k + 3]),
                        ring_word,
                    ),
                    ring_word,
                )
            }
        }),
{
    let ghost before = mmio.accesses();
    if pipe >= 4 {
        assert(mmio.accesses() =~= before + Seq::empty());
        return (pipe as u32, 0);
    }
    proof {
        lemma_record_bounds(pipe);
    }
    let record = pipe_record_address(pipe);
    let ring_word = match retained_hardware_ring(mmio, pipe) {
        Some(ring) => mmio.read_u32(ring.cursor_and_pending_mask()),
        None => 0,
    };
    let ghost mid = mmio.accesses();
    let producer = mmio.read_u8(record + PIPE_PRODUCER);
    let last = mmio.read_u8(record + PIPE_LAST);
    let current = mmio.read_u8(record + PIPE_CURRENT);
    let state = mmio.read_u8(record + PIPE_STATE);
    let packed = (pipe & 3) as u32 | ((producer & 0x0f) as u32) << 4 | ((last & 0x0f) as u32) << 8
        | ((current & 0x0f) as u32) << 12 | ((state & 0x0f) as u32) << 16 | ((ring_word >> 24) & 7)
        << 20 | ((ring_word >> 27) & 7) << 24;
    let ghost s = trace_after(mmio.accesses(), before.len() as int);
    proof {
        let k: int = (mid.len() - before.len()) as int;
        let tail = trace_after(mmio.accesses(), mid.len() as int);
        assert(tail =~= seq![
            rd8((record + PIPE_PRODUCER) as u32, producer as u32),
            rd8((record + PIPE_LAST) as u32, last as u32),
            rd8((record + PIPE_CURRENT) as u32, current as u32),
            rd8((record + PIPE_STATE) as u32, state as u32),
        ]);
        assert(s =~= trace_after(mid, before.len() as int) + tail);
        assert(value_of(s[k]) == producer as u32);
        assert(value_of(s[k + 1]) == last as u32);
        assert(value_of(s[k + 2]) == current as u32);
        assert(value_of(s[k + 3]) == state as u32);
        assert(cursor_byte_accesses(pipe, k, s) =~= tail);
        lemma_pipe_bits(producer);
        lemma_pipe_bits(last);
        lemma_pipe_bits(current);
        lemma_pipe_bits(state);
    }
    assert(mmio.accesses() =~= before + pipe_cursor_diagnostic_accesses(pipe, s));
    (packed, ring_word)
}


/// After a resync that found the pipe's ring retained, a cursor diagnostic
/// that reads back what the resync left (the ring word it wrote and the
/// producer it read) shows the software producer equal to the hardware
/// ring cursor, when the producer is a slot index.
pub proof fn lemma_resync_establishes_cursor_invariant(pipe: u8, resync: Seq<MmioAccess>, diagnostic: Seq<MmioAccess>)
    requires
        resync == resync_pipe_cursor_accesses(pipe, resync),
        retained_ring_ok(pipe, resync),
        value_of(resync[1]) < 4,
        diagnostic == pipe_cursor_diagnostic_accesses(pipe, diagnostic),
        retained_ring_ok(pipe, diagnostic),
        value_of(diagnostic[1]) == value_of(resync[3]),
        value_of(diagnostic[2]) == value_of(resync[1]),
    ensures
        ({
            let packed = pipe_cursor_packed(
                pipe,
                value_of(diagnostic[2]),
                value_of(diagnostic[3]),
                value_of(diagnostic[4]),
                value_of(diagnostic[5]),
                value_of(diagnostic[1]),
            );
            (packed >> 4) & 0x0f == (packed >> 24) & 0x0f
        }),
{
    let producer = value_of(resync[1]);
    let word = value_of(resync[2]);
    let written = value_of(resync[3]);
    assert(written == ring_word_with_cursor(word, producer));
    let last = value_of(diagnostic[3]);
    let current = value_of(diagnostic[4]);
    let state = value_of(diagnostic[5]);
    let packed = pipe_cursor_packed(pipe, producer, last, current, state, written);
    assert((packed >> 4) & 0x0f == (packed >> 24) & 0x0f) by (bit_vector)
        requires
            producer < 4,
            written == (word & 0xc0ff_ffff) | ((producer & 3) << 24) | ((producer & 3) << 27),
            packed == ((pipe & 3) as u32) | ((producer & 0x0f) << 4) | ((last & 0x0f) << 8) | ((current & 0x0f)
                << 12) | ((state & 0x0f) << 16) | (((written >> 24) & 7) << 20) | (((written >> 27) & 7) << 24),
    ;
}

} // verus!
