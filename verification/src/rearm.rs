//! Duration descriptors of a single frame and the fixed-rate re-arm of a
//! retried frame.
//!
//! A duration descriptor draws a random backoff from the retry LFSR, masks
//! it with the frame's contention window, records it in the backoff
//! statistics and the frame, and writes the flags and duration words of the
//! descriptor; a frame that expects an ACK gets a duration from its rate's
//! timing and the slot times.

use vstd::prelude::*;

use crate::context::{FrameNodeAddress, FRAME_NODE_OFFSET};
use crate::mmio::{rd16, rd32, rd8, trace_after, value_of, wr16, wr32, MacPipeMmio, MmioAccess};
use crate::offset;
use crate::pipe_exec::{retained_hardware_ring, retained_ring_accesses, retained_ring_ok};
use crate::registers::{
    pipe_record_of, tx_ring_of, LOW_MAC_SLOT_TIME_BASE, LOW_MAC_SLOT_TIME_INITIAL,
    MAC_RETRY_HARDWARE_STATE, MAC_RETRY_RATES, PAS_CONTENTION_WINDOWS, PAS_STRIDE, PIPE_CURRENT,
    PIPE_IRQ_PENDING, PIPE_IRQ_TRIGGER, PIPE_PRODUCER, PIPE_RETRY_INACTIVE_SENTINEL,
    PIPE_RETRY_RANDOM_STATS, PIPE_RETRY_SPECIAL_ACK, RETRY_RANDOM_LFSR,
    RING_CURSOR_AND_PENDING_MASK, RING_INACTIVE_SENTINEL, SLOT_COMMAND, SLOT_EXPECTED_STATUS,
    SLOT_KIND, TX_DURATION_TIMINGS,
};

verus! {

/// Address of the context field at `field` of the frame node `node`.
pub open spec fn node_field(node: u32, field: u32) -> u32 {
    node.wrapping_sub(FRAME_NODE_OFFSET).wrapping_add(field)
}

/// The retry LFSR after one step.
pub open spec fn lfsr_next(state: u32) -> u32 {
    (state << 27u32) | (((state >> 4u32) ^ state) & 0x07ff_ffffu32)
}

/// Contention-window halfword of access category `selector` on interface
/// `interface`.
pub open spec fn contention_window_of(interface: u32, selector: u32) -> u32 {
    PAS_CONTENTION_WINDOWS.wrapping_add(interface.wrapping_mul(PAS_STRIDE)).wrapping_add(
        selector.wrapping_mul(2),
    )
}

/// Statistics bucket of a backoff: 1 for 0..=7, doubling ranges up to 8
/// for 512 and above.
pub open spec fn backoff_bucket(random: u16) -> u32 {
    if random <= 7 {
        1
    } else if random <= 15 {
        2
    } else if random <= 31 {
        3
    } else if random <= 63 {
        4
    } else if random <= 127 {
        5
    } else if random <= 255 {
        6
    } else if random <= 511 {
        7
    } else {
        8
    }
}

/// Duration word of a frame that expects an ACK, from its timing and the
/// two slot times.
pub open spec fn ack_duration_word(initial: u32, base: u32, timing: u32) -> u32 {
    let duration = initial.wrapping_add(base.wrapping_mul(2)).wrapping_add(timing) & 0xffff;
    0xd800_0000u32 | (((duration & 0x03ff) * 8 + 0x2000) as u32)
}

/// Accesses of one LFSR step: read the state, write its successor.
pub open spec fn random_accesses(t: Seq<MmioAccess>) -> Seq<MmioAccess> {
    seq![rd32(RETRY_RANDOM_LFSR, value_of(t[0])), wr32(RETRY_RANDOM_LFSR, lfsr_next(value_of(t[0])))]
}

/// Steps the retry LFSR and returns the low 24 bits of the new state.
pub fn next_retry_random24<M: MacPipeMmio>(mmio: &mut M) -> (random: u32)
    ensures
        ({
            let t = trace_after(final(mmio).accesses(), old(mmio).accesses().len() as int);
            &&& final(mmio).accesses() == old(mmio).accesses() + random_accesses(t)
            &&& random == lfsr_next(value_of(t[0])) & 0x00ff_ffff
        }),
{
    let ghost before = mmio.accesses();
    let state = mmio.read_u32(RETRY_RANDOM_LFSR);
    let mixed = (state >> 4u32) ^ state;
    let next = (state << 27u32) | (mixed & 0x07ff_ffff);
    mmio.write_u32(RETRY_RANDOM_LFSR, next);
    let ghost t = trace_after(mmio.accesses(), before.len() as int);
    assert(value_of(t[0]) == state);
    assert(mmio.accesses() =~= before + random_accesses(t));
    next & 0x00ff_ffff
}

/// The backoff drawn from state `state` under window `mask`.
pub open spec fn drawn_backoff(state: u32, mask: u32) -> u16 {
    (((lfsr_next(state) & 0x00ff_ffff) as u16) & (mask as u16)) as u16
}

/// Accesses of the statistics and frame updates for backoff `random`, given
/// what was read: the running maximum, then the bucket count.
pub open spec fn backoff_record_accesses(node: u32, random: u16, t: Seq<MmioAccess>) -> Seq<
    MmioAccess,
> {
    let maximum = value_of(t[0]);
    let raised = maximum < random as u32;
    let bucket_address = (PIPE_RETRY_RANDOM_STATS + backoff_bucket(random) * 4) as u32;
    let count = value_of(t[if raised {
        2int
    } else {
        1int
    }]);
    seq![rd32(PIPE_RETRY_RANDOM_STATS, maximum)] + (if raised {
        seq![wr32(PIPE_RETRY_RANDOM_STATS, random as u32)]
    } else {
        Seq::empty()
    }) + seq![
        rd32(bucket_address, count),
        wr32(bucket_address, count.wrapping_add(1)),
        wr16(node_field(node, offset::RETRY_RANDOM), random as u32),
    ]
}

/// Accesses of the duration word, given what was read.
pub open spec fn duration_word_accesses(
    descriptor: u32,
    node: u32,
    expects_ack: bool,
    t: Seq<MmioAccess>,
) -> Seq<MmioAccess> {
    if expects_ack {
        let rate = value_of(t[0]);
        let timing_index = value_of(t[1]);
        let timing = value_of(t[2]);
        let initial = value_of(t[3]);
        let base = value_of(t[4]);
        seq![
            rd8(node_field(node, offset::TX_RATE), rate),
            rd8(MAC_RETRY_RATES.wrapping_add(rate), timing_index),
            rd16(TX_DURATION_TIMINGS.wrapping_add(timing_index.wrapping_mul(2)), timing),
            rd32(LOW_MAC_SLOT_TIME_INITIAL, initial),
            rd32(LOW_MAC_SLOT_TIME_BASE, base),
            wr32(descriptor.wrapping_add(8), ack_duration_word(initial, base, timing)),
        ]
    } else {
        seq![wr32(descriptor.wrapping_add(8), 0xdc00_0000)]
    }
}

/// Every access of building a single-frame duration descriptor, given what
/// was read: clear the command word; read the interface and access category
/// and its contention window; step the LFSR; record the backoff; write the
/// flags word with the backoff in bits 10..21; write the duration word.
#[verifier::opaque]
pub open spec fn duration_accesses(descriptor: u32, node: u32, expects_ack: bool, t: Seq<MmioAccess>) -> Seq<
    MmioAccess,
> {
    let interface = value_of(t[1]);
    let selector = value_of(t[2]);
    let mask = value_of(t[3]);
    let random = drawn_backoff(value_of(t[4]), mask);
    let head = seq![
        wr32(descriptor, 0),
        rd8(node_field(node, offset::INTERFACE), interface),
        rd8(node_field(node, offset::ACCESS_CATEGORY), selector),
        rd16(contention_window_of(interface, selector), mask),
    ] + random_accesses(t.skip(4));
    let record = backoff_record_accesses(node, random, t.skip(6));
    let flags = seq![wr32(descriptor.wrapping_add(4), ((random as u32) & 0x0fff) << 10u32)];
    let before_duration = head + record + flags;
    before_duration + duration_word_accesses(
        descriptor,
        node,
        expects_ack,
        t.skip(before_duration.len() as int),
    )
}

proof fn lemma_bucket(random: u16, bucket: u32)
    requires
        bucket == if random <= 7 {
            1u32
        } else if random <= 15 {
            2
        } else if random <= 31 {
            3
        } else if random <= 63 {
            4
        } else if random <= 127 {
            5
        } else if random <= 255 {
            6
        } else if random <= 511 {
            7
        } else {
            8
        },
    ensures
        bucket == backoff_bucket(random),
        1 <= bucket <= 8,
{
}

/// Records backoff `random` in the statistics and the frame.
fn record_backoff<M: MacPipeMmio>(mmio: &mut M, node: FrameNodeAddress, random: u16)
    ensures
        final(mmio).accesses() == old(mmio).accesses() + backoff_record_accesses(
            node@,
            random,
            trace_after(final(mmio).accesses(), old(mmio).accesses().len() as int),
        ),
{
    let ghost before = mmio.accesses();
    let maximum = mmio.read_u32(PIPE_RETRY_RANDOM_STATS);
    if maximum < random as u32 {
        mmio.write_u32(PIPE_RETRY_RANDOM_STATS, random as u32);
    }
    let bucket: u32 = if random <= 7 {
        1
    } else if random <= 15 {
        2
    } else if random <= 31 {
        3
    } else if random <= 63 {
        4
    } else if random <= 127 {
        5
    } else if random <= 255 {
        6
    } else if random <= 511 {
        7
    } else {
        8
    };
    proof {
        lemma_bucket(random, bucket);
    }
    let bucket_address = PIPE_RETRY_RANDOM_STATS + bucket * 4;
    let count = mmio.read_u32(bucket_address).wrapping_add(1);
    mmio.write_u32(bucket_address, count);
    mmio.write_u16(node.retry_random(), random);
    let ghost t = trace_after(mmio.accesses(), before.len() as int);
    assert(value_of(t[0]) == maximum);
    assert(t =~= backoff_record_accesses(node@, random, t));
    assert(mmio.accesses() =~= before + t);
}

/// Writes the duration word of the descriptor.
fn write_duration_word<M: MacPipeMmio>(
    mmio: &mut M,
    descriptor: u32,
    node: FrameNodeAddress,
    expects_ack: bool,
)
    ensures
        final(mmio).accesses() == old(mmio).accesses() + duration_word_accesses(
            descriptor,
            node@,
            expects_ack,
            trace_after(final(mmio).accesses(), old(mmio).accesses().len() as int),
        ),
{
    let ghost before = mmio.accesses();
    let duration_word = if expects_ack {
        let rate = mmio.read_u8(node.tx_rate()) as u32;
        let timing_index = mmio.read_u8(MAC_RETRY_RATES.wrapping_add(rate)) as u32;
        let timing = mmio.read_u16(TX_DURATION_TIMINGS.wrapping_add(timing_index.wrapping_mul(2)))
            as u32;
        let initial = mmio.read_u32(LOW_MAC_SLOT_TIME_INITIAL);
        let base = mmio.read_u32(LOW_MAC_SLOT_TIME_BASE);
        let duration = initial.wrapping_add(base.wrapping_mul(2)).wrapping_add(timing) & 0xffff;
        assert(duration & 0x03ff <= 0x3ff) by (bit_vector);
        0xd800_0000u32 | ((duration & 0x03ff) * 8).wrapping_add(0x2000)
    } else {
        0xdc00_0000u32
    };
    mmio.write_u32(descriptor.wrapping_add(8), duration_word);
    let ghost t = trace_after(mmio.accesses(), before.len() as int);
    assert(t =~= duration_word_accesses(descriptor, node@, expects_ack, t));
    assert(mmio.accesses() =~= before + t);
}

/// Builds the duration descriptor of a single frame: see `duration_accesses`.
fn build_single_frame_duration<M: MacPipeMmio>(
    mmio: &mut M,
    descriptor: u32,
    frame_node: FrameNodeAddress,
    expects_ack: bool,
)
    ensures
        final(mmio).accesses() == old(mmio).accesses() + duration_accesses(
            descriptor,
            frame_node@,
            expects_ack,
            trace_after(final(mmio).accesses(), old(mmio).accesses().len() as int),
        ),
{
    let ghost before = mmio.accesses();
    mmio.write_u32(descriptor, 0);
    let interface = mmio.read_u8(frame_node.interface()) as u32;
    let selector = mmio.read_u8(frame_node.access_category()) as u32;
    let window = PAS_CONTENTION_WINDOWS.wrapping_add(interface.wrapping_mul(PAS_STRIDE)).wrapping_add(
        selector.wrapping_mul(2),
    );
    let random_mask = mmio.read_u16(window);
    let ghost drawn_at = mmio.accesses();
    let drawn = next_retry_random24(mmio);
    let random: u16 = (drawn as u16) & random_mask;
    let ghost record_at = mmio.accesses();
    record_backoff(mmio, frame_node, random);
    let ghost flags_at = mmio.accesses();
    mmio.write_u32(descriptor.wrapping_add(4), ((random as u32) & 0x0fff) << 10u32);
    let ghost duration_at = mmio.accesses();
    write_duration_word(mmio, descriptor, frame_node, expects_ack);
    proof {
        reveal(duration_accesses);
        let t = trace_after(mmio.accesses(), before.len() as int);
        let rt = trace_after(drawn_at, before.len() as int);
        assert(value_of(t[1]) == interface);
        assert(value_of(t[2]) == selector);
        assert(value_of(t[3]) == random_mask as u32);
        assert(t.skip(4).subrange(0, 2) =~= trace_after(record_at, drawn_at.len() as int));
        assert(random == drawn_backoff(value_of(t[4]), value_of(t[3])));
        let record = trace_after(flags_at, record_at.len() as int);
        assert(t.skip(6).subrange(0, record.len() as int) =~= record);
        assert(backoff_record_accesses(frame_node@, random, t.skip(6)) =~= record);
        let before_duration = t.subrange(0, (duration_at.len() - before.len()) as int);
        assert(t.skip(before_duration.len() as int) =~= trace_after(mmio.accesses(), duration_at.len() as int));
        assert(t =~= duration_accesses(descriptor, frame_node@, expects_ack, t));
    }
    assert(mmio.accesses() =~= before + trace_after(mmio.accesses(), before.len() as int));
}

/// Duration descriptor of a fixed-rate retry, which expects an ACK.
pub fn build_fixed_rate_retry_duration<M: MacPipeMmio>(
    mmio: &mut M,
    descriptor: u32,
    frame_node: FrameNodeAddress,
)
    ensures
        final(mmio).accesses() == old(mmio).accesses() + duration_accesses(
            descriptor,
            frame_node@,
            true,
            trace_after(final(mmio).accesses(), old(mmio).accesses().len() as int),
        ),
{
    build_single_frame_duration(mmio, descriptor, frame_node, true);
}

/// Duration descriptor of a no-ACK broadcast probe.
pub fn build_no_ack_single_frame_duration<M: MacPipeMmio>(
    mmio: &mut M,
    descriptor: u32,
    frame_node: FrameNodeAddress,
)
    ensures
        final(mmio).accesses() == old(mmio).accesses() + duration_accesses(
            descriptor,
            frame_node@,
            false,
            trace_after(final(mmio).accesses(), old(mmio).accesses().len() as int),
        ),
{
    build_single_frame_duration(mmio, descriptor, frame_node, false);
}

/// A duration trace depends only on the accesses it consists of.
proof fn lemma_duration_stable(
    descriptor: u32,
    node: u32,
    expects_ack: bool,
    d: Seq<MmioAccess>,
    e: Seq<MmioAccess>,
)
    requires
        d == duration_accesses(descriptor, node, expects_ack, d),
    ensures
        duration_accesses(descriptor, node, expects_ack, d + e) == d,
{
    reveal(duration_accesses);
    let t = d + e;
    assert forall|i: int| 0 <= i < d.len() implies t[i] == d[i] by {}
    let random = drawn_backoff(value_of(d[4]), value_of(d[3]));
    let record_d = backoff_record_accesses(node, random, d.skip(6));
    assert(d.len() >= 6 + record_d.len() + 1);
    assert(t.skip(6)[0] == d.skip(6)[0]);
    assert(t.skip(6)[1] == d.skip(6)[1]);
    if value_of(d.skip(6)[0]) < random as u32 {
        assert(t.skip(6)[2] == d.skip(6)[2]);
    }
    assert(backoff_record_accesses(node, random, t.skip(6)) == record_d);
    let k: int = 6 + record_d.len() as int + 1;
    if expects_ack {
        assert forall|j: int| 0 <= j < 5 implies t.skip(k)[j] == d.skip(k)[j] by {}
    }
    assert(duration_word_accesses(descriptor, node, expects_ack, t.skip(k)) == duration_word_accesses(
        descriptor,
        node,
        expects_ack,
        d.skip(k),
    ));
}

/// One call made on a re-arm backend.
#[derive(Clone, Copy, Debug, PartialEq, Eq, Structural)]
pub enum RearmBackendCall {
    RebuildRateDescriptor { pipe: u8, slot: u32, frame_node: FrameNodeAddress },
    FatalUnsupportedRearmShape { pipe: u8, slot: u32, frame_node: FrameNodeAddress },
}

/// Rate-descriptor rebuild and fatal boundary of the fixed-rate re-arm.
/// Each call is recorded in `calls`.
pub trait SingleFrameRearmBackend {
    /// Every call made so far, oldest first.
    /// A verified implementation defines it; the empty default only lets an
    /// implementation that Verus does not check leave it out.
    open spec fn calls(&self) -> Seq<RearmBackendCall> {
        Seq::empty()
    }

    /// Rebuilds the PHY rate descriptor of a frame whose rate changed.
    fn rebuild_rate_descriptor(&mut self, pipe: u8, slot: u32, frame_node: FrameNodeAddress)
        ensures
            final(self).calls() == old(self).calls().push(
                RearmBackendCall::RebuildRateDescriptor { pipe, slot, frame_node },
            ),
    ;

    /// A re-arm shape outside the fixed-rate one-frame subset: production
    /// enters fatal quiescence here.
    fn fatal_unsupported_rearm_shape(&mut self, pipe: u8, slot: u32, frame_node: FrameNodeAddress)
        ensures
            final(self).calls() == old(self).calls().push(
                RearmBackendCall::FatalUnsupportedRearmShape { pipe, slot, frame_node },
            ),
    ;
}

#[derive(Clone, Copy, Debug, PartialEq, Eq, Structural)]
pub enum SingleFrameRearmOutcome {
    CommandMaskAcknowledged,
    HardwareSentinelAcknowledged,
    /// The backend's fatal leaf was called; nothing more was done.
    FatalUnsupported,
}

/// Flags word of the descriptor with the retried status published.
pub open spec fn status_flags(flags: u32, status: u32) -> u32 {
    flags | status.wrapping_add(0x80)
}

/// Accesses of clearing the current command-mask bit and acknowledging.
pub open spec fn command_mask_release(pipe: u8, current: u32, pending_mask: u32, t: Seq<MmioAccess>) -> Seq<
    MmioAccess,
> {
    let ring_mask = (tx_ring_of(pipe as int) + RING_CURSOR_AND_PENDING_MASK) as u32;
    seq![
        rd32(ring_mask, value_of(t[0])),
        wr32(ring_mask, value_of(t[0]) & !(1u32 << current)),
        wr32(PIPE_IRQ_PENDING, 0u32.wrapping_sub(pending_mask.wrapping_add(1))),
    ]
}

/// What the re-arm does after the duration is rebuilt: publish the status
/// in the flags, trigger the pipe, then acknowledge through the hardware
/// sentinel when the retry hardware asks for it; otherwise clear the
/// current command-mask bit, after re-publishing the flags for a frame of
/// kind other than 0xff. With the producer away from the current slot only
/// the plain ordinary shape (slot kind 0, flag bit 15 clear) is handled.
#[verifier::opaque]
pub open spec fn rearm_tail_accesses(
    pipe: u8,
    slot: u32,
    node: u32,
    pending_mask: u32,
    descriptor: u32,
    status: u32,
    flags: u32,
    t: Seq<MmioAccess>,
) -> Seq<MmioAccess> {
    let rec = pipe_record_of(pipe as int);
    let ring = tx_ring_of(pipe as int);
    let hardware = value_of(t[3]);
    let producer = value_of(t[4]) & 3;
    let current = value_of(t[5]) & 3;
    let kind = value_of(t[6]);
    let frame_kind = value_of(t[6]);
    let published = seq![
        rd32(descriptor.wrapping_add(4), value_of(t[0])),
        wr32(descriptor.wrapping_add(4), status_flags(value_of(t[0]), status)),
        wr32(PIPE_IRQ_TRIGGER, (1u32 << (pipe as u32)) << 25u32),
        rd8(MAC_RETRY_HARDWARE_STATE, hardware),
    ];
    if hardware & 2 != 0 {
        published + seq![
            wr32((ring + RING_INACTIVE_SENTINEL) as u32, PIPE_RETRY_INACTIVE_SENTINEL),
            wr32(PIPE_IRQ_PENDING, 0u32.wrapping_sub(pending_mask.wrapping_add(PIPE_RETRY_SPECIAL_ACK))),
        ]
    } else {
        let cursors = published + seq![
            rd8((rec + PIPE_PRODUCER) as u32, value_of(t[4])),
            rd8((rec + PIPE_CURRENT) as u32, value_of(t[5])),
        ];
        if producer != current {
            let checked = cursors.push(rd8(slot.wrapping_add(SLOT_KIND), kind));
            if kind == 0 && flags & 0x8000 == 0 {
                checked + command_mask_release(pipe, current, pending_mask, t.skip(7))
            } else {
                checked
            }
        } else {
            let republished = cursors.push(rd8(node_field(node, offset::RETRY_RATE), frame_kind))
                + if frame_kind != 0xff {
                seq![
                    rd32(descriptor.wrapping_add(4), value_of(t[7])),
                    wr32(descriptor.wrapping_add(4), status_flags(value_of(t[7]), status)),
                ]
            } else {
                Seq::empty()
            };
            republished + command_mask_release(
                pipe,
                current,
                pending_mask,
                t.skip(republished.len() as int),
            )
        }
    }
}

/// The tail refuses only the unsupported multi-slot shape.
pub open spec fn rearm_tail_refused(flags: u32, t: Seq<MmioAccess>) -> bool {
    value_of(t[3]) & 2 == 0 && value_of(t[4]) & 3 != value_of(t[5]) & 3 && !(value_of(t[6]) == 0
        && flags & 0x8000 == 0)
}

pub open spec fn rearm_tail_outcome(flags: u32, t: Seq<MmioAccess>) -> SingleFrameRearmOutcome {
    if value_of(t[3]) & 2 != 0 {
        SingleFrameRearmOutcome::HardwareSentinelAcknowledged
    } else if rearm_tail_refused(flags, t) {
        SingleFrameRearmOutcome::FatalUnsupported
    } else {
        SingleFrameRearmOutcome::CommandMaskAcknowledged
    }
}

proof fn lemma_small_pipe(pipe: u8)
    requires
        pipe < 4,
    ensures
        (1u32 << pipe) << 25u32 <= 0x1000_0000,
        pipe & 3 == pipe,
{
    crate::registers::lemma_pipe_bits(pipe);
}

/// Clears the current command-mask bit and acknowledges.
fn release_command_mask<M: MacPipeMmio>(mmio: &mut M, pipe: u8, current: u8, pending_mask: u32)
    requires
        pipe < 4,
        current < 4,
    ensures
        final(mmio).accesses() == old(mmio).accesses() + command_mask_release(
            pipe,
            current as u32,
            pending_mask,
            trace_after(final(mmio).accesses(), old(mmio).accesses().len() as int),
        ),
{
    let ghost before = mmio.accesses();
    let ring = crate::registers::tx_ring_register(pipe);
    let command_mask = mmio.read_u32(ring + RING_CURSOR_AND_PENDING_MASK);
    mmio.write_u32(ring + RING_CURSOR_AND_PENDING_MASK, command_mask & !(1u32 << current));
    mmio.write_u32(PIPE_IRQ_PENDING, 0u32.wrapping_sub(pending_mask.wrapping_add(1)));
    let ghost t = trace_after(mmio.accesses(), before.len() as int);
    assert(value_of(t[0]) == command_mask);
    assert(t =~= command_mask_release(pipe, current as u32, pending_mask, t));
    assert(mmio.accesses() =~= before + t);
}

/// Everything after the duration is rebuilt: see `rearm_tail_accesses`.
fn rearm_tail<M: MacPipeMmio, B: SingleFrameRearmBackend>(
    mmio: &mut M,
    pipe: u8,
    slot: u32,
    frame_node: FrameNodeAddress,
    pending_mask: u32,
    descriptor: u32,
    status: u8,
    flags: u32,
    backend: &mut B,
) -> (outcome: SingleFrameRearmOutcome)
    requires
        pipe < 4,
    ensures
        ({
            let t = trace_after(final(mmio).accesses(), old(mmio).accesses().len() as int);
            &&& final(mmio).accesses() == old(mmio).accesses() + rearm_tail_accesses(
                pipe,
                slot,
                frame_node@,
                pending_mask,
                descriptor,
                status as u32,
                flags,
                t,
            )
            &&& final(backend).calls() == old(backend).calls() + if rearm_tail_refused(flags, t) {
                seq![RearmBackendCall::FatalUnsupportedRearmShape { pipe, slot, frame_node }]
            } else {
                Seq::empty()
            }
            &&& outcome == rearm_tail_outcome(flags, t)
        }),
{
    let ghost before = mmio.accesses();
    let ghost calls_before = backend.calls();
    proof {
        lemma_small_pipe(pipe);
        reveal(rearm_tail_accesses);
    }
    let record = crate::registers::pipe_record_address(pipe);
    let ring = crate::registers::tx_ring_register(pipe);
    let published_flags = mmio.read_u32(descriptor.wrapping_add(4)) | (status as u32).wrapping_add(0x80);
    mmio.write_u32(descriptor.wrapping_add(4), published_flags);
    mmio.write_u32(PIPE_IRQ_TRIGGER, (1u32 << pipe) << 25u32);
    let hardware = mmio.read_u8(MAC_RETRY_HARDWARE_STATE);
    if hardware & 2 != 0 {
        mmio.write_u32(ring + RING_INACTIVE_SENTINEL, PIPE_RETRY_INACTIVE_SENTINEL);
        mmio.write_u32(
            PIPE_IRQ_PENDING,
            0u32.wrapping_sub(pending_mask.wrapping_add(PIPE_RETRY_SPECIAL_ACK)),
        );
        proof {
            let t = trace_after(mmio.accesses(), before.len() as int);
            assert(value_of(t[3]) == hardware as u32);
            assert((hardware as u32) & 2 == (hardware & 2) as u32) by (bit_vector);
            assert(t =~= rearm_tail_accesses(pipe, slot, frame_node@, pending_mask, descriptor, status as u32, flags, t));
        }
        assert(mmio.accesses() =~= before + trace_after(mmio.accesses(), before.len() as int));
        assert(backend.calls() =~= calls_before + Seq::empty());
        return SingleFrameRearmOutcome::HardwareSentinelAcknowledged;
    }
    let producer_byte = mmio.read_u8(record + PIPE_PRODUCER);
    let current_byte = mmio.read_u8(record + PIPE_CURRENT);
    let producer = producer_byte & 3;
    let current = current_byte & 3;
    proof {
        assert((hardware as u32) & 2 == (hardware & 2) as u32) by (bit_vector);
        assert((producer_byte as u32) & 3 == (producer_byte & 3) as u32) by (bit_vector);
        assert((current_byte as u32) & 3 == (current_byte & 3) as u32) by (bit_vector);
        assert(current < 4) by (bit_vector)
            requires
                current == current_byte & 3,
        ;
    }
    let ghost cursors_at = mmio.accesses();
    if producer != current {
        let kind = mmio.read_u8(slot.wrapping_add(SLOT_KIND));
        if kind == 0 && flags & 0x8000 == 0 {
            let ghost release_at = mmio.accesses();
            release_command_mask(mmio, pipe, current, pending_mask);
            proof {
                let t = trace_after(mmio.accesses(), before.len() as int);
                assert(value_of(t[3]) == hardware as u32);
                assert(value_of(t[4]) == producer_byte as u32);
                assert(value_of(t[5]) == current_byte as u32);
                assert(value_of(t[6]) == kind as u32);
                assert(t.skip(7) =~= trace_after(mmio.accesses(), release_at.len() as int));
                assert(t =~= rearm_tail_accesses(pipe, slot, frame_node@, pending_mask, descriptor, status as u32, flags, t));
            }
            assert(mmio.accesses() =~= before + trace_after(mmio.accesses(), before.len() as int));
            assert(backend.calls() =~= calls_before + Seq::empty());
            return SingleFrameRearmOutcome::CommandMaskAcknowledged;
        }
        backend.fatal_unsupported_rearm_shape(pipe, slot, frame_node);
        proof {
            let t = trace_after(mmio.accesses(), before.len() as int);
            assert(value_of(t[3]) == hardware as u32);
            assert(value_of(t[4]) == producer_byte as u32);
            assert(value_of(t[5]) == current_byte as u32);
            assert(value_of(t[6]) == kind as u32);
            assert(t =~= rearm_tail_accesses(pipe, slot, frame_node@, pending_mask, descriptor, status as u32, flags, t));
        }
        assert(mmio.accesses() =~= before + trace_after(mmio.accesses(), before.len() as int));
        return SingleFrameRearmOutcome::FatalUnsupported;
    }
    let frame_kind = mmio.read_u8(frame_node.frame_kind());
    if frame_kind != 0xff {
        let republished = mmio.read_u32(descriptor.wrapping_add(4)) | (status as u32).wrapping_add(
            0x80,
        );
        mmio.write_u32(descriptor.wrapping_add(4), republished);
    }
    let ghost release_at = mmio.accesses();
    release_command_mask(mmio, pipe, current, pending_mask);
    proof {
        let t = trace_after(mmio.accesses(), before.len() as int);
        assert(value_of(t[3]) == hardware as u32);
        assert(value_of(t[4]) == producer_byte as u32);
        assert(value_of(t[5]) == current_byte as u32);
        assert(value_of(t[6]) == frame_kind as u32);
        let republished_len = (release_at.len() - before.len()) as int;
        assert(t.skip(republished_len) =~= trace_after(mmio.accesses(), release_at.len() as int));
        assert(t =~= rearm_tail_accesses(pipe, slot, frame_node@, pending_mask, descriptor, status as u32, flags, t));
    }
    assert(mmio.accesses() =~= before + trace_after(mmio.accesses(), before.len() as int));
    assert(backend.calls() =~= calls_before + Seq::empty());
    SingleFrameRearmOutcome::CommandMaskAcknowledged
}

/// Accesses of the re-arm up to the duration rebuild: the ring pointer,
/// the frame's control bits, the slot kind, then the descriptor and the
/// slot's expected status.
pub open spec fn rearm_head_accesses(pipe: u8, slot: u32, node: u32, t: Seq<MmioAccess>) -> Seq<
    MmioAccess,
> {
    retained_ring_accesses(pipe, t) + seq![
        rd32(node_field(node, offset::CONTROL_BITS), value_of(t[1])),
        rd8(slot.wrapping_add(SLOT_KIND), value_of(t[2])),
        rd32(slot.wrapping_add(SLOT_COMMAND), value_of(t[3])),
        rd8(slot.wrapping_add(SLOT_EXPECTED_STATUS), value_of(t[4])),
    ]
}

/// Every access of the fixed-rate re-arm, given what was read.
pub open spec fn rearm_accesses(pipe: u8, slot: u32, node: u32, pending_mask: u32, t: Seq<MmioAccess>) -> Seq<
    MmioAccess,
> {
    if pipe >= 4 {
        Seq::empty()
    } else if !retained_ring_ok(pipe, t) {
        retained_ring_accesses(pipe, t)
    } else if value_of(t[2]) == 1 {
        rearm_head_accesses(pipe, slot, node, t).take(3)
    } else {
        let descriptor = value_of(t[3]);
        let built = rearm_head_accesses(pipe, slot, node, t) + duration_accesses(
            descriptor,
            node,
            true,
            t.skip(5),
        );
        built + rearm_tail_accesses(
            pipe,
            slot,
            node,
            pending_mask,
            descriptor,
            value_of(t[4]),
            value_of(t[1]),
            t.skip(built.len() as int),
        )
    }
}

/// The re-arm reached its tail.
pub open spec fn rearm_reaches_tail(pipe: u8, t: Seq<MmioAccess>) -> bool {
    pipe < 4 && retained_ring_ok(pipe, t) && value_of(t[2]) != 1
}

/// Trace of the tail, once reached.
pub open spec fn rearm_tail_trace(pipe: u8, slot: u32, node: u32, t: Seq<MmioAccess>) -> Seq<
    MmioAccess,
> {
    t.skip(
        (rearm_head_accesses(pipe, slot, node, t) + duration_accesses(
            value_of(t[3]),
            node,
            true,
            t.skip(5),
        )).len() as int,
    )
}

/// Backend calls of the fixed-rate re-arm.
pub open spec fn rearm_calls(pipe: u8, slot: u32, frame_node: FrameNodeAddress, t: Seq<MmioAccess>) -> Seq<
    RearmBackendCall,
> {
    let fatal = RearmBackendCall::FatalUnsupportedRearmShape { pipe, slot, frame_node };
    if !rearm_reaches_tail(pipe, t) {
        seq![fatal]
    } else {
        let flags = value_of(t[1]);
        (if flags & 0x0008_0000 != 0 {
            seq![RearmBackendCall::RebuildRateDescriptor { pipe, slot, frame_node }]
        } else {
            Seq::empty()
        }) + if rearm_tail_refused(flags, rearm_tail_trace(pipe, slot, frame_node@, t)) {
            seq![fatal]
        } else {
            Seq::empty()
        }
    }
}

/// Outcome of the fixed-rate re-arm.
pub open spec fn rearm_outcome(pipe: u8, slot: u32, node: u32, t: Seq<MmioAccess>) -> SingleFrameRearmOutcome {
    if !rearm_reaches_tail(pipe, t) {
        SingleFrameRearmOutcome::FatalUnsupported
    } else {
        rearm_tail_outcome(value_of(t[1]), rearm_tail_trace(pipe, slot, node, t))
    }
}

/// Re-arms a retried single frame at a fixed rate: rebuild the rate
/// descriptor when the frame's rate changed (flag bit 19), rebuild the
/// duration, publish the slot's expected status in the descriptor flags,
/// trigger the pipe and acknowledge (see `rearm_tail_accesses`). A pipe out
/// of range, a ring that is not retained, or an A-MPDU slot (kind 1) calls
/// the backend's fatal leaf instead.
#[verifier::spinoff_prover]
pub fn execute_fixed_rate_single_frame_rearm<M: MacPipeMmio, B: SingleFrameRearmBackend>(
    mmio: &mut M,
    pipe: u8,
    slot: u32,
    frame_node: FrameNodeAddress,
    pending_mask: u32,
    backend: &mut B,
) -> (outcome: SingleFrameRearmOutcome)
    ensures
        ({
            let t = trace_after(final(mmio).accesses(), old(mmio).accesses().len() as int);
            &&& final(mmio).accesses() == old(mmio).accesses() + rearm_accesses(
                pipe,
                slot,
                frame_node@,
                pending_mask,
                t,
            )
            &&& final(backend).calls() == old(backend).calls() + rearm_calls(pipe, slot, frame_node, t)
            &&& outcome == rearm_outcome(pipe, slot, frame_node@, t)
        }),
{
    let ghost before = mmio.accesses();
    let ghost calls_before = backend.calls();
    if pipe >= 4 {
        backend.fatal_unsupported_rearm_shape(pipe, slot, frame_node);
        assert(mmio.accesses() =~= before + Seq::empty());
        return SingleFrameRearmOutcome::FatalUnsupported;
    }
    match retained_hardware_ring(mmio, pipe) {
        Some(_) => {},
        None => {
            backend.fatal_unsupported_rearm_shape(pipe, slot, frame_node);
            return SingleFrameRearmOutcome::FatalUnsupported;
        },
    }
    let flags = mmio.read_u32(frame_node.control_bits());
    let kind = mmio.read_u8(slot.wrapping_add(SLOT_KIND));
    if kind == 1 {
        backend.fatal_unsupported_rearm_shape(pipe, slot, frame_node);
        proof {
            let t = trace_after(mmio.accesses(), before.len() as int);
            assert(value_of(t[2]) == 1);
            assert(t =~= rearm_head_accesses(pipe, slot, frame_node@, t).take(3));
        }
        assert(mmio.accesses() =~= before + trace_after(mmio.accesses(), before.len() as int));
        return SingleFrameRearmOutcome::FatalUnsupported;
    }
    if flags & 0x0008_0000 != 0 {
        backend.rebuild_rate_descriptor(pipe, slot, frame_node);
    }
    let ghost rebuilt_calls = backend.calls();
    let descriptor = mmio.read_u32(slot.wrapping_add(SLOT_COMMAND));
    let status = mmio.read_u8(slot.wrapping_add(SLOT_EXPECTED_STATUS));
    let ghost head_at = mmio.accesses();
    build_fixed_rate_retry_duration(mmio, descriptor, frame_node);
    let ghost tail_at = mmio.accesses();
    let outcome = rearm_tail(
        mmio,
        pipe,
        slot,
        frame_node,
        pending_mask,
        descriptor,
        status,
        flags,
        backend,
    );
    proof {
        let t = trace_after(mmio.accesses(), before.len() as int);
        assert(value_of(t[1]) == flags);
        assert(value_of(t[2]) == kind as u32);
        assert(value_of(t[3]) == descriptor);
        assert(value_of(t[4]) == status as u32);
        let head = trace_after(head_at, before.len() as int);
        assert(head =~= rearm_head_accesses(pipe, slot, frame_node@, t));
        let built = trace_after(tail_at, head_at.len() as int);
        let rest = trace_after(mmio.accesses(), tail_at.len() as int);
        assert(t.skip(5) =~= built + rest);
        assert(tail_at == head_at + duration_accesses(descriptor, frame_node@, true, built));
        assert(built =~= duration_accesses(descriptor, frame_node@, true, built));
        lemma_duration_stable(descriptor, frame_node@, true, built, rest);
        assert(rearm_tail_trace(pipe, slot, frame_node@, t) =~= trace_after(
            mmio.accesses(),
            tail_at.len() as int,
        ));
        assert(t =~= rearm_accesses(pipe, slot, frame_node@, pending_mask, t));
        assert(backend.calls() =~= calls_before + rearm_calls(pipe, slot, frame_node, t));
    }
    assert(mmio.accesses() =~= before + trace_after(mmio.accesses(), before.len() as int));
    outcome
}

} // verus!
