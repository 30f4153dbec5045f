//! The completion drain: the ring's producer is read once, and every frame
//! queued up to it is fully processed, oldest first, before the drain
//! returns; frames queued meanwhile wait for the next drain.

use vstd::prelude::*;

use crate::completion_enqueue::node_field;
use crate::completion_ring::{ring_distance, ring_window, CompletionDrainCursor, CompletionRing};
use crate::context::FrameNodeAddress;
use crate::context_return::LMC_MESSAGE_CONTROL;
use crate::mmio::{rd16, rd32, rd8, trace_after, value_of, wr16, wr32, wr8, MacPipeMmio, MmioAccess};
use crate::offset::{
    AUXILIARY_STATE, COMPLETION_CLASS, COMPLETION_FLAGS, CONTROL_BITS, FRAME_ADDRESS, FRAME_LENGTH, INTERFACE,
    OWNERSHIP_BITS, TERMINAL_STATUS,
};
use crate::registers::{LOW_MAC_OPTIONAL_PIPE_OBJECT_WORD, PAS_CONTENTION_WINDOWS, PAS_STRIDE};
use crate::tala_update::{
    lemma_tala_update_extends, tala_update_step, update_tala_for_completion, TalaUpdate, TalaVifCall,
    TalaVifEffects,
};

verus! {

/// A-MPDU completion control word; non-zero while class-0 completions of an
/// aggregate are counted before the drain.
pub const AMPDU_COMPLETION_CONTROL: u32 = 0x0400_1fec;

/// Low word of the accumulated A-MPDU transmit duration.
pub const AMPDU_TX_DURATION_LOW: u32 = 0x0400_1ff0;

/// High word of the accumulated A-MPDU transmit duration.
pub const AMPDU_TX_DURATION_HIGH: u32 = 0x0400_1ff4;

/// Count of A-MPDU member frames completed.
pub const AMPDU_TX_COUNTED_FRAMES: u32 = 0x0400_1ff8;

/// Count of A-MPDU member frames completed in error.
pub const AMPDU_TX_ERROR_FRAMES: u32 = 0x0400_1ffc;

/// Number of TX contexts the PAS holds (one byte).
pub const ACTIVE_PAS_CONTEXTS: u32 = 0x0400_2004;

/// Radio owner whose release waits for the transmit path to go idle.
pub const DEFERRED_RADIO_OWNER: u32 = 0x0400_2008;

/// Offset of an interface's mode byte in its PAS record; mode 2 keeps
/// BlockAck sessions.
pub const PAS_MODE: u32 = 0x30;

/// PAS mode of an interface with BlockAck sessions.
pub const PAS_MODE_BLOCK_ACK: u8 = 2;

/// Control bit of a context that was an A-MPDU member.
pub const CONTROL_AMPDU_MEMBER: u32 = 0x20;

/// Control bit of an A-MPDU member that failed.
pub const CONTROL_AMPDU_ERROR: u32 = 0x40;

/// Completion flag of a class-0 frame that is not the last of its batch.
pub const COMPLETION_FLAG_BATCH_PENDING: u16 = 0x20;

/// Ownership bit of a context whose completion was drained.
pub const DRAINED_OWNERSHIP: u32 = 0x8000;

/// State byte of a BlockAck pipe object.
pub const BA_PIPE_OBJECT_STATE: u32 = 0;

/// BlockAck session state of a peer whose aggregate failed.
pub const BA_SESSION_FAILED_STATE: u8 = 5;

/// Terminal status of a frame that failed.
pub const FAILED_TERMINAL_STATUS: u16 = 0x0b;

/// A call the drain makes to its effects, with what it answered.
#[derive(Clone, Copy, Debug, PartialEq, Eq, Structural)]
pub enum DrainCall {
    MessagesEnabled { enabled: bool },
    SendCompletionMessage { frame_node: u32, interface: u8 },
    FindPipeByMacUpper { mac_upper: u32, pipe: Option<u32> },
    AdjustTxBusy { interface: u8 },
    PowerSaveCompletion { frame_node: u32 },
    CompleteContext { frame_node: u32, status: u16 },
    IdlePolicyEnabled { enabled: bool },
    StartPhyOperation7,
    ReleaseRadio { owner: u32 },
}

/// What the drain asks of the interface, power-save, BlockAck and radio
/// subsystems, and of the context's owner. Each call is recorded in `calls`.
pub trait CompletionDrainEffects {
    /// Every call made so far, oldest first.
    /// A verified implementation defines it; the empty default only lets an
    /// implementation that Verus does not check leave it out.
    open spec fn calls(&self) -> Seq<DrainCall> {
        Seq::empty()
    }

    fn completion_messages_enabled(&mut self) -> (enabled: bool)
        ensures
            final(self).calls() == old(self).calls().push(DrainCall::MessagesEnabled { enabled }),
    ;

    /// Reports a failed A-MPDU member to the host's LMC message ring.
    fn send_completion_message(&mut self, frame_node: FrameNodeAddress, interface: u8)
        ensures
            final(self).calls() == old(self).calls().push(
                DrainCall::SendCompletionMessage { frame_node: frame_node@, interface },
            ),
    ;

    /// The BlockAck pipe object of the peer whose address ends in
    /// `mac_upper`, if there is one.
    fn find_pipe_by_mac_upper(&mut self, mac_upper: u32) -> (pipe: Option<u32>)
        ensures
            final(self).calls() == old(self).calls().push(DrainCall::FindPipeByMacUpper { mac_upper, pipe }),
    ;

    /// Counts one frame off the interface's busy count.
    fn adjust_tx_busy(&mut self, interface: u8)
        ensures
            final(self).calls() == old(self).calls().push(DrainCall::AdjustTxBusy { interface }),
    ;

    fn power_save_completion(&mut self, frame_node: FrameNodeAddress)
        ensures
            final(self).calls() == old(self).calls().push(
                DrainCall::PowerSaveCompletion { frame_node: frame_node@ },
            ),
    ;

    /// Hands the context back to its owner with its terminal status.
    fn complete_context(&mut self, frame_node: FrameNodeAddress, status: u16)
        ensures
            final(self).calls() == old(self).calls().push(
                DrainCall::CompleteContext { frame_node: frame_node@, status },
            ),
    ;

    fn completion_idle_policy_enabled(&mut self) -> (enabled: bool)
        ensures
            final(self).calls() == old(self).calls().push(DrainCall::IdlePolicyEnabled { enabled }),
    ;

    fn start_phy_operation_7(&mut self)
        ensures
            final(self).calls() == old(self).calls().push(DrainCall::StartPhyOperation7),
    ;

    fn release_radio_scheduler(&mut self, owner: u32)
        ensures
            final(self).calls() == old(self).calls().push(DrainCall::ReleaseRadio { owner }),
    ;
}

/// Mode byte of `interface`'s PAS record.
pub open spec fn pas_mode_of(interface: u8) -> u32 {
    (PAS_CONTENTION_WINDOWS + interface * PAS_STRIDE + PAS_MODE) as u32
}

/// Accesses of copying a drained frame's auxiliary state to its completion
/// flags and reading its control bits, given the values read.
pub open spec fn frame_flags_accesses(node: u32, s: Seq<MmioAccess>) -> Seq<MmioAccess> {
    seq![
        rd32(node_field(node, AUXILIARY_STATE), value_of(s[0])),
        wr16(node_field(node, COMPLETION_FLAGS), ((value_of(s[0]) as u16) as u32)),
        rd32(node_field(node, CONTROL_BITS), value_of(s[2])),
    ]
}

/// The accumulated A-MPDU duration after a member of `length` bytes.
pub open spec fn accumulated_duration(low: u32, high: u32, length: u16) -> u64 {
    ((low as u64) | ((high as u64) << 32u64)).wrapping_add(length as u64)
}

/// What the messages answer was, when the first call is that question.
pub open spec fn messages_answer(c: Seq<DrainCall>) -> bool {
    c.len() > 0 && c[0] is MessagesEnabled && c[0]->MessagesEnabled_enabled
}

/// A-MPDU accounting of a drained frame with control bits `flags`, given
/// the values read and the calls made: a member's length is added to the
/// duration and it is counted; a failed member is counted as an error and,
/// when completion messages are on, the message control allows it and the
/// frame asked for one, reported to the host.
#[verifier::opaque]
pub open spec fn ampdu_accounting(node: u32, interface: u8, flags: u32, s: Seq<MmioAccess>, c: Seq<DrainCall>) -> (
    Seq<MmioAccess>,
    Seq<DrainCall>,
) {
    if flags & CONTROL_AMPDU_MEMBER == 0 {
        (Seq::empty(), Seq::empty())
    } else {
        let low = value_of(s[0]);
        let high = value_of(s[1]);
        let length = value_of(s[2]) as u16;
        let total = accumulated_duration(low, high, length);
        let counted = value_of(s[5]);
        let duration = seq![
            rd32(AMPDU_TX_DURATION_LOW, low),
            rd32(AMPDU_TX_DURATION_HIGH, high),
            rd16(node_field(node, FRAME_LENGTH), value_of(s[2])),
            wr32(AMPDU_TX_DURATION_LOW, total as u32),
            wr32(AMPDU_TX_DURATION_HIGH, (total >> 32u64) as u32),
            rd32(AMPDU_TX_COUNTED_FRAMES, counted),
            wr32(AMPDU_TX_COUNTED_FRAMES, counted.wrapping_add(1)),
        ];
        if flags & CONTROL_AMPDU_ERROR == 0 {
            (duration, Seq::empty())
        } else {
            let errors = value_of(s[7]);
            let counted_error = duration + seq![
                rd32(AMPDU_TX_ERROR_FRAMES, errors),
                wr32(AMPDU_TX_ERROR_FRAMES, errors.wrapping_add(1)),
            ];
            let enabled = messages_answer(c);
            let asked = seq![DrainCall::MessagesEnabled { enabled }];
            if enabled && (flags >> 20u32) & 3 != 0 {
                let control = value_of(s[9]);
                let with_control = counted_error + seq![rd8(LMC_MESSAGE_CONTROL, control)];
                if control & 1 != 0 {
                    (with_control, asked.push(DrainCall::SendCompletionMessage { frame_node: node, interface }))
                } else {
                    (with_control, asked)
                }
            } else {
                (counted_error, asked)
            }
        }
    }
}

/// The rest of a drained frame with `status` on `interface`, while
/// `pending` class-0 frames of an aggregate are outstanding, given the
/// values read: the frame leaves the PAS and the interface's busy count; a
/// class-0 frame that is not the last of its aggregate is flagged; the
/// context is marked drained and handed back. Also gives the class-0 frames
/// still outstanding.
#[verifier::opaque]
pub open spec fn frame_finish(node: u32, status: u16, interface: u8, pending: u8, s: Seq<MmioAccess>) -> (
    Seq<MmioAccess>,
    Seq<DrainCall>,
    u8,
) {
    let active = value_of(s[0]);
    let left = seq![rd8(ACTIVE_PAS_CONTEXTS, active), wr8(ACTIVE_PAS_CONTEXTS, ((active + 255) % 256) as u32)];
    let busy = if interface < 3 {
        seq![DrainCall::AdjustTxBusy { interface }]
    } else {
        Seq::empty()
    };
    let power = if interface < 2 {
        seq![DrainCall::PowerSaveCompletion { frame_node: node }]
    } else {
        Seq::empty()
    };
    let z: int = 2;
    let class_read = if pending > 1 {
        seq![rd8(node_field(node, COMPLETION_CLASS), value_of(s[z]))]
    } else {
        Seq::empty()
    };
    let flagged = pending > 1 && value_of(s[z]) as u8 == 0;
    let flag = if flagged {
        let completion_flags = value_of(s[z + 1]);
        seq![
            rd16(node_field(node, COMPLETION_FLAGS), completion_flags),
            wr16(node_field(node, COMPLETION_FLAGS), ((completion_flags as u16) | COMPLETION_FLAG_BATCH_PENDING) as u32),
        ]
    } else {
        Seq::empty()
    };
    let o = z + class_read.len() + flag.len();
    let ownership = value_of(s[o]);
    let marked = seq![
        rd32(node_field(node, OWNERSHIP_BITS), ownership),
        wr32(node_field(node, OWNERSHIP_BITS), ownership | DRAINED_OWNERSHIP),
    ];
    (
        left + class_read + flag + marked,
        busy + power + seq![DrainCall::CompleteContext { frame_node: node, status }],
        if flagged { (pending - 1) as u8 } else { pending },
    )
}

/// What the first call answered, when it looks a pipe up by address.
pub open spec fn pipe_lookup_answer(c: Seq<DrainCall>) -> Option<u32> {
    if c.len() > 0 && c[0] is FindPipeByMacUpper {
        c[0]->FindPipeByMacUpper_pipe
    } else {
        None
    }
}

/// Marking the BlockAck session of a failed frame's peer, given the values
/// read and the calls made: with optional pipe objects configured, the
/// peer's pipe object is looked up by the upper part of the frame's first
/// address, and a session not already torn down (state bit 2) is set to
/// state 5.
#[verifier::opaque]
pub open spec fn ba_mark_step(node: u32, s: Seq<MmioAccess>, c: Seq<DrainCall>) -> (Seq<MmioAccess>, Seq<DrainCall>) {
    let word = value_of(s[0]);
    let read_word = seq![rd16(LOW_MAC_OPTIONAL_PIPE_OBJECT_WORD, word)];
    if word == 0 {
        (read_word, Seq::empty())
    } else {
        let header = value_of(s[1]);
        let read_header = read_word.push(rd32(node_field(node, FRAME_ADDRESS), header));
        let mac_upper = header.wrapping_add(4);
        let found = pipe_lookup_answer(c);
        let calls = seq![DrainCall::FindPipeByMacUpper { mac_upper, pipe: found }];
        match found {
            None => (read_header, calls),
            Some(pipe) => {
                let state = value_of(s[2]);
                let address = pipe.wrapping_add(BA_PIPE_OBJECT_STATE);
                let read_state = read_header.push(rd8(address, state));
                if (state as u8) & 4u8 == 0 {
                    (read_state.push(wr8(address, BA_SESSION_FAILED_STATE as u32)), calls)
                } else {
                    (read_state, calls)
                }
            },
        }
    }
}

/// The BlockAck part of finishing a frame with `status` on `interface`: a
/// failed frame of an interface whose PAS mode keeps BlockAck sessions has
/// its peer's session marked (`ba_mark_step`).
#[verifier::opaque]
pub open spec fn ba_step(node: u32, status: u16, interface: u8, s: Seq<MmioAccess>, c: Seq<DrainCall>) -> (
    Seq<MmioAccess>,
    Seq<DrainCall>,
) {
    if status != FAILED_TERMINAL_STATUS {
        (Seq::empty(), Seq::empty())
    } else {
        let mode = value_of(s[0]);
        let read_mode = seq![rd8(pas_mode_of(interface), mode)];
        if mode as u8 != PAS_MODE_BLOCK_ACK {
            (read_mode, Seq::empty())
        } else {
            let marked = ba_mark_step(node, s.skip(1), c);
            (read_mode + marked.0, marked.1)
        }
    }
}

/// Marks the BlockAck session of the failed frame at `frame_node`, as
/// `ba_mark_step` says.
pub fn mark_ba_session_state_5<M: MacPipeMmio, E: CompletionDrainEffects>(
    mmio: &mut M,
    effects: &mut E,
    frame_node: FrameNodeAddress,
)
    ensures
        ({
            let t = trace_after(final(mmio).accesses(), old(mmio).accesses().len() as int);
            let c = final(effects).calls().skip(old(effects).calls().len() as int);
            let step = ba_mark_step(frame_node@, t, c);
            &&& final(mmio).accesses() == old(mmio).accesses() + step.0
            &&& final(effects).calls() == old(effects).calls() + step.1
        }),
{
    reveal(ba_mark_step);
    let ghost before = mmio.accesses();
    let ghost calls_before = effects.calls();
    let word = mmio.read_u16(LOW_MAC_OPTIONAL_PIPE_OBJECT_WORD);
    if word == 0 {
        proof {
            let t = trace_after(mmio.accesses(), before.len() as int);
            assert(value_of(t[0]) == word as u32);
            assert(mmio.accesses() =~= before + ba_mark_step(frame_node@, t, effects.calls().skip(calls_before.len() as int)).0);
            assert(effects.calls() =~= calls_before + Seq::empty());
        }
        return;
    }
    let header = mmio.read_u32(frame_node.context().field_address(FRAME_ADDRESS));
    let found = effects.find_pipe_by_mac_upper(header.wrapping_add(4));
    let mut state: u8 = 0;
    if let Some(pipe) = found {
        let address = pipe.wrapping_add(BA_PIPE_OBJECT_STATE);
        state = mmio.read_u8(address);
        if state & 4u8 == 0 {
            mmio.write_u8(address, BA_SESSION_FAILED_STATE);
        }
    }
    proof {
        let t = trace_after(mmio.accesses(), before.len() as int);
        let c = effects.calls().skip(calls_before.len() as int);
        assert(value_of(t[0]) == word as u32);
        assert(value_of(t[1]) == header);
        assert(c[0] == effects.calls()[calls_before.len() as int]);
        assert(pipe_lookup_answer(c) == found);
        if found is Some {
            assert(value_of(t[2]) == state as u32);
        }
        assert(mmio.accesses() =~= before + ba_mark_step(frame_node@, t, c).0);
        assert(effects.calls() =~= calls_before + ba_mark_step(frame_node@, t, c).1);
    }
}

fn settle_block_ack<M: MacPipeMmio, E: CompletionDrainEffects>(
    mmio: &mut M,
    effects: &mut E,
    node: FrameNodeAddress,
    status: u16,
    interface: u8,
)
    ensures
        ({
            let t = trace_after(final(mmio).accesses(), old(mmio).accesses().len() as int);
            let c = final(effects).calls().skip(old(effects).calls().len() as int);
            let step = ba_step(node@, status, interface, t, c);
            &&& final(mmio).accesses() == old(mmio).accesses() + step.0
            &&& final(effects).calls() == old(effects).calls() + step.1
        }),
{
    reveal(ba_step);
    let ghost before = mmio.accesses();
    let ghost calls_before = effects.calls();
    if status != FAILED_TERMINAL_STATUS {
        assert(mmio.accesses() =~= before + Seq::empty());
        assert(effects.calls() =~= calls_before + Seq::empty());
        return;
    }
    let mode = mmio.read_u8(PAS_CONTENTION_WINDOWS + interface as u32 * PAS_STRIDE + PAS_MODE);
    let ghost read = mmio.accesses();
    if mode == PAS_MODE_BLOCK_ACK {
        mark_ba_session_state_5(mmio, effects, node);
    }
    proof {
        let t = trace_after(mmio.accesses(), before.len() as int);
        let c = effects.calls().skip(calls_before.len() as int);
        assert(value_of(t[0]) == mode as u32);
        assert(t.skip(1) =~= trace_after(mmio.accesses(), read.len() as int));
        assert(mmio.accesses() =~= before + ba_step(node@, status, interface, t, c).0);
        assert(effects.calls() =~= calls_before + ba_step(node@, status, interface, t, c).1);
    }
}

proof fn lemma_ba_extends(
    node: u32,
    status: u16,
    interface: u8,
    t: Seq<MmioAccess>,
    e: Seq<MmioAccess>,
    c: Seq<DrainCall>,
    d: Seq<DrainCall>,
)
    requires
        ba_step(node, status, interface, t, c).0.len() <= t.len(),
        ba_step(node, status, interface, t, c).1.len() <= c.len(),
    ensures
        ba_step(node, status, interface, t + e, c + d) == ba_step(node, status, interface, t, c),
{
    reveal(ba_step);
    reveal(ba_mark_step);
    let u = t + e;
    if status == FAILED_TERMINAL_STATUS {
        assert(u[0] == t[0]);
        if value_of(t[0]) as u8 == PAS_MODE_BLOCK_ACK {
            let r = t.skip(1);
            assert(u.skip(1) =~= r + e);
            assert((r + e)[0] == r[0]);
            if value_of(r[0]) != 0 {
                assert((r + e)[1] == r[1]);
                assert((c + d)[0] == c[0]);
                if pipe_lookup_answer(c) is Some {
                    assert((r + e)[2] == r[2]);
                }
            }
        }
    }
}

/// Draining one frame, given the values read and the calls made: its
/// terminal status and interface are read, its interface's A-MPDU length
/// adapted (`tala_update_step`), its flags copied, its A-MPDU accounting
/// done, its BlockAck session settled (`ba_step`) and it is finished. A refused length stops everything there (the
/// last component is true). Also gives the class-0 frames still pending.
#[verifier::opaque]
pub open spec fn frame_step(node: u32, pending: u8, s: Seq<MmioAccess>, c: Seq<DrainCall>, v: Seq<TalaVifCall>) -> (
    Seq<MmioAccess>,
    Seq<DrainCall>,
    Seq<TalaVifCall>,
    u8,
    bool,
) {
    let status = value_of(s[0]) as u16;
    let interface = value_of(s[1]) as u8;
    let head = seq![
        rd16(node_field(node, TERMINAL_STATUS), value_of(s[0])),
        rd8(node_field(node, INTERFACE), value_of(s[1])),
    ];
    let tala = tala_update_step(node, s.skip(2), v);
    if tala.2 is LengthRefused {
        (head + tala.0, Seq::empty(), tala.1, pending, true)
    } else {
        let r = s.skip(2 + tala.0.len() as int);
        let flags = value_of(r[2]);
        let accounting = ampdu_accounting(node, interface, flags, r.skip(3), c);
        let m = 3 + accounting.0.len() as int;
        let ba = ba_step(node, status, interface, r.skip(m), c.skip(accounting.1.len() as int));
        let finish = frame_finish(node, status, interface, pending, r.skip(m + ba.0.len() as int));
        (
            head + tala.0 + frame_flags_accesses(node, r) + accounting.0 + ba.0 + finish.0,
            accounting.1 + ba.1 + finish.1,
            tala.1,
            finish.2,
            false,
        )
    }
}

fn read_frame_head<M: MacPipeMmio>(mmio: &mut M, node: FrameNodeAddress) -> (head: (u16, u8))
    ensures
        ({
            let t = trace_after(final(mmio).accesses(), old(mmio).accesses().len() as int);
            &&& final(mmio).accesses() == old(mmio).accesses() + seq![
                rd16(node_field(node@, TERMINAL_STATUS), value_of(t[0])),
                rd8(node_field(node@, INTERFACE), value_of(t[1])),
            ]
            &&& head == (value_of(t[0]) as u16, value_of(t[1]) as u8)
        }),
{
    let ghost before = mmio.accesses();
    let context = node.context();
    let status = mmio.read_u16(context.field_address(TERMINAL_STATUS));
    let interface = mmio.read_u8(context.field_address(INTERFACE));
    let ghost t = trace_after(mmio.accesses(), before.len() as int);
    assert(value_of(t[0]) == status as u32);
    assert(value_of(t[1]) == interface as u32);
    assert(mmio.accesses() =~= before + seq![
        rd16(node_field(node@, TERMINAL_STATUS), value_of(t[0])),
        rd8(node_field(node@, INTERFACE), value_of(t[1])),
    ]);
    (status, interface)
}

fn copy_frame_flags<M: MacPipeMmio>(mmio: &mut M, node: FrameNodeAddress) -> (flags: u32)
    ensures
        ({
            let t = trace_after(final(mmio).accesses(), old(mmio).accesses().len() as int);
            &&& final(mmio).accesses() == old(mmio).accesses() + frame_flags_accesses(node@, t)
            &&& flags == value_of(t[2])
        }),
{
    let ghost before = mmio.accesses();
    let context = node.context();
    let auxiliary = mmio.read_u32(context.field_address(AUXILIARY_STATE));
    mmio.write_u16(context.field_address(COMPLETION_FLAGS), auxiliary as u16);
    let flags = mmio.read_u32(context.field_address(CONTROL_BITS));
    let ghost t = trace_after(mmio.accesses(), before.len() as int);
    assert(value_of(t[0]) == auxiliary);
    assert(value_of(t[2]) == flags);
    assert(mmio.accesses() =~= before + frame_flags_accesses(node@, t));
    flags
}

fn account_ampdu<M: MacPipeMmio, E: CompletionDrainEffects>(
    mmio: &mut M,
    effects: &mut E,
    node: FrameNodeAddress,
    interface: u8,
    flags: u32,
)
    ensures
        ({
            let t = trace_after(final(mmio).accesses(), old(mmio).accesses().len() as int);
            let c = final(effects).calls().skip(old(effects).calls().len() as int);
            let step = ampdu_accounting(node@, interface, flags, t, c);
            &&& final(mmio).accesses() == old(mmio).accesses() + step.0
            &&& final(effects).calls() == old(effects).calls() + step.1
        }),
{
    reveal(ampdu_accounting);
    let ghost before = mmio.accesses();
    let ghost calls_before = effects.calls();
    if flags & CONTROL_AMPDU_MEMBER == 0 {
        assert(mmio.accesses() =~= before + Seq::empty());
        assert(effects.calls() =~= calls_before + Seq::empty());
        return;
    }
    let low = mmio.read_u32(AMPDU_TX_DURATION_LOW);
    let high = mmio.read_u32(AMPDU_TX_DURATION_HIGH);
    let length = mmio.read_u16(node.context().field_address(FRAME_LENGTH));
    let total = ((low as u64) | ((high as u64) << 32u64)).wrapping_add(length as u64);
    mmio.write_u32(AMPDU_TX_DURATION_LOW, total as u32);
    mmio.write_u32(AMPDU_TX_DURATION_HIGH, (total >> 32u64) as u32);
    let counted = mmio.read_u32(AMPDU_TX_COUNTED_FRAMES);
    mmio.write_u32(AMPDU_TX_COUNTED_FRAMES, counted.wrapping_add(1));
    let mut errors: u32 = 0;
    let mut control: u8 = 0;
    let mut enabled = false;
    if flags & CONTROL_AMPDU_ERROR != 0 {
        errors = mmio.read_u32(AMPDU_TX_ERROR_FRAMES);
        mmio.write_u32(AMPDU_TX_ERROR_FRAMES, errors.wrapping_add(1));
        enabled = effects.completion_messages_enabled();
        if enabled && (flags >> 20u32) & 3 != 0 {
            control = mmio.read_u8(LMC_MESSAGE_CONTROL);
            if control & 1 != 0 {
                effects.send_completion_message(node, interface);
            }
        }
    }
    proof {
        let t = trace_after(mmio.accesses(), before.len() as int);
        let c = effects.calls().skip(calls_before.len() as int);
        assert(value_of(t[0]) == low);
        assert(value_of(t[1]) == high);
        assert(value_of(t[2]) == length as u32);
        assert(value_of(t[5]) == counted);
        if flags & CONTROL_AMPDU_ERROR != 0 {
            assert(value_of(t[7]) == errors);
            assert(c[0] == effects.calls()[calls_before.len() as int]);
            assert(messages_answer(c) == enabled);
            if enabled && (flags >> 20u32) & 3 != 0 {
                assert(value_of(t[9]) == control as u32);
                assert((control as u32) & 1 == 0 <==> control & 1 == 0) by (bit_vector);
            }
        }
        assert(mmio.accesses() =~= before + ampdu_accounting(node@, interface, flags, t, c).0);
        assert(effects.calls() =~= calls_before + ampdu_accounting(node@, interface, flags, t, c).1);
    }
}

fn finish_frame<M: MacPipeMmio, E: CompletionDrainEffects>(
    mmio: &mut M,
    effects: &mut E,
    node: FrameNodeAddress,
    status: u16,
    interface: u8,
    pending: u8,
) -> (left: u8)
    ensures
        ({
            let t = trace_after(final(mmio).accesses(), old(mmio).accesses().len() as int);
            let step = frame_finish(node@, status, interface, pending, t);
            &&& final(mmio).accesses() == old(mmio).accesses() + step.0
            &&& final(effects).calls() == old(effects).calls() + step.1
            &&& left == step.2
        }),
{
    reveal(frame_finish);
    let ghost before = mmio.accesses();
    let ghost calls_before = effects.calls();
    let context = node.context();
    let ghost k: int = 0;
    let active = mmio.read_u8(ACTIVE_PAS_CONTEXTS);
    mmio.write_u8(ACTIVE_PAS_CONTEXTS, active.wrapping_sub(1));
    if interface < 3 {
        effects.adjust_tx_busy(interface);
    }
    if interface < 2 {
        effects.power_save_completion(node);
    }
    let mut left = pending;
    let mut class: u8 = 0xff;
    let mut completion_flags: u16 = 0;
    if pending > 1 {
        class = mmio.read_u8(context.field_address(COMPLETION_CLASS));
        if class == 0 {
            completion_flags = mmio.read_u16(context.field_address(COMPLETION_FLAGS));
            mmio.write_u16(context.field_address(COMPLETION_FLAGS), completion_flags | COMPLETION_FLAG_BATCH_PENDING);
            left = pending - 1;
        }
    }
    let ghost o = mmio.accesses().len() - before.len();
    let ownership = mmio.read_u32(context.field_address(OWNERSHIP_BITS));
    mmio.write_u32(context.field_address(OWNERSHIP_BITS), ownership | DRAINED_OWNERSHIP);
    effects.complete_context(node, status);
    proof {
        let t = trace_after(mmio.accesses(), before.len() as int);
        assert(value_of(t[k]) == active as u32);
        assert(active.wrapping_sub(1) as u32 == ((active as u32 + 255) % 256) as u32);
        if pending > 1 {
            assert(value_of(t[k + 2]) == class as u32);
            if class == 0 {
                assert(value_of(t[k + 3]) == completion_flags as u32);
            }
        }
        assert(value_of(t[o]) == ownership);
        assert(mmio.accesses() =~= before + frame_finish(node@, status, interface, pending, t).0);
        assert(effects.calls() =~= calls_before + frame_finish(node@, status, interface, pending, t).1);
    }
    left
}

proof fn lemma_accounting_extends(
    node: u32,
    interface: u8,
    flags: u32,
    t: Seq<MmioAccess>,
    e: Seq<MmioAccess>,
    c: Seq<DrainCall>,
    d: Seq<DrainCall>,
)
    requires
        ampdu_accounting(node, interface, flags, t, c).0.len() <= t.len(),
        ampdu_accounting(node, interface, flags, t, c).1.len() <= c.len(),
    ensures
        ampdu_accounting(node, interface, flags, t + e, c + d) == ampdu_accounting(node, interface, flags, t, c),
{
    reveal(ampdu_accounting);
    let u = t + e;
    if flags & CONTROL_AMPDU_MEMBER != 0 {
        assert(u[0] == t[0] && u[1] == t[1] && u[2] == t[2] && u[5] == t[5]);
        if flags & CONTROL_AMPDU_ERROR != 0 {
            assert(u[7] == t[7]);
            assert((c + d)[0] == c[0]);
            if messages_answer(c) && (flags >> 20u32) & 3 != 0 {
                assert(u[9] == t[9]);
            }
        }
    }
}

proof fn lemma_finish_extends(
    node: u32,
    status: u16,
    interface: u8,
    pending: u8,
    t: Seq<MmioAccess>,
    e: Seq<MmioAccess>,
)
    requires
        frame_finish(node, status, interface, pending, t).0.len() <= t.len(),
    ensures
        frame_finish(node, status, interface, pending, t + e) == frame_finish(node, status, interface, pending, t),
{
    reveal(frame_finish);
    let u = t + e;
    let k: int = 0;
    assert(u[k] == t[k]);
    if pending > 1 {
        assert(u[k + 2] == t[k + 2]);
        if value_of(t[k + 2]) as u8 == 0 {
            assert(u[k + 3] == t[k + 3]);
            assert(u[k + 5] == t[k + 5]);
        } else {
            assert(u[k + 3] == t[k + 3]);
        }
    } else {
        assert(u[k + 2] == t[k + 2]);
    }
}

/// A drained frame's step depends only on its own reads and calls.
proof fn lemma_frame_step_extends(
    node: u32,
    pending: u8,
    t: Seq<MmioAccess>,
    e: Seq<MmioAccess>,
    c: Seq<DrainCall>,
    d: Seq<DrainCall>,
    v: Seq<TalaVifCall>,
    w: Seq<TalaVifCall>,
)
    requires
        frame_step(node, pending, t, c, v).0.len() <= t.len(),
        frame_step(node, pending, t, c, v).1.len() <= c.len(),
        frame_step(node, pending, t, c, v).2.len() <= v.len(),
    ensures
        frame_step(node, pending, t + e, c + d, v + w) == frame_step(node, pending, t, c, v),
{
    reveal(frame_step);
    let u = t + e;
    assert(u[0] == t[0] && u[1] == t[1]);
    assert(u.skip(2) =~= t.skip(2) + e);
    let tala = tala_update_step(node, t.skip(2), v);
    lemma_tala_update_extends(node, t.skip(2), e, v, w);
    if !(tala.2 is LengthRefused) {
        let m = 2 + tala.0.len() as int;
        let r = t.skip(m);
        assert(u.skip(m) =~= r + e);
        assert((r + e)[0] == r[0] && (r + e)[1] == r[1] && (r + e)[2] == r[2]);
        let interface = value_of(t[1]) as u8;
        let flags = value_of(r[2]);
        let a = ampdu_accounting(node, interface, flags, r.skip(3), c);
        assert((r + e).skip(3) =~= r.skip(3) + e);
        lemma_accounting_extends(node, interface, flags, r.skip(3), e, c, d);
        let m = 3 + a.0.len() as int;
        let status = value_of(t[0]) as u16;
        assert((r + e).skip(m) =~= r.skip(m) + e);
        assert((c + d).skip(a.1.len() as int) =~= c.skip(a.1.len() as int) + d);
        let b = ba_step(node, status, interface, r.skip(m), c.skip(a.1.len() as int));
        lemma_ba_extends(node, status, interface, r.skip(m), e, c.skip(a.1.len() as int), d);
        assert((r + e).skip(m + b.0.len() as int) =~= r.skip(m + b.0.len() as int) + e);
        lemma_finish_extends(node, status, interface, pending, r.skip(m + b.0.len() as int), e);
    }
}

#[verifier::spinoff_prover]
#[verifier::rlimit(80)]
fn drain_frame<M: MacPipeMmio, E: CompletionDrainEffects, V: TalaVifEffects>(
    mmio: &mut M,
    effects: &mut E,
    vif: &mut V,
    node: FrameNodeAddress,
    pending: u8,
) -> (left: (u8, bool))
    ensures
        ({
            let t = trace_after(final(mmio).accesses(), old(mmio).accesses().len() as int);
            let c = final(effects).calls().skip(old(effects).calls().len() as int);
            let v = final(vif).calls().skip(old(vif).calls().len() as int);
            let step = frame_step(node@, pending, t, c, v);
            &&& final(mmio).accesses() == old(mmio).accesses() + step.0
            &&& final(effects).calls() == old(effects).calls() + step.1
            &&& final(vif).calls() == old(vif).calls() + step.2
            &&& left == (step.3, step.4)
        }),
{
    reveal(frame_step);
    let ghost before = mmio.accesses();
    let ghost calls_before = effects.calls();
    let ghost vif_before = vif.calls();
    let (status, interface) = read_frame_head(mmio, node);
    let ghost headed = mmio.accesses();
    let outcome = update_tala_for_completion(mmio, vif, node);
    let ghost adapted = mmio.accesses();
    if let TalaUpdate::LengthRefused = outcome {
        proof {
            let t = trace_after(mmio.accesses(), before.len() as int);
            let c = effects.calls().skip(calls_before.len() as int);
            let v = vif.calls().skip(vif_before.len() as int);
            let th = trace_after(headed, before.len() as int);
            let ta = trace_after(mmio.accesses(), headed.len() as int);
            assert(t =~= th + ta);
            assert(t[0] == th[0] && t[1] == th[1]);
            assert(t.skip(2) =~= ta);
            assert(c =~= Seq::<DrainCall>::empty());
            assert(mmio.accesses() =~= before + frame_step(node@, pending, t, c, v).0);
            assert(effects.calls() =~= calls_before + frame_step(node@, pending, t, c, v).1);
            assert(vif.calls() =~= vif_before + frame_step(node@, pending, t, c, v).2);
        }
        return (pending, true);
    }
    let ghost adapted_calls = vif.calls();
    let flags = copy_frame_flags(mmio, node);
    let ghost copied = mmio.accesses();
    account_ampdu(mmio, effects, node, interface, flags);
    let ghost accounted = mmio.accesses();
    let ghost accounted_calls = effects.calls();
    settle_block_ack(mmio, effects, node, status, interface);
    let ghost settled = mmio.accesses();
    let ghost settled_calls = effects.calls();
    let left = finish_frame(mmio, effects, node, status, interface, pending);
    proof {
        let t = trace_after(mmio.accesses(), before.len() as int);
        let c = effects.calls().skip(calls_before.len() as int);
        let v = vif.calls().skip(vif_before.len() as int);
        let th = trace_after(headed, before.len() as int);
        let tt = trace_after(adapted, headed.len() as int);
        let tr = trace_after(mmio.accesses(), adapted.len() as int);
        assert(t =~= th + (tt + tr));
        assert(t[0] == th[0] && t[1] == th[1]);
        assert(t.skip(2) =~= tt + tr);
        assert(v =~= adapted_calls.skip(vif_before.len() as int));
        let tala = tala_update_step(node@, tt, v);
        assert(adapted =~= headed + tala.0);
        lemma_tala_update_extends(node@, tt, tr, v, Seq::<TalaVifCall>::empty());
        assert(v + Seq::<TalaVifCall>::empty() =~= v);
        assert(t.skip(2 + tala.0.len() as int) =~= tr);
        let tc = trace_after(copied, adapted.len() as int);
        let ta = trace_after(accounted, copied.len() as int);
        let tb = trace_after(settled, accounted.len() as int);
        let tf = trace_after(mmio.accesses(), settled.len() as int);
        assert(tr =~= tc + (ta + (tb + tf)));
        assert(tr[0] == tc[0] && tr[1] == tc[1] && tr[2] == tc[2]);
        assert(tr.skip(3) =~= ta + (tb + tf));
        let ca = accounted_calls.skip(calls_before.len() as int);
        let cb = settled_calls.skip(accounted_calls.len() as int);
        let cf = effects.calls().skip(settled_calls.len() as int);
        assert(c =~= ca + (cb + cf));
        let a = ampdu_accounting(node@, interface, flags, ta, ca);
        assert(accounted =~= copied + a.0);
        assert(ca =~= a.1);
        lemma_accounting_extends(node@, interface, flags, ta, tb + tf, ca, cb + cf);
        let m = 3 + a.0.len() as int;
        assert(tr.skip(m) =~= tb + tf);
        assert(c.skip(a.1.len() as int) =~= cb + cf);
        let b = ba_step(node@, status, interface, tb, cb);
        assert(settled =~= accounted + b.0);
        assert(cb =~= b.1);
        lemma_ba_extends(node@, status, interface, tb, tf, cb, cf);
        assert(tr.skip(m + b.0.len() as int) =~= tf);
        assert(mmio.accesses() =~= before + frame_step(node@, pending, t, c, v).0);
        assert(effects.calls() =~= calls_before + frame_step(node@, pending, t, c, v).1);
        assert(vif.calls() =~= vif_before + frame_step(node@, pending, t, c, v).2);
    }
    (left, false)
}

/// Draining `nodes` in order while `pending` class-0 frames of an aggregate
/// are outstanding, given the values read and the calls made; a refused
/// A-MPDU length stops the drain at its frame (the last component is true).
pub open spec fn drain_from(
    nodes: Seq<u32>,
    pending: u8,
    s: Seq<MmioAccess>,
    c: Seq<DrainCall>,
    v: Seq<TalaVifCall>,
) -> (Seq<MmioAccess>, Seq<DrainCall>, Seq<TalaVifCall>, bool)
    decreases nodes.len(),
{
    if nodes.len() == 0 {
        (Seq::empty(), Seq::empty(), Seq::empty(), false)
    } else {
        let step = frame_step(nodes[0], pending, s, c, v);
        if step.4 {
            (step.0, step.1, step.2, true)
        } else {
            let rest = drain_from(
                nodes.drop_first(),
                step.3,
                s.skip(step.0.len() as int),
                c.skip(step.1.len() as int),
                v.skip(step.2.len() as int),
            );
            (step.0 + rest.0, step.1 + rest.1, step.2 + rest.2, rest.3)
        }
    }
}

/// Draining depends only on its own reads and calls.
proof fn lemma_drain_from_extends(
    nodes: Seq<u32>,
    pending: u8,
    t: Seq<MmioAccess>,
    e: Seq<MmioAccess>,
    c: Seq<DrainCall>,
    d: Seq<DrainCall>,
    v: Seq<TalaVifCall>,
    w: Seq<TalaVifCall>,
)
    requires
        drain_from(nodes, pending, t, c, v).0.len() <= t.len(),
        drain_from(nodes, pending, t, c, v).1.len() <= c.len(),
        drain_from(nodes, pending, t, c, v).2.len() <= v.len(),
    ensures
        drain_from(nodes, pending, t + e, c + d, v + w) == drain_from(nodes, pending, t, c, v),
    decreases nodes.len(),
{
    if nodes.len() > 0 {
        let step = frame_step(nodes[0], pending, t, c, v);
        lemma_frame_step_extends(nodes[0], pending, t, e, c, d, v, w);
        if !step.4 {
            assert((t + e).skip(step.0.len() as int) =~= t.skip(step.0.len() as int) + e);
            assert((c + d).skip(step.1.len() as int) =~= c.skip(step.1.len() as int) + d);
            assert((v + w).skip(step.2.len() as int) =~= v.skip(step.2.len() as int) + w);
            lemma_drain_from_extends(
                nodes.drop_first(),
                step.3,
                t.skip(step.0.len() as int),
                e,
                c.skip(step.1.len() as int),
                d,
                v.skip(step.2.len() as int),
                w,
            );
        }
    }
}

#[verifier::spinoff_prover]
#[verifier::rlimit(60)]
fn drain_pending<M: MacPipeMmio, E: CompletionDrainEffects, V: TalaVifEffects>(
    mmio: &mut M,
    ring: &mut CompletionRing,
    cursor: &mut CompletionDrainCursor,
    effects: &mut E,
    vif: &mut V,
    pending: u8,
) -> (halted: bool)
    ensures
        ({
            let t = trace_after(final(mmio).accesses(), old(mmio).accesses().len() as int);
            let c = final(effects).calls().skip(old(effects).calls().len() as int);
            let v = final(vif).calls().skip(old(vif).calls().len() as int);
            let step = drain_from(old(cursor).pending(*old(ring)), pending, t, c, v);
            &&& final(mmio).accesses() == old(mmio).accesses() + step.0
            &&& final(effects).calls() == old(effects).calls() + step.1
            &&& final(vif).calls() == old(vif).calls() + step.2
            &&& halted == step.3
            &&& !halted ==> final(cursor).pending_count() == 0
            &&& final(cursor).target() == old(cursor).target()
            &&& old(cursor).pending_count() > 0 ==> final(ring).consumer() == final(cursor).next()
            &&& old(cursor).pending_count() == 0 ==> *final(ring) == *old(ring) && *final(cursor) == *old(cursor)
            &&& final(ring).producer() == old(ring).producer()
        }),
    decreases old(cursor).pending_count(),
{
    let ghost before = mmio.accesses();
    let ghost calls_before = effects.calls();
    let ghost vif_before = vif.calls();
    let ghost nodes = cursor.pending(*ring);
    let ghost count = cursor.pending_count();
    let popped = cursor.pop(ring);
    let node = match popped {
        Some(node) => node,
        None => {
            assert(nodes.len() == 0);
            assert(mmio.accesses() =~= before + Seq::empty());
            assert(effects.calls() =~= calls_before + Seq::empty());
            assert(vif.calls() =~= vif_before + Seq::empty());
            return false;
        },
    };
    assert(nodes.len() == count);
    let (left, stopped) = drain_frame(mmio, effects, vif, node, pending);
    let ghost framed = mmio.accesses();
    let ghost framed_calls = effects.calls();
    let ghost framed_vif = vif.calls();
    if stopped {
        proof {
            let t = trace_after(mmio.accesses(), before.len() as int);
            let c = effects.calls().skip(calls_before.len() as int);
            let v = vif.calls().skip(vif_before.len() as int);
            assert(mmio.accesses() =~= before + drain_from(nodes, pending, t, c, v).0);
            assert(effects.calls() =~= calls_before + drain_from(nodes, pending, t, c, v).1);
            assert(vif.calls() =~= vif_before + drain_from(nodes, pending, t, c, v).2);
        }
        return true;
    }
    assert(cursor.pending(*ring) == nodes.drop_first());
    let halted = drain_pending(mmio, ring, cursor, effects, vif, left);
    proof {
        let t = trace_after(mmio.accesses(), before.len() as int);
        let c = effects.calls().skip(calls_before.len() as int);
        let v = vif.calls().skip(vif_before.len() as int);
        let t1 = trace_after(framed, before.len() as int);
        let t2 = trace_after(mmio.accesses(), framed.len() as int);
        let c1 = framed_calls.skip(calls_before.len() as int);
        let c2 = effects.calls().skip(framed_calls.len() as int);
        let v1 = framed_vif.skip(vif_before.len() as int);
        let v2 = vif.calls().skip(framed_vif.len() as int);
        assert(t =~= t1 + t2);
        assert(c =~= c1 + c2);
        assert(v =~= v1 + v2);
        let step = frame_step(node@, pending, t1, c1, v1);
        assert(framed =~= before + step.0);
        assert(c1 =~= step.1);
        assert(v1 =~= step.2);
        lemma_frame_step_extends(node@, pending, t1, t2, c1, c2, v1, v2);
        assert(t.skip(step.0.len() as int) =~= t2);
        assert(c.skip(step.1.len() as int) =~= c2);
        assert(v.skip(step.2.len() as int) =~= v2);
        assert(mmio.accesses() =~= before + drain_from(nodes, pending, t, c, v).0);
        assert(effects.calls() =~= calls_before + drain_from(nodes, pending, t, c, v).1);
        assert(vif.calls() =~= vif_before + drain_from(nodes, pending, t, c, v).2);
    }
    halted
}

/// Reading the completion class of each of `nodes`, given the values read:
/// the reads, and how many class-0 frames they found (modulo 256).
pub open spec fn zero_class_count(nodes: Seq<u32>, s: Seq<MmioAccess>) -> (Seq<MmioAccess>, u8)
    decreases nodes.len(),
{
    if nodes.len() == 0 {
        (Seq::empty(), 0)
    } else {
        let rest = zero_class_count(nodes.drop_first(), s.skip(1));
        let class = value_of(s[0]);
        (
            seq![rd8(node_field(nodes[0], COMPLETION_CLASS), class)] + rest.0,
            if class as u8 == 0 {
                ((rest.1 + 1) % 256) as u8
            } else {
                rest.1
            },
        )
    }
}

proof fn lemma_zero_class_count_extends(nodes: Seq<u32>, t: Seq<MmioAccess>, e: Seq<MmioAccess>)
    requires
        zero_class_count(nodes, t).0.len() <= t.len(),
    ensures
        zero_class_count(nodes, t + e) == zero_class_count(nodes, t),
        zero_class_count(nodes, t).0.len() == nodes.len(),
    decreases nodes.len(),
{
    if nodes.len() > 0 {
        assert((t + e)[0] == t[0]);
        assert((t + e).skip(1) =~= t.skip(1) + e);
        lemma_zero_class_count_extends(nodes.drop_first(), t.skip(1), e);
    }
}

fn count_zero_class<M: MacPipeMmio>(mmio: &mut M, ring: &CompletionRing, index: u32, remaining: u32) -> (count: u8)
    requires
        index < 64,
        remaining <= 64,
    ensures
        ({
            let t = trace_after(final(mmio).accesses(), old(mmio).accesses().len() as int);
            let step = zero_class_count(ring_window(ring.slots(), index, remaining as nat), t);
            &&& final(mmio).accesses() == old(mmio).accesses() + step.0
            &&& count == step.1
        }),
    decreases remaining,
{
    let ghost before = mmio.accesses();
    let ghost nodes = ring_window(ring.slots(), index, remaining as nat);
    if remaining == 0 {
        assert(mmio.accesses() =~= before + Seq::empty());
        return 0;
    }
    let node = ring.frame_node(index);
    let class = mmio.read_u8(FrameNodeAddress::new(node).context().field_address(COMPLETION_CLASS));
    let ghost read = mmio.accesses();
    let next = if index == 63 {
        0
    } else {
        index + 1
    };
    assert(next == (index + 1) % 64);
    let rest = count_zero_class(mmio, ring, next, remaining - 1);
    proof {
        let t = trace_after(mmio.accesses(), before.len() as int);
        let tr = trace_after(mmio.accesses(), read.len() as int);
        assert(t =~= seq![t[0]] + tr);
        assert(value_of(t[0]) == class as u32);
        assert(nodes[0] == node);
        assert forall|i: int| 0 <= i < remaining - 1 implies #[trigger] nodes.drop_first()[i] == ring_window(
            ring.slots(),
            next,
            (remaining - 1) as nat,
        )[i] by {
            assert((next + i) % 64 == (index + (i + 1)) % 64);
        }
        assert(nodes.drop_first() =~= ring_window(ring.slots(), next, (remaining - 1) as nat));
        assert(t.skip(1) =~= tr);
        assert(mmio.accesses() =~= before + zero_class_count(nodes, t).0);
    }
    if class == 0 {
        rest.wrapping_add(1)
    } else {
        rest
    }
}

/// What the idle-policy question answered, when the first call is that
/// question.
pub open spec fn idle_answer(c: Seq<DrainCall>) -> bool {
    c.len() > 0 && c[0] is IdlePolicyEnabled && c[0]->IdlePolicyEnabled_enabled
}

/// The end of a drain, given the values read and the calls made: when the
/// PAS holds no context and the idle policy is on, PHY operation 7 starts
/// and a deferred radio owner is released.
pub open spec fn drain_tail(s: Seq<MmioAccess>, c: Seq<DrainCall>) -> (Seq<MmioAccess>, Seq<DrainCall>) {
    let active = value_of(s[0]);
    let read = seq![rd8(ACTIVE_PAS_CONTEXTS, active)];
    if active as u8 != 0 {
        (read, Seq::empty())
    } else {
        let enabled = idle_answer(c);
        let asked = seq![DrainCall::IdlePolicyEnabled { enabled }];
        if !enabled {
            (read, asked)
        } else {
            let owner = value_of(s[1]);
            (
                read.push(rd32(DEFERRED_RADIO_OWNER, owner)),
                asked.push(DrainCall::StartPhyOperation7) + if owner != 0 {
                    seq![DrainCall::ReleaseRadio { owner }]
                } else {
                    Seq::empty()
                },
            )
        }
    }
}

fn finish_drain<M: MacPipeMmio, E: CompletionDrainEffects>(mmio: &mut M, effects: &mut E)
    ensures
        ({
            let t = trace_after(final(mmio).accesses(), old(mmio).accesses().len() as int);
            let c = final(effects).calls().skip(old(effects).calls().len() as int);
            let step = drain_tail(t, c);
            &&& final(mmio).accesses() == old(mmio).accesses() + step.0
            &&& final(effects).calls() == old(effects).calls() + step.1
        }),
{
    let ghost before = mmio.accesses();
    let ghost calls_before = effects.calls();
    let active = mmio.read_u8(ACTIVE_PAS_CONTEXTS);
    let mut enabled = false;
    let mut owner: u32 = 0;
    if active == 0 {
        enabled = effects.completion_idle_policy_enabled();
        if enabled {
            effects.start_phy_operation_7();
            owner = mmio.read_u32(DEFERRED_RADIO_OWNER);
            if owner != 0 {
                effects.release_radio_scheduler(owner);
            }
        }
    }
    proof {
        let t = trace_after(mmio.accesses(), before.len() as int);
        let c = effects.calls().skip(calls_before.len() as int);
        assert(value_of(t[0]) == active as u32);
        if active == 0 {
            assert(c[0] == effects.calls()[calls_before.len() as int]);
            assert(idle_answer(c) == enabled);
            if enabled {
                assert(value_of(t[1]) == owner);
            }
        }
        assert(mmio.accesses() =~= before + drain_tail(t, c).0);
        assert(effects.calls() =~= calls_before + drain_tail(t, c).1);
    }
}

/// The frames handed back, in order, by a sequence of drain calls.
pub open spec fn completed_frames(calls: Seq<DrainCall>) -> Seq<u32>
    decreases calls.len(),
{
    if calls.len() == 0 {
        Seq::empty()
    } else {
        let rest = completed_frames(calls.drop_first());
        match calls[0] {
            DrainCall::CompleteContext { frame_node, .. } => seq![frame_node] + rest,
            _ => rest,
        }
    }
}

proof fn lemma_completed_frames_concat(a: Seq<DrainCall>, b: Seq<DrainCall>)
    ensures
        completed_frames(a + b) == completed_frames(a) + completed_frames(b),
    decreases a.len(),
{
    if a.len() == 0 {
        assert(a + b =~= b);
    } else {
        assert((a + b).drop_first() =~= a.drop_first() + b);
        lemma_completed_frames_concat(a.drop_first(), b);
    }
}

proof fn lemma_completed_frames_small(a: Seq<DrainCall>)
    requires
        forall|i: int| 0 <= i < a.len() ==> !(#[trigger] a[i] is CompleteContext),
    ensures
        completed_frames(a) == Seq::<u32>::empty(),
    decreases a.len(),
{
    if a.len() > 0 {
        assert(forall|i: int| 0 <= i < a.drop_first().len() ==> a.drop_first()[i] == a[i + 1]);
        lemma_completed_frames_small(a.drop_first());
    }
}

proof fn lemma_frame_step_completes(node: u32, pending: u8, s: Seq<MmioAccess>, c: Seq<DrainCall>, v: Seq<TalaVifCall>)
    ensures
        !frame_step(node, pending, s, c, v).4 ==> completed_frames(frame_step(node, pending, s, c, v).1) == seq![node],
        frame_step(node, pending, s, c, v).4 ==> completed_frames(frame_step(node, pending, s, c, v).1) == Seq::<
            u32,
        >::empty(),
{
    reveal(ba_step);
    reveal(ba_mark_step);
    reveal(frame_step);
    reveal(ampdu_accounting);
    reveal(frame_finish);
    let status = value_of(s[0]) as u16;
    let interface = value_of(s[1]) as u8;
    let tala = tala_update_step(node, s.skip(2), v);
    if tala.2 is LengthRefused {
        lemma_completed_frames_small(Seq::<DrainCall>::empty());
    } else {
        let r = s.skip(2 + tala.0.len() as int);
        let flags = value_of(r[2]);
        let a = ampdu_accounting(node, interface, flags, r.skip(3), c);
        let m = 3 + a.0.len() as int;
        let b = ba_step(node, status, interface, r.skip(m), c.skip(a.1.len() as int));
        let f = frame_finish(node, status, interface, pending, r.skip(m + b.0.len() as int));
        lemma_completed_frames_concat(a.1 + b.1, f.1);
        lemma_completed_frames_concat(a.1, b.1);
        lemma_completed_frames_small(a.1);
        lemma_completed_frames_small(b.1);
        let busy = if interface < 3 {
            seq![DrainCall::AdjustTxBusy { interface }]
        } else {
            Seq::empty()
        };
        let power = if interface < 2 {
            seq![DrainCall::PowerSaveCompletion { frame_node: node }]
        } else {
            Seq::empty()
        };
        let done = seq![DrainCall::CompleteContext { frame_node: node, status }];
        assert(f.1 == busy + power + done);
        assert(frame_step(node, pending, s, c, v).1 == a.1 + b.1 + f.1);
        lemma_completed_frames_concat(busy + power, done);
        lemma_completed_frames_concat(busy, power);
        lemma_completed_frames_small(busy);
        lemma_completed_frames_small(power);
        assert(done.drop_first() =~= Seq::<DrainCall>::empty());
        assert(completed_frames(done) =~= seq![node]) by {
            reveal_with_fuel(completed_frames, 2);
        }
    }
}

/// Unless a refused A-MPDU length stopped it, draining hands back each
/// frame of `nodes` exactly once, in order.
pub proof fn lemma_drain_hands_back_each_frame_in_order(
    nodes: Seq<u32>,
    pending: u8,
    s: Seq<MmioAccess>,
    c: Seq<DrainCall>,
    v: Seq<TalaVifCall>,
)
    ensures
        !drain_from(nodes, pending, s, c, v).3 ==> completed_frames(drain_from(nodes, pending, s, c, v).1) == nodes,
    decreases nodes.len(),
{
    if nodes.len() > 0 {
        let step = frame_step(nodes[0], pending, s, c, v);
        lemma_frame_step_completes(nodes[0], pending, s, c, v);
        if !step.4 {
            let rest = drain_from(
                nodes.drop_first(),
                step.3,
                s.skip(step.0.len() as int),
                c.skip(step.1.len() as int),
                v.skip(step.2.len() as int),
            );
            lemma_completed_frames_concat(step.1, rest.1);
            lemma_drain_hands_back_each_frame_in_order(
                nodes.drop_first(),
                step.3,
                s.skip(step.0.len() as int),
                c.skip(step.1.len() as int),
                v.skip(step.2.len() as int),
            );
            assert(seq![nodes[0]] + nodes.drop_first() =~= nodes);
        }
    } else {
        lemma_completed_frames_small(Seq::<DrainCall>::empty());
    }
}

/// The end of a drain hands back no frame.
proof fn lemma_drain_tail_completes_nothing(s: Seq<MmioAccess>, c: Seq<DrainCall>)
    ensures
        completed_frames(drain_tail(s, c).1) == Seq::<u32>::empty(),
{
    let tail = drain_tail(s, c).1;
    if tail.len() == 3 {
        lemma_completed_frames_concat(tail.subrange(0, 2), tail.subrange(2, 3));
        assert(tail.subrange(0, 2) + tail.subrange(2, 3) =~= tail);
        lemma_completed_frames_small(tail.subrange(0, 2));
        lemma_completed_frames_small(tail.subrange(2, 3));
    } else {
        lemma_completed_frames_small(tail);
    }
}

/// A drain of the frames `nodes` queued when it began, given the values
/// read and the calls made: when the A-MPDU completion control is set, the
/// class-0 frames among them are counted first; then every frame is
/// drained in order; then, unless a refused A-MPDU length stopped it, the
/// drain's end. The last component is true when the drain ran to its end.
#[verifier::opaque]
pub open spec fn completion_drain_step(nodes: Seq<u32>, t: Seq<MmioAccess>, c: Seq<DrainCall>, v: Seq<TalaVifCall>) -> (
    Seq<MmioAccess>,
    Seq<DrainCall>,
    Seq<TalaVifCall>,
    bool,
) {
    let control = value_of(t[0]);
    let counted = if control != 0 {
        zero_class_count(nodes, t.skip(1))
    } else {
        (Seq::empty(), 0u8)
    };
    let k = 1 + counted.0.len();
    let drained = drain_from(nodes, counted.1, t.skip(k as int), c, v);
    let head = seq![rd32(AMPDU_COMPLETION_CONTROL, control)] + counted.0 + drained.0;
    if drained.3 {
        (head, drained.1, drained.2, false)
    } else {
        let tail = drain_tail(t.skip((k + drained.0.len()) as int), c.skip(drained.1.len() as int));
        (head + tail.0, drained.1 + tail.1, drained.2, true)
    }
}

/// Drains the completion ring: the producer is read once, at the start,
/// and every frame queued up to it is processed in order before the drain
/// returns, leaving the ring empty of them. A refused A-MPDU length stops
/// the drain at its frame (false), where the firmware halts.
#[verifier::spinoff_prover]
#[verifier::rlimit(80)]
pub fn service_completion_drain<M: MacPipeMmio, E: CompletionDrainEffects, V: TalaVifEffects>(
    mmio: &mut M,
    ring: &mut CompletionRing,
    effects: &mut E,
    vif: &mut V,
) -> (finished: bool)
    ensures
        final(ring).producer() == old(ring).producer(),
        ({
            let t = trace_after(final(mmio).accesses(), old(mmio).accesses().len() as int);
            let c = final(effects).calls().skip(old(effects).calls().len() as int);
            let v = final(vif).calls().skip(old(vif).calls().len() as int);
            let step = completion_drain_step(old(ring)@, t, c, v);
            &&& final(mmio).accesses() == old(mmio).accesses() + step.0
            &&& final(effects).calls() == old(effects).calls() + step.1
            &&& final(vif).calls() == old(vif).calls() + step.2
            &&& finished == step.3
            &&& finished ==> completed_frames(step.1) == old(ring)@
        }),
        finished ==> final(ring).consumer() == old(ring).producer(),
        finished ==> final(ring)@ == Seq::<u32>::empty(),
{
    let ghost before = mmio.accesses();
    let ghost calls_before = effects.calls();
    let ghost vif_before = vif.calls();
    let ghost nodes = ring@;
    let mut cursor = CompletionDrainCursor::begin(ring);
    let (first, last) = ring.cursors();
    let control = mmio.read_u32(AMPDU_COMPLETION_CONTROL);
    let ghost controlled = mmio.accesses();
    let mut pending: u8 = 0;
    if control != 0 {
        let remaining = if last >= first {
            last - first
        } else {
            last + 64 - first
        };
        assert(remaining as nat == ring_distance(first, last));
        pending = count_zero_class(mmio, ring, first, remaining);
    }
    let ghost counted = mmio.accesses();
    let halted = drain_pending(mmio, ring, &mut cursor, effects, vif, pending);
    let ghost drained = mmio.accesses();
    let ghost drained_calls = effects.calls();
    proof {
        let tc = trace_after(counted, controlled.len() as int);
        let zc = if control != 0 {
            zero_class_count(nodes, tc)
        } else {
            (Seq::<MmioAccess>::empty(), 0u8)
        };
        if control != 0 {
            lemma_zero_class_count_extends(nodes, tc, Seq::<MmioAccess>::empty());
        }
        assert(counted =~= controlled + zc.0);
        assert(pending == zc.1);
    }
    if halted {
        proof {
            let t = trace_after(mmio.accesses(), before.len() as int);
            let c = effects.calls().skip(calls_before.len() as int);
            let v = vif.calls().skip(vif_before.len() as int);
            let tc = trace_after(counted, controlled.len() as int);
            let td = trace_after(mmio.accesses(), counted.len() as int);
            assert(t =~= seq![t[0]] + (tc + td));
            assert(value_of(t[0]) == control);
            if control != 0 {
                lemma_zero_class_count_extends(nodes, tc, td);
                assert(t.skip(1) =~= tc + td);
            }
            let zc_len = counted.len() - controlled.len();
            assert(t.skip((1 + zc_len) as int) =~= td);
            assert(mmio.accesses() =~= before + completion_drain_step(nodes, t, c, v).0
                && effects.calls() =~= calls_before + completion_drain_step(nodes, t, c, v).1
                && vif.calls() =~= vif_before + completion_drain_step(nodes, t, c, v).2
                && !completion_drain_step(nodes, t, c, v).3) by {
                reveal(completion_drain_step);
            }
        }
        return false;
    }
    let drained_all = cursor.is_empty();
    assert(drained_all);
    assert(ring.consumer() == last) by {
        if ring_distance(first, last) == 0 {
            assert(first == last);
        }
    }
    assert(ring@ =~= Seq::<u32>::empty());
    finish_drain(mmio, effects);
    proof {
        let t = trace_after(mmio.accesses(), before.len() as int);
        let c = effects.calls().skip(calls_before.len() as int);
        let v = vif.calls().skip(vif_before.len() as int);
        let tc = trace_after(counted, controlled.len() as int);
        let td = trace_after(drained, counted.len() as int);
        let te = trace_after(mmio.accesses(), drained.len() as int);
        let cd = drained_calls.skip(calls_before.len() as int);
        let ce = effects.calls().skip(drained_calls.len() as int);
        assert(t =~= seq![t[0]] + (tc + (td + te)));
        assert(c =~= cd + ce);
        assert(value_of(t[0]) == control);
        if control != 0 {
            lemma_zero_class_count_extends(nodes, tc, td + te);
            assert(t.skip(1) =~= tc + (td + te));
        }
        let zc_len = counted.len() - controlled.len();
        assert(t.skip((1 + zc_len) as int) =~= td + te);
        let d = drain_from(nodes, pending, td, cd, v);
        assert(drained =~= counted + d.0);
        assert(cd =~= d.1);
        lemma_drain_from_extends(nodes, pending, td, te, cd, ce, v, Seq::<TalaVifCall>::empty());
        assert(v + Seq::<TalaVifCall>::empty() =~= v);
        assert(t.skip((1 + zc_len + d.0.len()) as int) =~= te);
        assert(c.skip(d.1.len() as int) =~= ce);
        lemma_drain_hands_back_each_frame_in_order(nodes, pending, td, cd, v);
        lemma_drain_tail_completes_nothing(te, ce);
        lemma_completed_frames_concat(d.1, drain_tail(te, ce).1);
        assert(mmio.accesses() =~= before + completion_drain_step(nodes, t, c, v).0
            && effects.calls() =~= calls_before + completion_drain_step(nodes, t, c, v).1
            && vif.calls() =~= vif_before + completion_drain_step(nodes, t, c, v).2
            && completion_drain_step(nodes, t, c, v).3
            && completion_drain_step(nodes, t, c, v).1 == d.1 + drain_tail(te, ce).1) by {
            reveal(completion_drain_step);
        }
    }
    true
}

} // verus!
