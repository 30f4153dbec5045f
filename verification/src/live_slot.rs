//! A pipe slot whose frame and command identities were read back and checked
//! against what the publication recorded, and the release of a retry-owned
//! command-mask bit that depends on that check.

use vstd::prelude::*;

use crate::context::{is_frame_node, FrameNodeAddress, PublishedSlotIdentity};
use crate::mmio::{rd32, rd8, trace_after, value_of, wr32, MacPipeMmio, MmioAccess};
use crate::packet_ram::{tx_command, tx_command_of};
use crate::plans::aggregate_retry_command_owned;
use crate::registers::{
    lemma_pipe_bits, pipe_record_address, pipe_record_of, slot_record_address, slot_record_of, tx_ring_of,
    TxHardwareRingAddress, PIPE_CURRENT, PIPE_HARDWARE_RING, RING_CURSOR_AND_PENDING_MASK,
    SLOT_COMMAND, SLOT_FRAME, SLOT_KIND, SLOT_STATE,
};

verus! {

/// A slot record whose frame node is a real frame node (equal to the one the
/// caller retained, when it gave one) and whose command word is the slot's
/// own packet-RAM command descriptor.
#[derive(Clone, Copy, Debug, PartialEq, Eq, Structural)]
pub struct LiveTxSlot {
    pub address: u32,
    pub frame_node: FrameNodeAddress,
    pub command: u32,
}

/// The slot's identity can be read at all: pipe and slot in range and the
/// retained address is that slot's record.
pub open spec fn live_slot_addressable(pipe: u8, slot: u8, retained_slot: u32) -> bool {
    pipe < 4 && slot < 4 && retained_slot == slot_record_of(pipe as int, slot as int)
}

/// The frame node read first is acceptable.
pub open spec fn live_frame_ok(retained_frame: Option<FrameNodeAddress>, frame: u32) -> bool {
    is_frame_node(frame) && match retained_frame {
        Some(r) => r@ == frame,
        None => true,
    }
}

/// Accesses of `LiveTxSlot::from_mmio`.
pub open spec fn live_slot_accesses(
    pipe: u8,
    slot: u8,
    retained_slot: u32,
    retained_frame: Option<FrameNodeAddress>,
    s: Seq<MmioAccess>,
) -> Seq<MmioAccess> {
    if !live_slot_addressable(pipe, slot, retained_slot) {
        Seq::empty()
    } else {
        let record = slot_record_of(pipe as int, slot as int);
        let head = seq![rd32((record + SLOT_FRAME) as u32, value_of(s[0]))];
        if !live_frame_ok(retained_frame, value_of(s[0])) {
            head
        } else {
            head + seq![rd32((record + SLOT_COMMAND) as u32, value_of(s[1]))]
        }
    }
}

/// Whether `LiveTxSlot::from_mmio` accepts the slot, given what it read.
pub open spec fn live_slot_ok(
    pipe: u8,
    slot: u8,
    retained_slot: u32,
    retained_frame: Option<FrameNodeAddress>,
    s: Seq<MmioAccess>,
) -> bool {
    &&& live_slot_addressable(pipe, slot, retained_slot)
    &&& live_frame_ok(retained_frame, value_of(s[0]))
    &&& value_of(s[1]) == tx_command_of(pipe as int, slot as int)
}

proof fn lemma_slot_fields_fit(pipe: u8, slot: u8)
    requires
        pipe < 4,
        slot < 4,
    ensures
        slot_record_of(pipe as int, slot as int) + SLOT_COMMAND <= u32::MAX,
        slot_record_of(pipe as int, slot as int) == crate::registers::MAC_PIPE_RECORDS + pipe
            * crate::registers::MAC_PIPE_RECORD_SIZE + crate::registers::MAC_PIPE_SLOTS_OFFSET
            + slot * crate::registers::MAC_PIPE_SLOT_SIZE,
{
}

impl LiveTxSlot {
    /// Reads the frame node and command word of `slot` in `pipe` and keeps
    /// them only when both identities check out. Nothing is read when the
    /// pipe or slot is out of range or `retained_slot` is not that slot.
    pub fn from_mmio<M: MacPipeMmio>(
        mmio: &mut M,
        pipe: u8,
        slot: u8,
        retained_slot: u32,
        retained_frame: Option<FrameNodeAddress>,
    ) -> (live: Option<Self>)
        ensures
            ({
                let s = trace_after(final(mmio).accesses(), old(mmio).accesses().len() as int);
                &&& final(mmio).accesses() == old(mmio).accesses() + live_slot_accesses(
                    pipe,
                    slot,
                    retained_slot,
                    retained_frame,
                    s,
                )
                &&& (live is Some <==> live_slot_ok(pipe, slot, retained_slot, retained_frame, s))
                &&& (live matches Some(l) ==> l == (LiveTxSlot {
                    address: retained_slot,
                    frame_node: FrameNodeAddress(value_of(s[0])),
                    command: value_of(s[1]),
                }))
            }),
    {
        let ghost before = mmio.accesses();
        if pipe >= 4 || slot >= 4 {
            assert(mmio.accesses() =~= before + Seq::empty());
            return None;
        }
        proof {
            lemma_slot_fields_fit(pipe, slot);
        }
        let address = slot_record_address(pipe, slot);
        if retained_slot != address {
            assert(mmio.accesses() =~= before + Seq::empty());
            return None;
        }
        let raw = mmio.read_u32(address + SLOT_FRAME);
        let ghost head = seq![rd32((address + SLOT_FRAME) as u32, raw)];
        let frame_node = match FrameNodeAddress::from_raw(raw) {
            Some(node) => node,
            None => {
                let ghost s = trace_after(mmio.accesses(), before.len() as int);
                assert(s =~= head);
                assert(mmio.accesses() =~= before + live_slot_accesses(
                    pipe,
                    slot,
                    retained_slot,
                    retained_frame,
                    s,
                ));
                return None;
            },
        };
        let frame_matches = match retained_frame {
            Some(retained) => retained.raw() == frame_node.raw(),
            None => true,
        };
        if !frame_matches {
            let ghost s = trace_after(mmio.accesses(), before.len() as int);
            assert(s =~= head);
            assert(mmio.accesses() =~= before + live_slot_accesses(
                pipe,
                slot,
                retained_slot,
                retained_frame,
                s,
            ));
            return None;
        }
        let command = mmio.read_u32(address + SLOT_COMMAND);
        let ghost s = trace_after(mmio.accesses(), before.len() as int);
        assert(s =~= head + seq![rd32((address + SLOT_COMMAND) as u32, command)]);
        assert(value_of(s[0]) == raw);
        assert(value_of(s[1]) == command);
        assert(mmio.accesses() =~= before + live_slot_accesses(
            pipe,
            slot,
            retained_slot,
            retained_frame,
            s,
        ));
        if command == tx_command(pipe, slot) {
            Some(LiveTxSlot { address, frame_node, command })
        } else {
            None
        }
    }
}

/// Accesses after the current-slot byte when the live slot was accepted: the
/// slot's kind and state, then, when a retry owns the command, the ring
/// pointer and, for the pipe's own ring, the command mask and its update.
pub open spec fn release_tail_accesses(pipe: u8, current: u8, s: Seq<MmioAccess>) -> Seq<MmioAccess> {
    let record = pipe_record_of(pipe as int);
    let slot = slot_record_of(pipe as int, current as int);
    let kind = value_of(s[0]);
    let state = value_of(s[1]);
    let checks = seq![rd8((slot + SLOT_KIND) as u32, kind), rd8((slot + SLOT_STATE) as u32, state)];
    if !(kind == 1 && state == 4) {
        checks
    } else {
        let raw = value_of(s[2]);
        let ring_read = seq![rd32((record + PIPE_HARDWARE_RING) as u32, raw)];
        if raw != tx_ring_of(pipe as int) {
            checks + ring_read
        } else {
            let cursor = (tx_ring_of(pipe as int) + RING_CURSOR_AND_PENDING_MASK) as u32;
            let mask = value_of(s[3]);
            checks + ring_read + seq![rd32(cursor, mask), wr32(cursor, mask & !(1u32 << current))]
        }
    }
}

/// Accesses of `release_aggregate_retry_command_mask`.
pub open spec fn release_command_mask_accesses(
    pipe: u8,
    retained_slot: u32,
    retained_frame: FrameNodeAddress,
    s: Seq<MmioAccess>,
) -> Seq<MmioAccess> {
    if pipe >= 4 {
        Seq::empty()
    } else {
        let current = value_of(s[0]) as u8;
        let head = seq![rd8((pipe_record_of(pipe as int) + PIPE_CURRENT) as u32, value_of(s[0]))];
        let rest = s.subrange(1, s.len() as int);
        let live = live_slot_accesses(pipe, current, retained_slot, Some(retained_frame), rest);
        if !live_slot_ok(pipe, current, retained_slot, Some(retained_frame), rest) {
            head + live
        } else {
            head + live + release_tail_accesses(pipe, current, s.subrange(3, s.len() as int))
        }
    }
}

/// Result of `release_aggregate_retry_command_mask`, given what it read.
pub open spec fn release_command_mask_result(
    pipe: u8,
    retained_slot: u32,
    retained_frame: FrameNodeAddress,
    s: Seq<MmioAccess>,
) -> Option<bool> {
    if pipe >= 4 {
        None
    } else {
        let current = value_of(s[0]) as u8;
        let rest = s.subrange(1, s.len() as int);
        if !live_slot_ok(pipe, current, retained_slot, Some(retained_frame), rest) {
            None
        } else if !(value_of(s[3]) == 1 && value_of(s[4]) == 4) {
            Some(false)
        } else if value_of(s[5]) != tx_ring_of(pipe as int) {
            None
        } else {
            Some(true)
        }
    }
}

/// Clears the current slot's bit of the pipe's command mask, but only when
/// the current slot is still the retained slot with the retained frame and
/// its own command, and a retry owns that command. `Some(false)` when the
/// identities hold but no retry owns the command; `None` when an identity,
/// the pipe or its ring does not check out.
pub fn release_aggregate_retry_command_mask<M: MacPipeMmio>(
    mmio: &mut M,
    pipe: u8,
    retained_slot: u32,
    retained_frame: FrameNodeAddress,
) -> (released: Option<bool>)
    ensures
        ({
            let s = trace_after(final(mmio).accesses(), old(mmio).accesses().len() as int);
            &&& final(mmio).accesses() == old(mmio).accesses() + release_command_mask_accesses(
                pipe,
                retained_slot,
                retained_frame,
                s,
            )
            &&& released == release_command_mask_result(pipe, retained_slot, retained_frame, s)
        }),
{
    let ghost before = mmio.accesses();
    if pipe >= 4 {
        assert(mmio.accesses() =~= before + Seq::empty());
        return None;
    }
    let record = pipe_record_address(pipe);
    proof {
        lemma_pipe_bits(pipe);
    }
    let current = mmio.read_u8(record + PIPE_CURRENT);
    let ghost mid = mmio.accesses();
    let live = LiveTxSlot::from_mmio(mmio, pipe, current, retained_slot, Some(retained_frame));
    let ghost mid2 = mmio.accesses();
    proof {
        let s = trace_after(mmio.accesses(), before.len() as int);
        let rest = s.subrange(1, s.len() as int);
        assert(rest =~= trace_after(mmio.accesses(), mid.len() as int));
        assert(value_of(s[0]) == current as u32);
        assert(value_of(s[0]) as u8 == current);
    }
    let slot = match live {
        Some(slot) => slot,
        None => {
            let ghost s = trace_after(mmio.accesses(), before.len() as int);
            assert(mmio.accesses() =~= before + release_command_mask_accesses(
                pipe,
                retained_slot,
                retained_frame,
                s,
            ));
            return None;
        },
    };
    proof {
        lemma_slot_fields_fit(pipe, current);
    }
    let kind = mmio.read_u8(slot.address + SLOT_KIND);
    let state = mmio.read_u8(slot.address + SLOT_STATE);
    if !aggregate_retry_command_owned(kind, state) {
        let ghost s = trace_after(mmio.accesses(), before.len() as int);
        proof {
            assert(s.subrange(1, 3) =~= trace_after(mid2, mid.len() as int));
            assert(s.subrange(3, s.len() as int) =~= trace_after(mmio.accesses(), mid2.len() as int));
            assert(value_of(s[3]) == kind as u32);
            assert(value_of(s[4]) == state as u32);
            let rest = s.subrange(1, s.len() as int);
            assert(rest =~= trace_after(mmio.accesses(), mid.len() as int));
            assert(rest.subrange(0, 2) =~= trace_after(mid2, mid.len() as int));
        }
        assert(mmio.accesses() =~= before + release_command_mask_accesses(
            pipe,
            retained_slot,
            retained_frame,
            s,
        ));
        return Some(false);
    }
    let raw = mmio.read_u32(record + PIPE_HARDWARE_RING);
    let ring = match TxHardwareRingAddress::for_pipe(pipe, raw) {
        Some(ring) => ring,
        None => {
            let ghost s = trace_after(mmio.accesses(), before.len() as int);
            proof {
                assert(s.subrange(3, s.len() as int) =~= trace_after(
                    mmio.accesses(),
                    mid2.len() as int,
                ));
                assert(value_of(s[3]) == kind as u32);
                assert(value_of(s[4]) == state as u32);
                assert(value_of(s[5]) == raw);
            }
            assert(mmio.accesses() =~= before + release_command_mask_accesses(
                pipe,
                retained_slot,
                retained_frame,
                s,
            ));
            return None;
        },
    };
    let mask = mmio.read_u32(ring.cursor_and_pending_mask());
    mmio.write_u32(ring.cursor_and_pending_mask(), mask & !(1u32 << current));
    let ghost s = trace_after(mmio.accesses(), before.len() as int);
    proof {
        assert(s.subrange(3, s.len() as int) =~= trace_after(mmio.accesses(), mid2.len() as int));
        assert(value_of(s[3]) == kind as u32);
        assert(value_of(s[4]) == state as u32);
        assert(value_of(s[5]) == raw);
        assert(value_of(s[6]) == mask);
    }
    assert(mmio.accesses() =~= before + release_command_mask_accesses(
        pipe,
        retained_slot,
        retained_frame,
        s,
    ));
    Some(true)
}

impl LiveTxSlot {
    /// The live slot `slot` of `pipe`, checked against its own slot record;
    /// see `from_mmio`.
    pub fn from_pipe_slot<M: MacPipeMmio>(mmio: &mut M, pipe: u8, slot: u8) -> (live: Option<Self>)
        ensures
            ({
                let s = trace_after(final(mmio).accesses(), old(mmio).accesses().len() as int);
                let record = slot_record_of(pipe as int, slot as int);
                &&& final(mmio).accesses() == old(mmio).accesses() + live_slot_accesses(pipe, slot, record, None, s)
                &&& (live is Some <==> live_slot_ok(pipe, slot, record, None, s))
                &&& (live matches Some(l) ==> l == (LiveTxSlot {
                    address: record,
                    frame_node: FrameNodeAddress(value_of(s[0])),
                    command: value_of(s[1]),
                }))
            }),
    {
        if pipe >= 4 || slot >= 4 {
            proof {
                let s = trace_after(mmio.accesses(), mmio.accesses().len() as int);
                assert(mmio.accesses() =~= mmio.accesses() + live_slot_accesses(
                    pipe,
                    slot,
                    slot_record_of(pipe as int, slot as int),
                    None,
                    s,
                ));
            }
            return None;
        }
        LiveTxSlot::from_mmio(mmio, pipe, slot, slot_record_address(pipe, slot), None)
    }
}

/// Accesses of checking a published slot: the frame word, then, when it is
/// the published frame node, the command word.
pub open spec fn published_slot_accesses(identity: PublishedSlotIdentity, s: Seq<MmioAccess>) -> Seq<MmioAccess> {
    let record = slot_record_of(identity.pipe as int, identity.slot as int);
    let head = seq![rd32((record + SLOT_FRAME) as u32, value_of(s[0]))];
    if value_of(s[0]) == identity.frame_node@ {
        head.push(rd32((record + SLOT_COMMAND) as u32, value_of(s[1])))
    } else {
        head
    }
}

impl PublishedSlotIdentity {
    /// The slot record of this publication while it still holds the
    /// published frame node and command, and the command is the slot's own.
    pub fn live_slot<M: MacPipeMmio>(self, mmio: &mut M) -> (live: Option<u32>)
        requires
            self.pipe < 4,
            self.slot < 4,
        ensures
            ({
                let s = trace_after(final(mmio).accesses(), old(mmio).accesses().len() as int);
                let record = slot_record_of(self.pipe as int, self.slot as int);
                &&& final(mmio).accesses() == old(mmio).accesses() + published_slot_accesses(self, s)
                &&& live == if value_of(s[0]) == self.frame_node@ && value_of(s[1]) == self.command
                    && self.command == tx_command_of(self.pipe as int, self.slot as int) {
                    Some(record)
                } else {
                    None
                }
            }),
    {
        let ghost before = mmio.accesses();
        proof {
            lemma_slot_fields_fit(self.pipe, self.slot);
        }
        let record = slot_record_address(self.pipe, self.slot);
        let frame = mmio.read_u32(record + SLOT_FRAME);
        if frame != self.frame_node.raw() {
            let ghost s = trace_after(mmio.accesses(), before.len() as int);
            assert(value_of(s[0]) == frame);
            assert(mmio.accesses() =~= before + published_slot_accesses(self, s));
            return None;
        }
        let command = mmio.read_u32(record + SLOT_COMMAND);
        let ghost s = trace_after(mmio.accesses(), before.len() as int);
        assert(value_of(s[0]) == frame);
        assert(value_of(s[1]) == command);
        assert(mmio.accesses() =~= before + published_slot_accesses(self, s));
        if command == self.command && self.command == tx_command(self.pipe, self.slot) {
            Some(record)
        } else {
            None
        }
    }
}

} // verus!
