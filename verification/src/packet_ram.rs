//! Runtime packet-RAM window.
//!
//! The CPU sees packet RAM as one window. The MAC addresses the same bytes
//! by their offset from the window start, and descriptor opcodes embed that
//! offset in their low 24 bits.

use vstd::prelude::*;

verus! {

/// First CPU address of the runtime packet-RAM window.
pub const RUNTIME_CPU_START: u32 = 0x0900_0000;

/// One past the last CPU address of the runtime packet-RAM window.
pub const RUNTIME_CPU_END: u32 = 0x0904_0000;

/// First per-slot command descriptor in packet RAM.
pub const TX_COMMAND_BASE: u32 = 0x0900_0400;

/// Size of one per-slot command descriptor.
pub const TX_COMMAND_SIZE: u32 = 0x40;

/// First A-MPDU spacing transfer word.
pub const AMPDU_SPACING_WORDS: u32 = 0x0900_0200;

/// First host frame state: one per host context, in context order.
pub const HOST_FRAME_STATES: u32 = 0x0900_0800;

/// Size of one host frame state.
pub const HOST_FRAME_STATE_SIZE: u32 = 0x60;

/// Address of the frame state of the `index`-th host context.
pub open spec fn host_frame_state_of(index: int) -> u32 {
    (HOST_FRAME_STATES + index * HOST_FRAME_STATE_SIZE) as u32
}

/// Frame state of the `index`-th host context.
pub fn host_frame_state(index: u32) -> (address: u32)
    requires
        index < 30,
    ensures
        address == host_frame_state_of(index as int),
{
    HOST_FRAME_STATES + index * HOST_FRAME_STATE_SIZE
}

/// `[address, address + length)` lies inside the runtime window.
pub open spec fn in_runtime_window(address: u32, length: int) -> bool {
    RUNTIME_CPU_START <= address && address + length <= RUNTIME_CPU_END
}

/// MAC-side offset of a CPU address inside the window.
pub open spec fn mac_offset_of(address: u32) -> u32 {
    (address - RUNTIME_CPU_START) as u32
}

/// CPU address of the command descriptor of `slot` in `pipe`.
pub open spec fn tx_command_of(pipe: int, slot: int) -> u32 {
    (TX_COMMAND_BASE + (pipe * 4 + slot) * TX_COMMAND_SIZE) as u32
}

/// A byte range that lies inside the runtime packet-RAM window.
#[derive(Clone, Copy, Debug, PartialEq, Eq, Structural)]
pub struct RuntimePacketAddress {
    pub address: u32,
}

impl RuntimePacketAddress {
    /// Accepts `[address, address + length)` only when it lies inside the
    /// runtime window.
    pub fn new(address: u32, length: usize) -> (packet: Option<Self>)
        ensures
            packet is Some <==> in_runtime_window(address, length as int),
            packet matches Some(p) ==> p.address == address,
    {
        if address >= RUNTIME_CPU_START && address <= RUNTIME_CPU_END && length as u64 <= (
        RUNTIME_CPU_END - address) as u64 {
            Some(RuntimePacketAddress { address })
        } else {
            None
        }
    }

    pub fn raw(self) -> (address: u32)
        ensures
            address == self.address,
    {
        self.address
    }

    /// Offset of this address as seen by the MAC.
    pub fn mac_offset(self) -> (offset: u32)
        requires
            in_runtime_window(self.address, 0),
        ensures
            offset == mac_offset_of(self.address),
    {
        self.address - RUNTIME_CPU_START
    }

    /// Bus form of a payload address, restricted by the caller's mask.
    pub fn tx_payload_bus_address(self, mask: u32) -> (bus: u32)
        requires
            in_runtime_window(self.address, 0),
        ensures
            bus == mac_offset_of(self.address) & mask,
    {
        (self.address - RUNTIME_CPU_START) & mask
    }
}

/// MAC offset of a CPU address inside the window.
pub fn encode_mac_packet_offset_u32(address: u32) -> (offset: u32)
    requires
        in_runtime_window(address, 0),
    ensures
        offset == mac_offset_of(address),
{
    address - RUNTIME_CPU_START
}

/// Command descriptor of `slot` in `pipe`.
pub fn tx_command(pipe: u8, slot: u8) -> (command: u32)
    requires
        pipe < 4,
        slot < 4,
    ensures
        command == tx_command_of(pipe as int, slot as int),
{
    TX_COMMAND_BASE + (pipe as u32 * 4 + slot as u32) * TX_COMMAND_SIZE
}

/// Opcode-6 transfer word of an A-MPDU member or spacing block.
pub open spec fn ampdu_transfer_word_of(address: u32) -> u32 {
    0x6500_0000 | mac_offset_of(address)
}

/// Transfer word for a word-aligned CPU address inside the window.
pub fn ampdu_transfer_word(address: u32) -> (word: Option<u32>)
    ensures
        word is Some <==> (in_runtime_window(address, 4) && address % 4 == 0),
        word matches Some(w) ==> w == ampdu_transfer_word_of(address),
{
    if address >= RUNTIME_CPU_START && address < RUNTIME_CPU_END - 3 && address % 4 == 0 {
        Some(0x6500_0000 | (address - RUNTIME_CPU_START))
    } else {
        None
    }
}

/// CPU address of the spacing block selected by `selector`.
pub open spec fn ampdu_spacing_word_address_of(selector: u8) -> u32 {
    (AMPDU_SPACING_WORDS + selector * 4) as u32
}

pub fn ampdu_spacing_word_address(selector: u8) -> (address: u32)
    ensures
        address == ampdu_spacing_word_address_of(selector),
        in_runtime_window(address, 4),
        address % 4 == 0,
{
    AMPDU_SPACING_WORDS + selector as u32 * 4
}

/// Transfer word of the A-MPDU spacing block `selector`; selector 0 has
/// no spacing block.
pub fn ampdu_spacing_word(selector: u8) -> (word: Option<u32>)
    ensures
        word == if selector == 0 {
            None
        } else {
            Some(ampdu_transfer_word_of(ampdu_spacing_word_address_of(selector)))
        },
{
    if selector == 0 {
        None
    } else {
        ampdu_transfer_word(ampdu_spacing_word_address(selector))
    }
}

} // verus!
