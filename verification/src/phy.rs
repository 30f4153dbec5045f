//! PHY words, single-frame timing and pipe command descriptors.

use vstd::prelude::*;

use crate::packet_ram::{
    ampdu_spacing_word_address, ampdu_transfer_word, ampdu_transfer_word_of,
    ampdu_spacing_word_address_of, encode_mac_packet_offset_u32, in_runtime_window,
    mac_offset_of, RuntimePacketAddress,
};

verus! {

#[derive(Clone, Copy, Debug, PartialEq, Eq, Structural)]
pub enum ProbeBuildError {
    MissingTemplate,
    WrongTemplateType,
    MalformedTemplate,
    SsidTooLong,
    FrameTooLarge,
    ContextPoolEmpty,
    InvalidInterface,
    InvalidContextPointer,
    PacketRamMismatch,
    PipeStateUnavailable,
    PipeSlotBusy,
    PipeSlotOwnershipMismatch,
    DescriptorReadbackMismatch,
    UnsupportedPublicationShape,
    CryptoFailure,
}

#[derive(Clone, Copy, Debug, PartialEq, Eq, Structural)]
pub struct PhyRateWords {
    pub control: u32,
    pub rate: u32,
}

/// Modulation class bits of the PHY rate word.
pub open spec fn phy_rate_class(rate_index: u8, legacy_mode: u8, tx_flags: u32) -> u32 {
    if rate_index < 4 {
        if legacy_mode == 0 || rate_index == 0 || (legacy_mode == 2 && rate_index == 1) {
            0x0400
        } else {
            0
        }
    } else if rate_index < 0x0e {
        0x0800
    } else if tx_flags & 0x08 != 0 {
        0x1400
    } else {
        0x1000
    }
}

/// PHY control word: HT rates with flag 0x20 use control 6, all others 2.
pub open spec fn phy_control_of(rate_index: u8, tx_flags: u32) -> u32 {
    if rate_index >= 0x0e && tx_flags & 0x20 != 0 {
        6
    } else {
        2
    }
}

proof fn lemma_rate_word_bits()
    by (bit_vector)
    ensures
        forall|c: u32, a: u8, b: u8|
            (c == 0 || c == 0x0400 || c == 0x0800 || c == 0x1000 || c == 0x1400) ==> #[trigger] ((c | (a & 0x0f)
                as u32) | (((b & 7) as u32) << 16u32)) & 0x1c00u32 == c,
{
}

/// The modulation class of a PHY rate word (bits 10..13) follows the rate
/// index alone: OFDM rates 4..0x0e take class 0x0800, the CCK rates below 4
/// never do, and HT rates from 0x0e on carry bit 0x1000, whatever the rate
/// attribute and request bits packed beside it.
pub proof fn lemma_rate_word_modulation_class(
    rate_index: u8,
    legacy_mode: u8,
    tx_flags: u32,
    request_flag_rate_bits: u8,
    rate_attribute: u8,
)
    ensures
        ({
            let rate = phy_rate_class(rate_index, legacy_mode, tx_flags) | (rate_attribute & 0x0f) as u32 | (((
            request_flag_rate_bits & 7) as u32) << 16);
            &&& 4 <= rate_index < 0x0e ==> rate & 0x1c00 == 0x0800
            &&& rate_index < 4 ==> rate & 0x1c00 == 0x0400 || rate & 0x1c00 == 0
            &&& rate_index >= 0x0e ==> rate & 0x1c00 == 0x1000 || rate & 0x1c00 == 0x1400
        }),
{
    lemma_rate_word_bits();
    let c = phy_rate_class(rate_index, legacy_mode, tx_flags);
    assert(((c | (rate_attribute & 0x0f) as u32) | (((request_flag_rate_bits & 7) as u32) << 16u32)) & 0x1c00u32
        == c);
}

/// PHY rate and control words for one transmission.
pub fn build_phy_rate_words(
    rate_index: u8,
    legacy_mode: u8,
    tx_flags: u32,
    request_flag_rate_bits: u8,
    rate_attribute: u8,
) -> (words: PhyRateWords)
    ensures
        words.control == phy_control_of(rate_index, tx_flags),
        words.rate == phy_rate_class(rate_index, legacy_mode, tx_flags) | (rate_attribute & 0x0f)
            as u32 | (((request_flag_rate_bits & 7) as u32) << 16),
        4 <= rate_index < 0x0e ==> words.rate & 0x1c00 == 0x0800,
        rate_index < 4 ==> words.rate & 0x1c00 != 0x0800,
{
    proof {
        lemma_rate_word_modulation_class(rate_index, legacy_mode, tx_flags, request_flag_rate_bits, rate_attribute);
    }
    let mut control: u32 = 2;
    let class: u32 = if rate_index < 4 {
        if legacy_mode == 0 || rate_index == 0 || (legacy_mode == 2 && rate_index == 1) {
            0x0400
        } else {
            0
        }
    } else if rate_index < 0x0e {
        0x0800
    } else {
        if tx_flags & 0x20 != 0 {
            control = 6;
        }
        if tx_flags & 0x08 != 0 {
            0x1400
        } else {
            0x1000
        }
    };
    PhyRateWords {
        control,
        rate: class | (rate_attribute & 0x0f) as u32 | (((request_flag_rate_bits & 7) as u32) << 16),
    }
}

#[derive(Clone, Copy, Debug, PartialEq, Eq, Structural)]
pub struct SingleFramePasTiming {
    pub payload_extended: u16,
    pub payload_base: u16,
    pub ack: u16,
    pub total_airtime: u32,
    pub frame_kind: u8,
}

/// Duration word of a single-frame slot: payload airtime in the upper half,
/// then the ACK window unless the frame expects no response.
pub open spec fn slot_duration_of(timing: SingleFramePasTiming) -> int {
    timing.payload_base * 0x8000 + if timing.frame_kind == 0xff {
        0
    } else {
        0x2000 + timing.ack
    }
}

pub fn single_frame_slot_duration(timing: SingleFramePasTiming) -> (duration: u32)
    ensures
        duration == slot_duration_of(timing),
{
    (timing.payload_base as u32) * 0x8000 + if timing.frame_kind == 0xff {
        0
    } else {
        0x2000 + timing.ack as u32
    }
}

/// The fixed 802.11 header: frame control, duration, three addresses and
/// sequence control, in this order, 24 bytes in all.
pub struct Dot11FixedHeaderLayout {
    pub frame_control: u16,
    pub duration: u16,
    pub address_1: [u8; 6],
    pub address_2: [u8; 6],
    pub address_3: [u8; 6],
    pub sequence_control: u16,
}

/// Length of the fixed 802.11 header.
pub const DOT11_FIXED_HEADER_LENGTH: u16 = 24;

/// Offset of the frame control field in the fixed header.
pub const DOT11_FRAME_CONTROL_OFFSET: u32 = 0;

/// Offset of the duration field in the fixed header.
pub const DOT11_DURATION_OFFSET: u32 = 2;

/// Offset of the first address in the fixed header.
pub const DOT11_ADDRESS_1_OFFSET: u32 = 4;

/// Offset of the second address in the fixed header.
pub const DOT11_ADDRESS_2_OFFSET: u32 = 10;

/// Offset of the third address in the fixed header.
pub const DOT11_ADDRESS_3_OFFSET: u32 = 16;

/// Offset of the sequence control field in the fixed header.
pub const DOT11_SEQUENCE_CONTROL_OFFSET: u32 = 22;

/// An 802.11 frame header inside the runtime packet-RAM window.
#[derive(Clone, Copy, Debug, PartialEq, Eq, Structural)]
pub struct TxFrameAddress {
    pub address: u32,
}

impl TxFrameAddress {
    pub fn new(address: u32) -> (frame: Self)
        ensures
            frame.address == address,
    {
        TxFrameAddress { address }
    }

    pub fn raw(self) -> (address: u32)
        ensures
            address == self.address,
    {
        self.address
    }

    pub fn frame_control(self) -> (address: u32)
        ensures
            address == self.address.wrapping_add(DOT11_FRAME_CONTROL_OFFSET),
    {
        self.address.wrapping_add(DOT11_FRAME_CONTROL_OFFSET)
    }

    pub fn address_1(self) -> (address: u32)
        ensures
            address == self.address.wrapping_add(DOT11_ADDRESS_1_OFFSET),
    {
        self.address.wrapping_add(DOT11_ADDRESS_1_OFFSET)
    }

    pub fn address_2_byte_unchecked(self, byte: u32) -> (address: u32)
        ensures
            address == self.address.wrapping_add(DOT11_ADDRESS_2_OFFSET).wrapping_add(byte),
    {
        self.address.wrapping_add(DOT11_ADDRESS_2_OFFSET).wrapping_add(byte)
    }

    /// Halfword `word` of the first address field.
    pub fn address_1_halfword_unchecked(self, word: u32) -> (address: u32)
        requires
            word < 0x8000_0000,
        ensures
            address == self.address.wrapping_add(DOT11_ADDRESS_1_OFFSET).wrapping_add((word * 2) as u32),
    {
        self.address_1().wrapping_add(word * 2)
    }

    /// Halfword `word` of the second address field.
    pub fn address_2_halfword_unchecked(self, word: u32) -> (address: u32)
        requires
            word < 0x8000_0000,
        ensures
            address == self.address.wrapping_add(DOT11_ADDRESS_2_OFFSET).wrapping_add((word * 2) as u32),
    {
        self.address_2_byte_unchecked(word * 2)
    }

    pub fn sequence_control(self) -> (address: u32)
        ensures
            address == self.address.wrapping_add(DOT11_SEQUENCE_CONTROL_OFFSET),
    {
        self.address.wrapping_add(DOT11_SEQUENCE_CONTROL_OFFSET)
    }

    /// The descriptor tail starts at the first address field.
    pub fn descriptor_tail(self) -> (address: u32)
        ensures
            address == self.address.wrapping_add(DOT11_ADDRESS_1_OFFSET),
    {
        self.address_1()
    }

    pub fn payload_after_fixed_header(self) -> (address: u32)
        ensures
            address == self.address.wrapping_add(24),
    {
        self.address.wrapping_add(24)
    }
}

/// A frame of `length` bytes at `address` that holds at least the fixed
/// header and lies inside packet RAM.
pub fn validated_tx_frame(address: u32, length: u16) -> (frame: Option<TxFrameAddress>)
    ensures
        frame is Some <==> (length >= DOT11_FIXED_HEADER_LENGTH && in_runtime_window(
            address,
            length as int,
        )),
        frame matches Some(f) ==> f.address == address,
{
    if length < DOT11_FIXED_HEADER_LENGTH {
        return None;
    }
    match RuntimePacketAddress::new(address, length as usize) {
        Some(packet) => Some(TxFrameAddress::new(packet.raw())),
        None => None,
    }
}

/// Software view of an 802.11 MAC header.
#[derive(Clone, Copy, Debug, PartialEq, Eq, Structural)]
pub struct Dot11HeaderShape {
    pub length: u32,
    pub qos_data: bool,
}

/// Header length and QoS-data shape of a frame control word.
pub fn classify_dot11_header(frame_control: u16, legacy_eapol: bool) -> (shape: Dot11HeaderShape)
    ensures
        shape.qos_data == (!legacy_eapol && frame_control & 0x008f == 0x0088),
        shape.length == (if frame_control & 0x0300 == 0x0300 {
            30u32
        } else {
            24u32
        }) + (if shape.qos_data {
            if frame_control & 0x8000 != 0 {
                6u32
            } else {
                2u32
            }
        } else {
            0u32
        }),
{
    let four_address = frame_control & 0x0300 == 0x0300;
    let qos_data = !legacy_eapol && frame_control & 0x008f == 0x0088;
    let base: u32 = if four_address {
        30
    } else {
        DOT11_FIXED_HEADER_LENGTH as u32
    };
    let qos_extension: u32 = if qos_data {
        if frame_control & 0x8000 != 0 {
            6
        } else {
            2
        }
    } else {
        0
    };
    Dot11HeaderShape { length: base + qos_extension, qos_data }
}

#[derive(Clone, Copy, Debug, PartialEq, Eq, Structural)]
pub struct SingleFramePipeInput {
    pub phy_rate_word: u32,
    pub phy_control_word: u32,
    pub frame_length: u16,
    pub hardware_rate: u8,
    pub frame_control: u16,
    pub retry_flag: bool,
    pub metadata_address: RuntimePacketAddress,
    pub duration: u16,
    pub header_address: RuntimePacketAddress,
    pub secondary_command: u32,
    pub address_mask: u32,
    pub terminal_command: u32,
}

#[derive(Clone, Copy, Debug, PartialEq, Eq)]
pub struct SingleFramePipeDescriptor {
    pub words: [u32; 13],
    pub length: u8,
}

impl SingleFramePipeDescriptor {
    /// The emitted command words.
    pub fn words(&self) -> (words: &[u32])
        requires
            self.length <= 13,
        ensures
            words@ == self.words@.subrange(0, self.length as int),
    {
        let all = self.words.as_slice();
        &all[0..self.length as usize]
    }
}

/// Frame control as it appears in the descriptor (bit 11 marks a retry).
pub open spec fn descriptor_frame_control(input: SingleFramePipeInput) -> u32 {
    input.frame_control as u32 | if input.retry_flag {
        0x0800u32
    } else {
        0u32
    }
}

/// The command words of a single non-aggregate frame, header first.
pub open spec fn single_frame_words(input: SingleFramePipeInput) -> Seq<u32> {
    let header = input.header_address.address;
    let frame_control = descriptor_frame_control(input);
    let prefix = seq![
        0x5100_0000u32 | (input.phy_rate_word & 0x00ff_ffff),
        0x5000_0000u32 | (input.phy_control_word & 0x00ff_ffff),
        0x5200_0000u32 | ((input.hardware_rate as u32) << 16) | (input.frame_length.wrapping_add(
            4,
        ) as u32),
        (0x3100_0000 + frame_control) as u32,
        (0x4700_0000 + (frame_control >> 8)) as u32,
        0x2080_0000u32 | mac_offset_of(input.metadata_address.address),
        0x3200_0000u32 | (input.duration as u32),
        0x2900_0000u32 | mac_offset_of((header + 4) as u32),
        input.secondary_command,
    ];
    let payload = if input.frame_length > DOT11_FIXED_HEADER_LENGTH {
        seq![
            0x4000_0000u32 | (mac_offset_of((header + 24) as u32) & input.address_mask),
            ((((input.frame_length - DOT11_FIXED_HEADER_LENGTH) as u32) & 0x0fff) << 12) | ((
            (header + 24) as u32) & 3),
        ]
    } else {
        Seq::<u32>::empty()
    };
    prefix + payload + seq![input.terminal_command, 0xf000_0000u32]
}

/// Builds the command list of one non-aggregate frame.
pub fn build_single_frame_pipe_descriptor(input: SingleFramePipeInput) -> (result: Result<
    SingleFramePipeDescriptor,
    ProbeBuildError,
>)
    ensures
        match result {
            Ok(d) => input.frame_length >= DOT11_FIXED_HEADER_LENGTH && in_runtime_window(
                input.header_address.address,
                input.frame_length as int,
            ) && in_runtime_window(input.metadata_address.address, 1) && d.length <= 13
                && d.words@.subrange(0, d.length as int) == single_frame_words(input),
            Err(e) => e == ProbeBuildError::PacketRamMismatch && !(input.frame_length
                >= DOT11_FIXED_HEADER_LENGTH && in_runtime_window(
                input.header_address.address,
                input.frame_length as int,
            ) && in_runtime_window(input.metadata_address.address, 1)),
        },
{
    let header = match validated_tx_frame(input.header_address.raw(), input.frame_length) {
        Some(header) => header,
        None => {
            return Err(ProbeBuildError::PacketRamMismatch);
        },
    };
    if RuntimePacketAddress::new(input.metadata_address.raw(), 1).is_none() {
        return Err(ProbeBuildError::PacketRamMismatch);
    }
    let mut words = [0u32; 13];
    let fc: u16 = input.frame_control;
    let retry_bit: u32 = if input.retry_flag {
        0x0800u32
    } else {
        0u32
    };
    let frame_control: u32 = fc as u32 | retry_bit;
    proof {
        assert(frame_control <= 0xffff && frame_control >> 8 <= 0xff) by (bit_vector)
            requires
                frame_control == fc as u32 | retry_bit,
                retry_bit == 0 || retry_bit == 0x0800,
        ;
    }
    words[0] = 0x5100_0000 | (input.phy_rate_word & 0x00ff_ffff);
    words[1] = 0x5000_0000 | (input.phy_control_word & 0x00ff_ffff);
    words[2] = 0x5200_0000 | ((input.hardware_rate as u32) << 16) | (input.frame_length.wrapping_add(
        4,
    ) as u32);
    words[3] = 0x3100_0000 + frame_control;
    words[4] = 0x4700_0000 + (frame_control >> 8);
    words[5] = 0x2080_0000 | input.metadata_address.mac_offset();
    words[6] = 0x3200_0000 | input.duration as u32;
    words[7] = 0x2900_0000 | encode_mac_packet_offset_u32(header.descriptor_tail());
    words[8] = input.secondary_command;
    let mut length: usize = 9;
    if input.frame_length > DOT11_FIXED_HEADER_LENGTH {
        let payload = match RuntimePacketAddress::new(
            header.payload_after_fixed_header(),
            (input.frame_length - DOT11_FIXED_HEADER_LENGTH) as usize,
        ) {
            Some(payload) => payload,
            None => {
                return Err(ProbeBuildError::PacketRamMismatch);
            },
        };
        words[9] = 0x4000_0000 | payload.tx_payload_bus_address(input.address_mask);
        words[10] = ((((input.frame_length - DOT11_FIXED_HEADER_LENGTH) as u32) & 0x0fff) << 12) | (
        payload.raw() & 3);
        length = 11;
    }
    words[length] = input.terminal_command;
    words[length + 1] = 0xf000_0000;
    let descriptor = SingleFramePipeDescriptor { words, length: (length + 2) as u8 };
    assert(descriptor.words@.subrange(0, descriptor.length as int) =~= single_frame_words(input));
    Ok(descriptor)
}

#[derive(Clone, Copy, Debug, PartialEq, Eq, Structural)]
pub struct DepthTwoAmpduInput {
    pub first_frame_state: u32,
    pub second_frame_state: u32,
    pub first_frame_length: u16,
    pub second_frame_length: u16,
    pub phy_rate_word: u32,
    pub phy_control_word: u32,
    pub hardware_rate: u8,
    /// Spacing selector used by opcode 4. Zero emits no spacing word.
    pub spacing_selector: u8,
}

#[derive(Clone, Copy, Debug, PartialEq, Eq)]
pub struct DepthTwoAmpduDescriptor {
    /// Auxiliary stream reached by the top-level opcode-0 transfer.
    pub words: [u32; 6],
    pub length: u8,
    /// Shared PHY words emitted at top-level command offsets `+0x0c..+0x14`.
    pub phy_words: [u32; 3],
    pub aggregate_length: u16,
}

/// Row `density` of the minimum-spacing table, indexed by HT rate minus 14.
pub open spec fn spacing_row(density: u8) -> Seq<u8> {
    if density == 0 {
        seq![0u8, 0, 0, 0, 0, 0, 0, 0]
    } else if density == 1 {
        seq![1u8, 1, 1, 1, 1, 1, 1, 1]
    } else if density == 2 {
        seq![1u8, 1, 1, 1, 1, 1, 1, 2]
    } else if density == 3 {
        seq![1u8, 1, 1, 1, 2, 2, 2, 3]
    } else if density == 4 {
        seq![1u8, 1, 2, 2, 3, 4, 4, 5]
    } else if density == 5 {
        seq![1u8, 2, 3, 4, 5, 7, 8, 9]
    } else if density == 6 {
        seq![2u8, 4, 5, 7, 10, 13, 15, 17]
    } else {
        seq![4u8, 7, 10, 13, 20, 26, 30, 33]
    }
}

fn spacing_table_row(density: u8) -> (row: [u8; 8])
    requires
        density < 8,
    ensures
        row@ == spacing_row(density),
{
    let row = if density == 0 {
        [0u8, 0, 0, 0, 0, 0, 0, 0]
    } else if density == 1 {
        [1u8, 1, 1, 1, 1, 1, 1, 1]
    } else if density == 2 {
        [1u8, 1, 1, 1, 1, 1, 1, 2]
    } else if density == 3 {
        [1u8, 1, 1, 1, 2, 2, 2, 3]
    } else if density == 4 {
        [1u8, 1, 2, 2, 3, 4, 4, 5]
    } else if density == 5 {
        [1u8, 2, 3, 4, 5, 7, 8, 9]
    } else if density == 6 {
        [2u8, 4, 5, 7, 10, 13, 15, 17]
    } else {
        [4u8, 7, 10, 13, 20, 26, 30, 33]
    };
    assert(row@ =~= spacing_row(density));
    row
}

/// Minimum MPDU spacing, in transfer blocks, for an HT rate and density.
pub open spec fn spacing_selector_of(density: u8, rate: u8) -> u8 {
    if density < 8 && 14 <= rate < 22 {
        spacing_row(density)[rate - 14]
    } else {
        0
    }
}

pub fn ampdu_spacing_selector(density: u8, rate: u8) -> (selector: u8)
    ensures
        selector == spacing_selector_of(density, rate),
{
    if density < 8 && rate >= 14 && rate < 22 {
        let row = spacing_table_row(density);
        row[(rate - 14) as usize]
    } else {
        0
    }
}

/// Member transfer words need word-aligned frame states inside packet RAM.
pub open spec fn ampdu_member_valid(frame_state: u32) -> bool {
    in_runtime_window(frame_state.wrapping_add(8), 4) && frame_state.wrapping_add(8) % 4 == 0
}

/// Length of a two-member aggregate: the first subframe is padded with its
/// delimiter to a word boundary, the spacing blocks follow, then the last
/// subframe with its FCS.
pub open spec fn depth_two_aggregate_length(input: DepthTwoAmpduInput) -> u16 {
    ((((input.first_frame_length + 0x0b) as u32) & !3u32) + input.spacing_selector * 4
        + input.second_frame_length + 8) as u16
}

/// The auxiliary opcode stream of a two-member aggregate.
pub open spec fn depth_two_words(input: DepthTwoAmpduInput) -> Seq<u32> {
    let first = ampdu_transfer_word_of(input.first_frame_state.wrapping_add(8));
    let second = ampdu_transfer_word_of(input.second_frame_state.wrapping_add(8));
    let spacing = if input.spacing_selector == 0 {
        Seq::<u32>::empty()
    } else {
        seq![ampdu_transfer_word_of(ampdu_spacing_word_address_of(input.spacing_selector))]
    };
    seq![first, 0x6600_0000u32] + spacing + seq![second, 0xe400_0000u32]
}

/// Builds the opcode stream for exactly two MPDUs.
pub fn build_depth_two_ampdu_descriptor(input: DepthTwoAmpduInput) -> (descriptor:
    DepthTwoAmpduDescriptor)
    requires
        ampdu_member_valid(input.first_frame_state),
        ampdu_member_valid(input.second_frame_state),
    ensures
        descriptor.length <= 6,
        descriptor.words@.subrange(0, descriptor.length as int) == depth_two_words(input),
        descriptor.aggregate_length == depth_two_aggregate_length(input),
        descriptor.phy_words[0] == 0x5100_0000u32 | (input.phy_rate_word & 0x00ff_ffff),
        descriptor.phy_words[1] == 0x5000_0000u32 | (input.phy_control_word & 0x00ff_ffff),
        descriptor.phy_words[2] == 0x5200_0000u32 | ((input.hardware_rate as u32) << 16) | (
        descriptor.aggregate_length as u32),
{
    let mut words = [0u32; 6];
    let mut length: usize = 0;
    let first = match ampdu_transfer_word(input.first_frame_state.wrapping_add(8)) {
        Some(word) => word,
        None => 0,
    };
    words[length] = first;
    length += 1;
    words[length] = 0x6600_0000;
    length += 1;
    if input.spacing_selector != 0 {
        let spacing = match ampdu_transfer_word(ampdu_spacing_word_address(input.spacing_selector)) {
            Some(word) => word,
            None => 0,
        };
        words[length] = spacing;
        length += 1;
    }
    let second = match ampdu_transfer_word(input.second_frame_state.wrapping_add(8)) {
        Some(word) => word,
        None => 0,
    };
    words[length] = second;
    length += 1;
    words[length] = 0xe400_0000;
    length += 1;
    let padded: u32 = (input.first_frame_length as u32 + 0x0b) & !3u32;
    proof {
        let x = (input.first_frame_length as u32 + 0x0b) as u32;
        assert(x & !3u32 <= x) by (bit_vector);
    }
    let total: u32 = padded + input.spacing_selector as u32 * 4 + input.second_frame_length as u32
        + 8;
    let aggregate_length = total as u16;
    let phy_words = [
        0x5100_0000 | (input.phy_rate_word & 0x00ff_ffff),
        0x5000_0000 | (input.phy_control_word & 0x00ff_ffff),
        0x5200_0000 | ((input.hardware_rate as u32) << 16) | (aggregate_length as u32),
    ];
    let descriptor = DepthTwoAmpduDescriptor {
        words,
        length: length as u8,
        phy_words,
        aggregate_length,
    };
    assert(descriptor.words@.subrange(0, descriptor.length as int) =~= depth_two_words(input));
    descriptor
}

} // verus!
