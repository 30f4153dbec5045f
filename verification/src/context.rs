//! TX context and frame-node addresses.
//!
//! A TX context is a 0x170-byte record in DTCM. Host (WSM) contexts form a
//! pool of thirty records, internal management contexts a pool of three.
//! Both pools share one field layout. The frame node that the MAC pipe slots
//! point at lives at a fixed offset inside the context.

use vstd::prelude::*;

use crate::offset;
use crate::packet_ram::{host_frame_state_of, tx_command, tx_command_of};

verus! {

/// Offset of the frame node inside a TX context.
pub const FRAME_NODE_OFFSET: u32 = 0x54;

/// Size of one TX context record.
pub const TX_CONTEXT_SIZE: u32 = 0x170;

/// First host context.
pub const HOST_TX_CONTEXTS: u32 = 0x0400_5a24;

/// Number of host contexts.
pub const HOST_TX_CONTEXT_COUNT: u32 = 30;

/// Start of the internal context pool record (its free-list head word).
pub const INTERNAL_CONTEXT_POOL: u32 = 0x0400_9080;

/// First internal context.
pub const INTERNAL_TX_CONTEXTS: u32 = 0x0400_9084;

/// Number of internal contexts.
pub const INTERNAL_TX_CONTEXT_COUNT: u32 = 3;

/// `address` is the first byte of one of the host contexts.
pub open spec fn is_host_context(address: u32) -> bool {
    HOST_TX_CONTEXTS <= address < HOST_TX_CONTEXTS + HOST_TX_CONTEXT_COUNT * TX_CONTEXT_SIZE
        && (address - HOST_TX_CONTEXTS) % (TX_CONTEXT_SIZE as int) == 0
}

/// `address` is the first byte of one of the internal contexts.
pub open spec fn is_internal_context(address: u32) -> bool {
    INTERNAL_TX_CONTEXTS <= address < INTERNAL_TX_CONTEXTS + INTERNAL_TX_CONTEXT_COUNT
        * TX_CONTEXT_SIZE && (address - INTERNAL_TX_CONTEXTS) % (TX_CONTEXT_SIZE as int) == 0
}

/// `address` is the first byte of some TX context.
pub open spec fn is_context(address: u32) -> bool {
    is_host_context(address) || is_internal_context(address)
}

/// `address` is the frame node of some TX context.
pub open spec fn is_frame_node(address: u32) -> bool {
    address >= FRAME_NODE_OFFSET && is_context((address - FRAME_NODE_OFFSET) as u32)
}

fn pool_member(address: u32, first: u32, count: u32) -> (member: bool)
    requires
        first as int + count * TX_CONTEXT_SIZE <= u32::MAX,
    ensures
        member == (first <= address < first + count * TX_CONTEXT_SIZE && (address - first) % (
        TX_CONTEXT_SIZE as int) == 0),
{
    address >= first && address - first < count * TX_CONTEXT_SIZE && (address - first)
        % TX_CONTEXT_SIZE == 0
}

/// Whether `address` names a host context.
pub fn host_context_valid(address: u32) -> (valid: bool)
    ensures
        valid == is_host_context(address),
{
    pool_member(address, HOST_TX_CONTEXTS, HOST_TX_CONTEXT_COUNT)
}

/// Whether `address` names an internal context.
pub fn internal_context_valid(address: u32) -> (valid: bool)
    ensures
        valid == is_internal_context(address),
{
    pool_member(address, INTERNAL_TX_CONTEXTS, INTERNAL_TX_CONTEXT_COUNT)
}

/// Address of the internal context at `index` of the pool.
pub fn internal_context_address(index: usize) -> (context: ContextAddress)
    requires
        index < INTERNAL_TX_CONTEXT_COUNT,
    ensures
        context@ == INTERNAL_TX_CONTEXTS + index * TX_CONTEXT_SIZE,
        is_internal_context(context@),
{
    let address = INTERNAL_TX_CONTEXTS + index as u32 * TX_CONTEXT_SIZE;
    assert((address - INTERNAL_TX_CONTEXTS) % (TX_CONTEXT_SIZE as int) == 0) by (nonlinear_arith)
        requires
            address - INTERNAL_TX_CONTEXTS == index * TX_CONTEXT_SIZE,
            TX_CONTEXT_SIZE == 0x170,
    ;
    ContextAddress(address)
}

/// Address of a TX context.
#[derive(Clone, Copy, Debug, PartialEq, Eq, Structural)]
pub struct ContextAddress(pub u32);

/// Address of the frame node embedded in a TX context.
#[derive(Clone, Copy, Debug, PartialEq, Eq, Structural)]
pub struct FrameNodeAddress(pub u32);

impl View for ContextAddress {
    type V = u32;

    open spec fn view(&self) -> u32 {
        self.0
    }
}

impl View for FrameNodeAddress {
    type V = u32;

    open spec fn view(&self) -> u32 {
        self.0
    }
}

impl ContextAddress {
    /// Wraps an address without validating it.
    pub fn new(address: u32) -> (context: Self)
        ensures
            context@ == address,
    {
        Self(address)
    }

    /// Accepts only the first byte of a host or internal context.
    pub fn from_raw(address: u32) -> (context: Option<Self>)
        ensures
            context is Some <==> is_context(address),
            context matches Some(c) ==> c@ == address,
    {
        if host_context_valid(address) || internal_context_valid(address) {
            Some(Self(address))
        } else {
            None
        }
    }

    pub fn raw(self) -> (address: u32)
        ensures
            address == self@,
    {
        self.0
    }

    /// The frame node embedded in this context.
    pub fn frame_node(self) -> (node: FrameNodeAddress)
        ensures
            node@ == self@.wrapping_add(FRAME_NODE_OFFSET),
    {
        FrameNodeAddress(self.0.wrapping_add(FRAME_NODE_OFFSET))
    }

    /// Whether this is a host (WSM) context.
    pub fn host(self) -> (host: Option<HostContextAddress>)
        ensures
            host is Some <==> is_host_context(self@),
            host matches Some(h) ==> h@ == self@,
    {
        HostContextAddress::from_raw(self.0)
    }

    /// Address of the field at `offset` inside this context.
    pub fn field_address(self, offset: u32) -> (address: u32)
        ensures
            address == self@.wrapping_add(offset),
    {
        self.0.wrapping_add(offset)
    }

    pub fn intrusive_next_address(self) -> (a: u32)
        ensures a == self@.wrapping_add(offset::INTRUSIVE_NEXT),
    { self.field_address(offset::INTRUSIVE_NEXT) }

    pub fn requested_rate_address(self) -> (a: u32)
        ensures a == self@.wrapping_add(offset::REQUESTED_RATE),
    { self.field_address(offset::REQUESTED_RATE) }

    pub fn queue_id_address(self) -> (a: u32)
        ensures a == self@.wrapping_add(offset::QUEUE_ID),
    { self.field_address(offset::QUEUE_ID) }

    pub fn request_flags_address(self) -> (a: u32)
        ensures a == self@.wrapping_add(offset::REQUEST_FLAGS),
    { self.field_address(offset::REQUEST_FLAGS) }

    pub fn borrowed_frame_address_address(self) -> (a: u32)
        ensures a == self@.wrapping_add(offset::BORROWED_FRAME_ADDRESS),
    { self.field_address(offset::BORROWED_FRAME_ADDRESS) }

    pub fn completion_status_address(self) -> (a: u32)
        ensures a == self@.wrapping_add(offset::COMPLETION_STATUS),
    { self.field_address(offset::COMPLETION_STATUS) }

    pub fn saved_status_address(self) -> (a: u32)
        ensures a == self@.wrapping_add(offset::SAVED_STATUS),
    { self.field_address(offset::SAVED_STATUS) }

    pub fn completion_flags_address(self) -> (a: u32)
        ensures a == self@.wrapping_add(offset::COMPLETION_FLAGS),
    { self.field_address(offset::COMPLETION_FLAGS) }

    pub fn header_length_address(self) -> (a: u32)
        ensures a == self@.wrapping_add(offset::HEADER_LENGTH),
    { self.field_address(offset::HEADER_LENGTH) }

    pub fn payload_length_address(self) -> (a: u32)
        ensures a == self@.wrapping_add(offset::PAYLOAD_LENGTH),
    { self.field_address(offset::PAYLOAD_LENGTH) }

    pub fn optional_pipe_object_address(self) -> (a: u32)
        ensures a == self@.wrapping_add(offset::OPTIONAL_PIPE_OBJECT),
    { self.field_address(offset::OPTIONAL_PIPE_OBJECT) }

    pub fn sequence_or_callback_state_address(self) -> (a: u32)
        ensures a == self@.wrapping_add(offset::SEQUENCE_OR_CALLBACK_STATE),
    { self.field_address(offset::SEQUENCE_OR_CALLBACK_STATE) }

    pub fn submit_state_address(self) -> (a: u32)
        ensures a == self@.wrapping_add(offset::SUBMIT_STATE),
    { self.field_address(offset::SUBMIT_STATE) }

    pub fn completion_class_address(self) -> (a: u32)
        ensures a == self@.wrapping_add(offset::COMPLETION_CLASS),
    { self.field_address(offset::COMPLETION_CLASS) }

    pub fn frame_address_address(self) -> (a: u32)
        ensures a == self@.wrapping_add(offset::FRAME_ADDRESS),
    { self.field_address(offset::FRAME_ADDRESS) }

    pub fn control_bits_address(self) -> (a: u32)
        ensures a == self@.wrapping_add(offset::CONTROL_BITS),
    { self.field_address(offset::CONTROL_BITS) }

    pub fn frame_length_address(self) -> (a: u32)
        ensures a == self@.wrapping_add(offset::FRAME_LENGTH),
    { self.field_address(offset::FRAME_LENGTH) }

    pub fn frame_control_address(self) -> (a: u32)
        ensures a == self@.wrapping_add(offset::FRAME_CONTROL),
    { self.field_address(offset::FRAME_CONTROL) }

    pub fn access_category_address(self) -> (a: u32)
        ensures a == self@.wrapping_add(offset::ACCESS_CATEGORY),
    { self.field_address(offset::ACCESS_CATEGORY) }

    pub fn request_flag_rate_bits_address(self) -> (a: u32)
        ensures a == self@.wrapping_add(offset::REQUEST_FLAG_RATE_BITS),
    { self.field_address(offset::REQUEST_FLAG_RATE_BITS) }

    pub fn retry_policy_address(self) -> (a: u32)
        ensures a == self@.wrapping_add(offset::RETRY_POLICY),
    { self.field_address(offset::RETRY_POLICY) }

    pub fn tx_rate_address(self) -> (a: u32)
        ensures a == self@.wrapping_add(offset::TX_RATE),
    { self.field_address(offset::TX_RATE) }

    pub fn expiry_time_address(self) -> (a: u32)
        ensures a == self@.wrapping_add(offset::EXPIRY_TIME),
    { self.field_address(offset::EXPIRY_TIME) }

    pub fn completion_timestamp_address(self) -> (a: u32)
        ensures a == self@.wrapping_add(offset::COMPLETION_TIMESTAMP),
    { self.field_address(offset::COMPLETION_TIMESTAMP) }

    pub fn scheduler_timestamp_address(self) -> (a: u32)
        ensures a == self@.wrapping_add(offset::SCHEDULER_TIMESTAMP),
    { self.field_address(offset::SCHEDULER_TIMESTAMP) }

    pub fn terminal_status_address(self) -> (a: u32)
        ensures a == self@.wrapping_add(offset::TERMINAL_STATUS),
    { self.field_address(offset::TERMINAL_STATUS) }

    pub fn try_count_address(self) -> (a: u32)
        ensures a == self@.wrapping_add(offset::TRY_COUNT),
    { self.field_address(offset::TRY_COUNT) }

    pub fn ownership_bits_address(self) -> (a: u32)
        ensures a == self@.wrapping_add(offset::OWNERSHIP_BITS),
    { self.field_address(offset::OWNERSHIP_BITS) }

    pub fn timing_reset_32_address(self) -> (a: u32)
        ensures a == self@.wrapping_add(offset::TIMING_RESET_32),
    { self.field_address(offset::TIMING_RESET_32) }

    pub fn timing_reset_34_address(self) -> (a: u32)
        ensures a == self@.wrapping_add(offset::TIMING_RESET_34),
    { self.field_address(offset::TIMING_RESET_34) }

    pub fn duration_address(self) -> (a: u32)
        ensures a == self@.wrapping_add(offset::DURATION),
    { self.field_address(offset::DURATION) }

    pub fn payload_extended_address(self) -> (a: u32)
        ensures a == self@.wrapping_add(offset::PAYLOAD_EXTENDED),
    { self.field_address(offset::PAYLOAD_EXTENDED) }

    pub fn payload_base_address(self) -> (a: u32)
        ensures a == self@.wrapping_add(offset::PAYLOAD_BASE),
    { self.field_address(offset::PAYLOAD_BASE) }

    pub fn next_in_ampdu_address(self) -> (a: u32)
        ensures a == self@.wrapping_add(offset::NEXT_IN_AMPDU),
    { self.field_address(offset::NEXT_IN_AMPDU) }

    pub fn word_48_address(self) -> (a: u32)
        ensures a == self@.wrapping_add(offset::WORD_48),
    { self.field_address(offset::WORD_48) }

    pub fn frame_state_address_address(self) -> (a: u32)
        ensures a == self@.wrapping_add(offset::FRAME_STATE_ADDRESS),
    { self.field_address(offset::FRAME_STATE_ADDRESS) }

    pub fn auxiliary_state_address(self) -> (a: u32)
        ensures a == self@.wrapping_add(offset::AUXILIARY_STATE),
    { self.field_address(offset::AUXILIARY_STATE) }

    pub fn tid_address(self) -> (a: u32)
        ensures a == self@.wrapping_add(offset::TID),
    { self.field_address(offset::TID) }

    pub fn insertion_mode_address(self) -> (a: u32)
        ensures a == self@.wrapping_add(offset::INSERTION_MODE),
    { self.field_address(offset::INSERTION_MODE) }

    pub fn sequence_number_address(self) -> (a: u32)
        ensures a == self@.wrapping_add(offset::SEQUENCE_NUMBER),
    { self.field_address(offset::SEQUENCE_NUMBER) }

    pub fn retry_rate_address(self) -> (a: u32)
        ensures a == self@.wrapping_add(offset::RETRY_RATE),
    { self.field_address(offset::RETRY_RATE) }

    pub fn byte_57_address(self) -> (a: u32)
        ensures a == self@.wrapping_add(offset::BYTE_57),
    { self.field_address(offset::BYTE_57) }

    pub fn retry_random_address(self) -> (a: u32)
        ensures a == self@.wrapping_add(offset::RETRY_RANDOM),
    { self.field_address(offset::RETRY_RANDOM) }

    pub fn interface_address(self) -> (a: u32)
        ensures a == self@.wrapping_add(offset::INTERFACE),
    { self.field_address(offset::INTERFACE) }

    pub fn duration_slot_address(self) -> (a: u32)
        ensures a == self@.wrapping_add(offset::DURATION_SLOT),
    { self.field_address(offset::DURATION_SLOT) }

    pub fn host_link_address(self) -> (a: u32)
        ensures a == self@.wrapping_add(offset::HOST_LINK),
    { self.field_address(offset::HOST_LINK) }

    pub fn link_id_address(self) -> (a: u32)
        ensures a == self@.wrapping_add(offset::LINK_ID),
    { self.field_address(offset::LINK_ID) }

    pub fn qos_control_address(self) -> (a: u32)
        ensures a == self@.wrapping_add(offset::QOS_CONTROL),
    { self.field_address(offset::QOS_CONTROL) }

    pub fn cipher_class_address(self) -> (a: u32)
        ensures a == self@.wrapping_add(offset::CIPHER_CLASS),
    { self.field_address(offset::CIPHER_CLASS) }

    pub fn word_7c_address(self) -> (a: u32)
        ensures a == self@.wrapping_add(offset::WORD_7C),
    { self.field_address(offset::WORD_7C) }
}

impl FrameNodeAddress {
    /// Wraps an address without validating it.
    pub fn new(address: u32) -> (node: Self)
        ensures
            node@ == address,
    {
        Self(address)
    }

    /// Accepts only the exact frame node of a host or internal context.
    pub fn from_raw(address: u32) -> (node: Option<Self>)
        ensures
            node is Some <==> is_frame_node(address),
            node matches Some(n) ==> n@ == address,
    {
        if address < FRAME_NODE_OFFSET {
            return None;
        }
        let context = address - FRAME_NODE_OFFSET;
        match ContextAddress::from_raw(context) {
            Some(_) => Some(Self(address)),
            None => None,
        }
    }

    pub fn raw(self) -> (address: u32)
        ensures
            address == self@,
    {
        self.0
    }

    /// The context that embeds this frame node.
    pub fn context(self) -> (context: ContextAddress)
        ensures
            context@ == self@.wrapping_sub(FRAME_NODE_OFFSET),
    {
        ContextAddress(self.0.wrapping_sub(FRAME_NODE_OFFSET))
    }

    /// Address of the context field at `offset`, reached through the node.
    fn context_field(self, offset: u32) -> (address: u32)
        ensures
            address == self@.wrapping_sub(FRAME_NODE_OFFSET).wrapping_add(offset),
    {
        self.context().field_address(offset)
    }

    pub fn frame_address(self) -> (a: u32)
        ensures a == self@.wrapping_sub(FRAME_NODE_OFFSET).wrapping_add(offset::FRAME_ADDRESS),
    { self.context_field(offset::FRAME_ADDRESS) }

    pub fn control_bits(self) -> (a: u32)
        ensures a == self@.wrapping_sub(FRAME_NODE_OFFSET).wrapping_add(offset::CONTROL_BITS),
    { self.context_field(offset::CONTROL_BITS) }

    pub fn frame_length(self) -> (a: u32)
        ensures a == self@.wrapping_sub(FRAME_NODE_OFFSET).wrapping_add(offset::FRAME_LENGTH),
    { self.context_field(offset::FRAME_LENGTH) }

    pub fn frame_control(self) -> (a: u32)
        ensures a == self@.wrapping_sub(FRAME_NODE_OFFSET).wrapping_add(offset::FRAME_CONTROL),
    { self.context_field(offset::FRAME_CONTROL) }

    pub fn access_category(self) -> (a: u32)
        ensures a == self@.wrapping_sub(FRAME_NODE_OFFSET).wrapping_add(offset::ACCESS_CATEGORY),
    { self.context_field(offset::ACCESS_CATEGORY) }

    pub fn request_flag_rate_bits(self) -> (a: u32)
        ensures
            a == self@.wrapping_sub(FRAME_NODE_OFFSET).wrapping_add(
                offset::REQUEST_FLAG_RATE_BITS,
            ),
    { self.context_field(offset::REQUEST_FLAG_RATE_BITS) }

    pub fn tx_rate(self) -> (a: u32)
        ensures a == self@.wrapping_sub(FRAME_NODE_OFFSET).wrapping_add(offset::TX_RATE),
    { self.context_field(offset::TX_RATE) }

    pub fn scheduler_timestamp(self) -> (a: u32)
        ensures
            a == self@.wrapping_sub(FRAME_NODE_OFFSET).wrapping_add(offset::SCHEDULER_TIMESTAMP),
    { self.context_field(offset::SCHEDULER_TIMESTAMP) }

    pub fn ownership_bits(self) -> (a: u32)
        ensures a == self@.wrapping_sub(FRAME_NODE_OFFSET).wrapping_add(offset::OWNERSHIP_BITS),
    { self.context_field(offset::OWNERSHIP_BITS) }

    pub fn timing_reset_32(self) -> (a: u32)
        ensures a == self@.wrapping_sub(FRAME_NODE_OFFSET).wrapping_add(offset::TIMING_RESET_32),
    { self.context_field(offset::TIMING_RESET_32) }

    pub fn timing_reset_34(self) -> (a: u32)
        ensures a == self@.wrapping_sub(FRAME_NODE_OFFSET).wrapping_add(offset::TIMING_RESET_34),
    { self.context_field(offset::TIMING_RESET_34) }

    pub fn duration(self) -> (a: u32)
        ensures a == self@.wrapping_sub(FRAME_NODE_OFFSET).wrapping_add(offset::DURATION),
    { self.context_field(offset::DURATION) }

    pub fn payload_extended(self) -> (a: u32)
        ensures a == self@.wrapping_sub(FRAME_NODE_OFFSET).wrapping_add(offset::PAYLOAD_EXTENDED),
    { self.context_field(offset::PAYLOAD_EXTENDED) }

    pub fn payload_base(self) -> (a: u32)
        ensures a == self@.wrapping_sub(FRAME_NODE_OFFSET).wrapping_add(offset::PAYLOAD_BASE),
    { self.context_field(offset::PAYLOAD_BASE) }

    pub fn next_in_ampdu(self) -> (a: u32)
        ensures a == self@.wrapping_sub(FRAME_NODE_OFFSET).wrapping_add(offset::NEXT_IN_AMPDU),
    { self.context_field(offset::NEXT_IN_AMPDU) }

    /// Total airtime word (frame-node offset 0x48).
    pub fn total_airtime(self) -> (a: u32)
        ensures a == self@.wrapping_sub(FRAME_NODE_OFFSET).wrapping_add(offset::WORD_48),
    { self.context_field(offset::WORD_48) }

    pub fn auxiliary_state(self) -> (a: u32)
        ensures a == self@.wrapping_sub(FRAME_NODE_OFFSET).wrapping_add(offset::AUXILIARY_STATE),
    { self.context_field(offset::AUXILIARY_STATE) }

    /// Frame kind byte (frame-node offset 0x56, the context retry-rate field).
    pub fn frame_kind(self) -> (a: u32)
        ensures a == self@.wrapping_sub(FRAME_NODE_OFFSET).wrapping_add(offset::RETRY_RATE),
    { self.context_field(offset::RETRY_RATE) }

    pub fn retry_random(self) -> (a: u32)
        ensures a == self@.wrapping_sub(FRAME_NODE_OFFSET).wrapping_add(offset::RETRY_RANDOM),
    { self.context_field(offset::RETRY_RANDOM) }

    pub fn interface(self) -> (a: u32)
        ensures a == self@.wrapping_sub(FRAME_NODE_OFFSET).wrapping_add(offset::INTERFACE),
    { self.context_field(offset::INTERFACE) }

    pub fn duration_slot(self) -> (a: u32)
        ensures a == self@.wrapping_sub(FRAME_NODE_OFFSET).wrapping_add(offset::DURATION_SLOT),
    { self.context_field(offset::DURATION_SLOT) }
}

/// A frame node and its context determine each other.
pub proof fn lemma_frame_node_round_trip(context: ContextAddress)
    requires
        is_context(context@),
    ensures
        is_frame_node(context@.wrapping_add(FRAME_NODE_OFFSET)),
        context@.wrapping_add(FRAME_NODE_OFFSET).wrapping_sub(FRAME_NODE_OFFSET) == context@,
{
}

/// Address of a host (WSM) context.
#[derive(Clone, Copy, Debug, PartialEq, Eq, Structural)]
pub struct HostContextAddress(pub u32);

impl View for HostContextAddress {
    type V = u32;

    open spec fn view(&self) -> u32 {
        self.0
    }
}

/// Address of the `index`-th host context.
pub open spec fn host_context_at(index: int) -> int {
    HOST_TX_CONTEXTS + index * TX_CONTEXT_SIZE
}

/// Position in the host pool of the host context at `address`.
pub open spec fn host_context_index(address: u32) -> int {
    (address - HOST_TX_CONTEXTS) / (TX_CONTEXT_SIZE as int)
}

impl HostContextAddress {
    /// The `index`-th host context.
    pub fn from_index(index: u32) -> (context: Option<Self>)
        ensures
            context is Some <==> index < HOST_TX_CONTEXT_COUNT,
            context matches Some(c) ==> c@ == host_context_at(index as int),
    {
        if index < HOST_TX_CONTEXT_COUNT {
            Some(Self(HOST_TX_CONTEXTS + index * TX_CONTEXT_SIZE))
        } else {
            None
        }
    }

    /// Accepts only the first byte of a host context.
    pub fn from_raw(address: u32) -> (context: Option<Self>)
        ensures
            context is Some <==> is_host_context(address),
            context matches Some(c) ==> c@ == address,
    {
        if host_context_valid(address) {
            Some(Self(address))
        } else {
            None
        }
    }

    pub fn raw(self) -> (address: u32)
        ensures
            address == self@,
    {
        self.0
    }

    /// Position of this context in the host pool.
    pub fn index(self) -> (index: u32)
        requires
            is_host_context(self@),
        ensures
            index == host_context_index(self@),
            index < HOST_TX_CONTEXT_COUNT,
            self@ == host_context_at(index as int),
    {
        (self.0 - HOST_TX_CONTEXTS) / TX_CONTEXT_SIZE
    }

    /// The packet-RAM frame state that belongs to this context.
    pub fn expected_frame_state(self) -> (address: u32)
        requires
            is_host_context(self@),
        ensures
            address == host_frame_state_of(host_context_index(self@)),
    {
        let index = self.index();
        crate::packet_ram::host_frame_state(index)
    }

    /// Address of the field at `offset` inside this context.
    pub fn field(self, offset: u32) -> (address: u32)
        ensures
            address == self@.wrapping_add(offset),
    {
        self.0.wrapping_add(offset)
    }
}

/// What a publication records of a slot before GO: the context, its frame
/// node and the slot's command descriptor.
#[derive(Clone, Copy, Debug, PartialEq, Eq, Structural)]
pub struct PublishedSlotIdentity {
    pub context: ContextAddress,
    pub frame_node: FrameNodeAddress,
    pub command: u32,
    pub pipe: u8,
    pub slot: u8,
}

impl PublishedSlotIdentity {
    /// The identity of `context` published in `slot` of `pipe`; `None` for
    /// a pipe or slot out of range or an address that is not a context.
    pub fn new(context: ContextAddress, pipe: u8, slot: u8) -> (identity: Option<Self>)
        ensures
            identity is Some <==> (pipe < 4 && slot < 4 && is_context(context@)),
            identity matches Some(i) ==> i == (PublishedSlotIdentity {
                context,
                frame_node: FrameNodeAddress(context@.wrapping_add(FRAME_NODE_OFFSET)),
                command: tx_command_of(pipe as int, slot as int),
                pipe,
                slot,
            }),
    {
        if pipe >= 4 || slot >= 4 {
            return None;
        }
        match ContextAddress::from_raw(context.raw()) {
            Some(checked) => {
                if checked.raw() != context.raw() {
                    return None;
                }
            },
            None => {
                return None;
            },
        }
        Some(PublishedSlotIdentity {
            context,
            frame_node: context.frame_node(),
            command: tx_command(pipe, slot),
            pipe,
            slot,
        })
    }
}

} // verus!
