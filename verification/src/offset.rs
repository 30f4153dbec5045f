//! Field offsets inside a TX context record (host and internal pools share
//! one layout).

use vstd::prelude::*;

verus! {

pub const REQUEST_BUFFER: u32 = 0x00;
pub const INTRUSIVE_NEXT: u32 = 0x04;
pub const PACKET_ID: u32 = 0x08;
pub const REQUESTED_RATE: u32 = 0x0c;
pub const QUEUE_ID: u32 = 0x0d;
pub const MORE: u32 = 0x0e;
pub const REQUEST_FLAGS: u32 = 0x0f;
pub const REQUEST_EXPIRY_TIME: u32 = 0x10;
pub const HT_TX_PARAMETERS: u32 = 0x14;
pub const BORROWED_FRAME_ADDRESS: u32 = 0x18;
pub const BORROWED_FRAME_LENGTH: u32 = 0x1c;
pub const COMPLETION_STATUS: u32 = 0x20;
pub const RATE_COPY: u32 = 0x24;
pub const SAVED_STATUS: u32 = 0x25;
pub const COMPLETION_FLAGS: u32 = 0x26;
pub const RATE_TRY: u32 = 0x28;
pub const SUBMIT_TIMER: u32 = 0x34;
pub const TIMING_SCRATCH: u32 = 0x38;
pub const HEADER_LENGTH: u32 = 0x44;
pub const PAYLOAD_LENGTH: u32 = 0x48;
pub const OPTIONAL_PIPE_OBJECT: u32 = 0x4c;
pub const SEQUENCE_OR_CALLBACK_STATE: u32 = 0x50;
pub const SUBMIT_STATE: u32 = 0x52;
pub const COMPLETION_CLASS: u32 = 0x53;
pub const FRAME_ADDRESS: u32 = 0x54;
pub const CONTROL_BITS: u32 = 0x58;
pub const FRAME_LENGTH: u32 = 0x5c;
pub const FRAME_CONTROL: u32 = 0x5e;
pub const ACCESS_CATEGORY: u32 = 0x60;
pub const REQUEST_FLAG_RATE_BITS: u32 = 0x61;
pub const RETRY_POLICY: u32 = 0x62;
pub const TX_RATE: u32 = 0x63;
pub const EXPIRY_TIME: u32 = 0x64;
pub const COMPLETION_TIMESTAMP: u32 = 0x68;
pub const SCHEDULER_TIMESTAMP: u32 = 0x6c;
pub const TERMINAL_STATUS: u32 = 0x70;
pub const TRY_COUNT: u32 = 0x72;
pub const PAS_RESET_WORD: u32 = 0x74;
pub const OWNERSHIP_BITS: u32 = 0x80;
pub const TIMING_RESET_32: u32 = 0x86;
pub const TIMING_RESET_34: u32 = 0x88;
pub const DURATION: u32 = 0x8a;
pub const PAYLOAD_EXTENDED: u32 = 0x8c;
pub const PAYLOAD_BASE: u32 = 0x8e;
pub const NEXT_IN_AMPDU: u32 = 0x94;
pub const AUXILIARY_STATE: u32 = 0x98;
pub const WORD_48: u32 = 0x9c;
pub const FRAME_STATE_ADDRESS: u32 = 0xa0;
pub const INSERTION_MODE: u32 = 0xa7;
pub const TID: u32 = 0xa8;
pub const RETRY_RATE: u32 = 0xaa;
pub const BYTE_57: u32 = 0xab;
pub const RETRY_RANDOM: u32 = 0xae;
pub const SEQUENCE_NUMBER: u32 = 0xb0;
pub const DURATION_SLOT: u32 = 0xbc;
pub const INTERFACE: u32 = 0xbd;
pub const HOST_LINK: u32 = 0xbf;
pub const LINK_ID: u32 = 0xc0;
pub const QOS_CONTROL: u32 = 0xc8;
pub const CIPHER_CLASS: u32 = 0xca;
pub const WORD_7C: u32 = 0xd0;

} // verus!
