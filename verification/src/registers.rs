//! MAC registers and the DTCM records shared with the MAC pipes.
//!
//! Each of the four MAC pipes owns one 0x6c-byte record: a header of
//! cursors and flags followed by four 0x18-byte slot records. Every pipe
//! also has a hardware ring in the MAC register window.

use vstd::prelude::*;

verus! {

/// Scheduler pending-event word of the MAC pipes.
pub const PIPE_IRQ_PENDING: u32 = 0x09c0_0e84;

/// Pipe trigger register.
pub const PIPE_IRQ_TRIGGER: u32 = 0x09c0_0e98;

/// Readiness register of the MAC event FIFO (negative when empty).
pub const MAC_EVENT_READINESS: u32 = 0x09c0_0a24;

/// Beacon timer block.
pub const MAC_BEACON_TIMER: u32 = 0x09c0_0e00;

/// Hardware ring of pipe 0; the rings of pipes 1..3 follow at `TX_RING_STRIDE`.
pub const TX_RING_BASE: u32 = 0x09c0_0c00;

pub const TX_RING_STRIDE: u32 = 0x40;

/// Duration quantum written by middle-nibble pipe service.
pub const PIPE_QUANTUM: u32 = 0x0000_0fff;

/// Status counter incremented when a slot advances without completion.
pub const PIPE_STATUS_COUNTER: u32 = 0xfff0_1aa4;

/// Command sentinel that marks a hardware ring inactive.
pub const PIPE_RETRY_INACTIVE_SENTINEL: u32 = 0xff00_ffff;

/// Lane of the slot-advance acknowledgement (`-((0x1110 << pipe) + 0x10)`).
pub const PIPE_ADVANCE_ACK_BASE: u32 = 0x0000_1110;

/// Extra acknowledgement bits of the hardware-sentinel re-arm branch.
pub const PIPE_RETRY_SPECIAL_ACK: u32 = 0x0000_f010;

/// Random-backoff statistics: maximum word followed by eight buckets.
pub const PIPE_RETRY_RANDOM_STATS: u32 = 0xfff0_2e7c;

/// Interrupt-controller source of the MAC FIQ.
pub const MAC_FIQ_SOURCE: u32 = 0x16;

/// First pipe record.
pub const MAC_PIPE_RECORDS: u32 = 0x0400_1720;

/// Size of one pipe record.
pub const MAC_PIPE_RECORD_SIZE: u32 = 0x6c;

/// Offset of the first slot record inside a pipe record.
pub const MAC_PIPE_SLOTS_OFFSET: u32 = 0x0c;

/// Size of one slot record.
pub const MAC_PIPE_SLOT_SIZE: u32 = 0x18;

/// MAC sequencer state; bits 12:8 equal 0x12 while a transmission is on air.
pub const MAC_SEQUENCER_STATE: u32 = 0x09c0_0a28;

/// MAC frame queue occupancy; bits 11:4 count frames still queued.
pub const MAC_QUEUED_FRAMES: u32 = 0x09c0_0e90;

/// MAC status occupancy; bits 28:24 count statuses not yet delivered.
pub const MAC_PENDING_STATUSES: u32 = 0x09c0_0ea0;

/// Sideband capture register of the MAC.
pub const MAC_SIDEBAND_SOURCE: u32 = 0x0ab8_0c50;

/// Count of sideband captures, kept in the statistics alias.
pub const MAC_SIDEBAND_COUNTER: u32 = 0xfff0_1a9c;

/// Last sideband capture.
pub const MAC_SIDEBAND_CAPTURE: u32 = 0x0400_1fc8;

/// Radio timer state byte; 2 while the timer is armed, 4 once it fired.
pub const RADIO_TIMER_STATE: u32 = 0x0400_1fc4;

/// Count of TX statuses 6 to 0x18, kept in the statistics alias.
pub const MAC_TX_STATUS_RANGE_COUNTER: u32 = 0xfff0_1aac;

/// Count of TX statuses 3 and 4, kept in the statistics alias.
pub const MAC_TX_STATUS_TOTAL_COUNTER: u32 = 0xfff0_1aa0;

/// Claim cursor of the receive FIFO.
pub const RX_FIFO_CLAIM_CURSOR: u32 = 0x0400_1fd0;

/// PHY completion status, sampled from the receive FIFO on status 0x0e.
pub const MAC_PHY_COMPLETION_STATUS: u32 = 0x0400_1fcc;

/// Nonzero while the MAC is kept awake for beacon reception.
pub const MAC_WAKE_CONTROL: u32 = 0x0400_1fd8;

/// Software copy of the beacon control register.
pub const MAC_BEACON_CONTROL: u32 = 0x0400_1fdc;

/// Beacon control register of the MAC.
pub const MAC_BEACON_CONTROL_REGISTER: u32 = 0x09c0_0a00;

/// Pipe latched by the last pipe event (byte).
pub const MAC_CURRENT_PIPE: u32 = 0x0400_1f80;

/// Record of the pipe being serviced.
pub const MAC_CURRENT_PIPE_RECORD: u32 = 0x0400_1f84;

/// Slot record being serviced.
pub const MAC_CURRENT_SLOT: u32 = 0x0400_1f88;

/// Global busy byte set while a retry owns a pipe.
pub const LOW_MAC_PIPE_BUSY: u32 = 0x0400_1f8c;

/// Initial slot-time word used by retry durations.
pub const LOW_MAC_SLOT_TIME_INITIAL: u32 = 0x0400_1f90;

/// Slot-time base word used by retry durations.
pub const LOW_MAC_SLOT_TIME_BASE: u32 = 0x0400_1f94;

/// Hardware retry state byte; bit 1 selects the sentinel re-arm branch.
pub const MAC_RETRY_HARDWARE_STATE: u32 = 0x0400_1f98;

/// Number of frames handed to the MAC and not yet completed (one byte).
pub const LOW_MAC_ACTIVE_TX_COUNT: u32 = 0x0400_1f9c;

/// Count of TX statuses handled, sampled by the status accounting.
pub const MAC_STATUS_ACCOUNTING: u32 = 0x0400_1fb0;

/// Access category of each MAC queue, one byte per pipe.
pub const QUEUE_TO_ACCESS_CATEGORY: u32 = 0x0400_1fb4;

/// Beacon control state word.
pub const MAC_BEACON_CONTROL_STATE: u32 = 0x0400_1fa0;

/// Optional per-peer pipe object configuration (halfword).
pub const LOW_MAC_OPTIONAL_PIPE_OBJECT_WORD: u32 = 0x0400_1fa4;

/// Low-MAC controller configuration (halfword).
pub const LOW_MAC_CONTROLLER_CONFIG: u32 = 0x0400_1fa8;

/// Beacon secondary command word.
pub const MAC_BEACON_SECONDARY_COMMAND: u32 = 0x0400_1fac;

/// Scheduler pending-event bits of the cooperative task scheduler.
pub const SCHEDULER_PENDING_EVENTS: u32 = 0x0400_1fd4;

/// Retry random-number generator state.
pub const RETRY_RANDOM_LFSR: u32 = 0x0400_1fe0;

/// Head link of the scheduler timer list.
pub const SCHEDULER_TIMER_LIST_HEAD: u32 = 0x0400_2014;

/// Per-pipe pointers to the duration quantum register.
pub const DURATION_QUANTUM_POINTERS: u32 = 0x0400_10d4;

/// Per-interface contention-window masks (four halfwords per interface).
pub const PAS_CONTENTION_WINDOWS: u32 = 0x0400_2100;

pub const PAS_STRIDE: u32 = 0x40;

/// Retry-rate to timing-index table (bytes).
pub const MAC_RETRY_RATES: u32 = 0x0400_2200;

/// Duration timing table (halfwords).
pub const TX_DURATION_TIMINGS: u32 = 0x0400_2300;

/// Record of pipe `pipe`.
pub open spec fn pipe_record_of(pipe: int) -> u32 {
    (MAC_PIPE_RECORDS + pipe * MAC_PIPE_RECORD_SIZE) as u32
}

/// Slot record `slot` of pipe `pipe`.
pub open spec fn slot_record_of(pipe: int, slot: int) -> u32 {
    (pipe_record_of(pipe) + MAC_PIPE_SLOTS_OFFSET + slot * MAC_PIPE_SLOT_SIZE) as u32
}

/// Hardware ring of pipe `pipe`.
pub open spec fn tx_ring_of(pipe: int) -> u32 {
    (TX_RING_BASE + pipe * TX_RING_STRIDE) as u32
}

// Pipe record fields.
pub const PIPE_PRODUCER: u32 = 0;
pub const PIPE_LAST: u32 = 1;
pub const PIPE_CURRENT: u32 = 2;
pub const PIPE_STATE: u32 = 3;
pub const PIPE_CONTROL: u32 = 4;
pub const PIPE_WATCHDOG: u32 = 5;
pub const PIPE_ABORT_STATUS: u32 = 6;
pub const PIPE_HARDWARE_RING: u32 = 8;

// Slot record fields.
pub const SLOT_KIND: u32 = 0;
pub const SLOT_EXPECTED_STATUS: u32 = 1;
pub const SLOT_STATE: u32 = 3;
pub const SLOT_DURATION: u32 = 8;
pub const SLOT_FRAME: u32 = 0x0c;
pub const SLOT_AUXILIARY: u32 = 0x10;
pub const SLOT_COMMAND: u32 = 0x14;

// Hardware ring fields.
pub const RING_DURATION_FIFO: u32 = 0x00;
pub const RING_GO: u32 = 0x14;
pub const RING_INACTIVE_SENTINEL: u32 = 0x18;
pub const RING_COMPLETION_WORD: u32 = 0x1c;
pub const RING_CURSOR_AND_PENDING_MASK: u32 = 0x20;

/// Bit facts about a byte that the pipe executors rely on: its two low bits
/// select one of four pipes and leave a pipe number below four unchanged;
/// masking, setting bit 0 and testing bit 0 commute with widening to a word;
/// and a pipe number's trigger bit fits below bit 28.
pub proof fn lemma_pipe_bits(x: u8)
    by (bit_vector)
    ensures
        x & 3 < 4,
        x < 4 ==> x & 3 == x,
        ((x & 0x0f) as u32) == (x as u32) & 0x0f,
        ((x | 1) as u32) == (x as u32) | 1,
        ((x & 0xf6) as u32) == (x as u32) & 0xf6,
        (x & 1 != 0) == ((x as u32) & 1 != 0),
        ((x as u32) & 3) as u8 == x & 3,
        x < 4 ==> (1u32 << x) << 25u32 <= 0x1000_0000,
{
}

/// Record of pipe `pipe & 3`.
pub fn pipe_record_address(pipe: u8) -> (record: u32)
    ensures
        record == pipe_record_of((pipe & 3) as int),
{
    let index = (pipe & 3) as u32;
    proof {
        lemma_pipe_bits(pipe);
    }
    MAC_PIPE_RECORDS + index * MAC_PIPE_RECORD_SIZE
}

/// Same as `pipe_record_address`, under the name used by diagnostics.
pub fn pipe_state_address(pipe: u8) -> (record: u32)
    ensures
        record == pipe_record_of((pipe & 3) as int),
{
    pipe_record_address(pipe)
}

/// Slot record `slot` of pipe `pipe` (no bounds check on `slot`).
pub fn slot_record_address(pipe: u8, slot: u8) -> (record: u32)
    requires
        pipe < 4,
    ensures
        record == slot_record_of(pipe as int, slot as int),
{
    MAC_PIPE_RECORDS + pipe as u32 * MAC_PIPE_RECORD_SIZE + MAC_PIPE_SLOTS_OFFSET + slot as u32
        * MAC_PIPE_SLOT_SIZE
}

/// Hardware ring of pipe `pipe`.
pub fn tx_ring_register(pipe: u8) -> (ring: u32)
    requires
        pipe < 4,
    ensures
        ring == tx_ring_of(pipe as int),
{
    TX_RING_BASE + pipe as u32 * TX_RING_STRIDE
}

/// Pointer to the duration quantum register of pipe `pipe`.
pub open spec fn duration_quantum_pointer_of(pipe: int) -> u32 {
    (DURATION_QUANTUM_POINTERS + pipe * 4) as u32
}

pub fn duration_quantum_pointer(pipe: u8) -> (address: u32)
    requires
        pipe < 4,
    ensures
        address == duration_quantum_pointer_of(pipe as int),
{
    DURATION_QUANTUM_POINTERS + pipe as u32 * 4
}

/// The hardware ring of one pipe, checked against that pipe's exact ring.
#[derive(Clone, Copy, Debug, PartialEq, Eq, Structural)]
pub struct TxHardwareRingAddress {
    pub address: u32,
}

impl TxHardwareRingAddress {
    pub fn new(address: u32) -> (ring: Self)
        ensures
            ring.address == address,
    {
        TxHardwareRingAddress { address }
    }

    /// Accepts `address` only when it is exactly the ring of `pipe`.
    pub fn for_pipe(pipe: u8, address: u32) -> (ring: Option<Self>)
        ensures
            ring is Some <==> (pipe < 4 && address == tx_ring_of(pipe as int)),
            ring matches Some(r) ==> r.address == address,
    {
        if pipe < 4 && address == tx_ring_register(pipe) {
            Some(TxHardwareRingAddress { address })
        } else {
            None
        }
    }

    pub fn raw(self) -> (address: u32)
        ensures
            address == self.address,
    {
        self.address
    }

    pub fn field(self, offset: u32) -> (address: u32)
        ensures
            address == self.address.wrapping_add(offset),
    {
        self.address.wrapping_add(offset)
    }

    pub fn duration_fifo(self) -> (address: u32)
        ensures
            address == self.address.wrapping_add(RING_DURATION_FIFO),
    {
        self.field(RING_DURATION_FIFO)
    }

    pub fn diagnostic_word_0c(self) -> (address: u32)
        ensures
            address == self.address.wrapping_add(0x0c),
    {
        self.field(0x0c)
    }

    pub fn diagnostic_word_10(self) -> (address: u32)
        ensures
            address == self.address.wrapping_add(0x10),
    {
        self.field(0x10)
    }

    pub fn go(self) -> (address: u32)
        ensures
            address == self.address.wrapping_add(RING_GO),
    {
        self.field(RING_GO)
    }

    pub fn inactive_sentinel(self) -> (address: u32)
        ensures
            address == self.address.wrapping_add(RING_INACTIVE_SENTINEL),
    {
        self.field(RING_INACTIVE_SENTINEL)
    }

    pub fn completion_word(self) -> (address: u32)
        ensures
            address == self.address.wrapping_add(RING_COMPLETION_WORD),
    {
        self.field(RING_COMPLETION_WORD)
    }

    pub fn cursor_and_pending_mask(self) -> (address: u32)
        ensures
            address == self.address.wrapping_add(RING_CURSOR_AND_PENDING_MASK),
    {
        self.field(RING_CURSOR_AND_PENDING_MASK)
    }
}

/// A pipe's hardware ring registers, 0x24 bytes: the duration FIFO, four
/// diagnostic words, GO, the inactive sentinel, the completion word and the
/// cursor and pending-mask word.
pub struct TxHardwareRingLayout {
    pub duration_fifo: u32,
    pub opaque_04: [u8; 0x10],
    pub go: u32,
    pub inactive_sentinel: u32,
    pub completion_word: u32,
    pub cursor_and_pending_mask: u32,
}

/// A pipe-command descriptor's three words, 12 bytes.
pub struct TxDescriptorLayout {
    pub command: u32,
    pub flags: u32,
    pub duration: u32,
}

/// A pipe-command descriptor: command, flags and duration words.
#[derive(Clone, Copy, Debug, PartialEq, Eq, Structural)]
pub struct TxDescriptorAddress {
    pub address: u32,
}

impl TxDescriptorAddress {
    pub fn new(address: u32) -> (descriptor: Self)
        ensures
            descriptor.address == address,
    {
        TxDescriptorAddress { address }
    }

    pub fn raw(self) -> (address: u32)
        ensures
            address == self.address,
    {
        self.address
    }

    pub fn command(self) -> (address: u32)
        ensures
            address == self.address,
    {
        self.address
    }

    pub fn flags(self) -> (address: u32)
        ensures
            address == self.address.wrapping_add(4),
    {
        self.address.wrapping_add(4)
    }

    pub fn duration(self) -> (address: u32)
        ensures
            address == self.address.wrapping_add(8),
    {
        self.address.wrapping_add(8)
    }
}

} // verus!
