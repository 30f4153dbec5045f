//! Ordinary host (WSM) TX: the phases a host frame passes through, the header
//! classification that precedes encryption, and the pure decisions of the
//! pending-list task and the non-aggregate scheduler.

use vstd::prelude::*;

use crate::context::HostContextAddress;
use crate::phy::ProbeBuildError;

verus! {

/// Capacity of the global PAS ring.
pub const PAS_RING_CAPACITY: usize = 64;

#[derive(Clone, Copy, Debug, PartialEq, Eq, Structural)]
pub enum HostPoolError {
    Empty,
    CorruptFreeHead,
    CorruptFrameState,
}

/// Ownership phase of one host frame.
#[derive(Clone, Copy, Debug, PartialEq, Eq, Structural)]
pub enum HostTxPhase {
    Submitted,
    Classified,
    PostCryptoQueued,
    PendingEligible,
    PasQueued,
    SchedulerReserved,
    Scheduled,
    Completing,
}

/// The phase graph: a frame is classified, queued after encryption, released
/// from the pending list, queued for PAS, reserved and scheduled on a pipe,
/// and completes from the pending list or from a pipe. A reserved or
/// scheduled frame may go back to the PAS queue.
pub open spec fn phase_step(current: HostTxPhase, next: HostTxPhase) -> bool {
    match (current, next) {
        (HostTxPhase::Submitted, HostTxPhase::Classified) => true,
        (HostTxPhase::Classified, HostTxPhase::PostCryptoQueued) => true,
        (HostTxPhase::PostCryptoQueued, HostTxPhase::PendingEligible) => true,
        (HostTxPhase::PendingEligible, HostTxPhase::PasQueued) => true,
        (HostTxPhase::PendingEligible, HostTxPhase::Completing) => true,
        (HostTxPhase::PasQueued, HostTxPhase::SchedulerReserved) => true,
        (HostTxPhase::SchedulerReserved, HostTxPhase::PasQueued) => true,
        (HostTxPhase::SchedulerReserved, HostTxPhase::Scheduled) => true,
        (HostTxPhase::Scheduled, HostTxPhase::PasQueued) => true,
        (HostTxPhase::Scheduled, HostTxPhase::Completing) => true,
        _ => false,
    }
}

pub fn valid_phase_transition(current: HostTxPhase, next: HostTxPhase) -> (valid: bool)
    ensures
        valid == phase_step(current, next),
{
    match (current, next) {
        (HostTxPhase::Submitted, HostTxPhase::Classified) => true,
        (HostTxPhase::Classified, HostTxPhase::PostCryptoQueued) => true,
        (HostTxPhase::PostCryptoQueued, HostTxPhase::PendingEligible) => true,
        (HostTxPhase::PendingEligible, HostTxPhase::PasQueued) => true,
        (HostTxPhase::PendingEligible, HostTxPhase::Completing) => true,
        (HostTxPhase::PasQueued, HostTxPhase::SchedulerReserved) => true,
        (HostTxPhase::SchedulerReserved, HostTxPhase::PasQueued) => true,
        (HostTxPhase::SchedulerReserved, HostTxPhase::Scheduled) => true,
        (HostTxPhase::Scheduled, HostTxPhase::PasQueued) => true,
        (HostTxPhase::Scheduled, HostTxPhase::Completing) => true,
        _ => false,
    }
}

/// Whether a frame in this phase is owned by the pipe hardware or its
/// reservation.
pub open spec fn hardware_owned(phase: HostTxPhase) -> bool {
    phase == HostTxPhase::SchedulerReserved || phase == HostTxPhase::Scheduled
}

/// No phase leads back to `Submitted`, nothing leaves `Completing`, and the
/// pipe is reached only through the PAS queue: a frame enters the reserved
/// phase only from `PasQueued`, and the scheduled phase only from a
/// reservation.
pub proof fn lemma_phase_graph_ordering(current: HostTxPhase, next: HostTxPhase)
    requires
        phase_step(current, next),
    ensures
        next != HostTxPhase::Submitted,
        current != HostTxPhase::Completing,
        next == HostTxPhase::SchedulerReserved ==> current == HostTxPhase::PasQueued,
        next == HostTxPhase::Scheduled ==> current == HostTxPhase::SchedulerReserved,
        hardware_owned(next) && !hardware_owned(current) ==> current == HostTxPhase::PasQueued,
        next == HostTxPhase::Completing ==> current == HostTxPhase::PendingEligible || current
            == HostTxPhase::Scheduled,
{
}

/// One host frame with its context and packet identity, and its phase.
#[derive(Debug)]
pub struct RetainedHostTx {
    context: HostContextAddress,
    packet_id: u32,
    phase: HostTxPhase,
}

impl RetainedHostTx {
    /// A host frame just admitted into its context.
    pub fn new(context: HostContextAddress, packet_id: u32) -> (retained: Self)
        ensures
            retained.spec_context() == context,
            retained.spec_packet_id() == packet_id,
            retained.spec_phase() == HostTxPhase::Submitted,
    {
        Self { context, packet_id, phase: HostTxPhase::Submitted }
    }

    pub closed spec fn spec_context(&self) -> HostContextAddress {
        self.context
    }

    pub closed spec fn spec_packet_id(&self) -> u32 {
        self.packet_id
    }

    pub closed spec fn spec_phase(&self) -> HostTxPhase {
        self.phase
    }

    pub fn context(&self) -> (context: HostContextAddress)
        ensures
            context == self.spec_context(),
    {
        self.context
    }

    pub fn packet_id(&self) -> (packet_id: u32)
        ensures
            packet_id == self.spec_packet_id(),
    {
        self.packet_id
    }

    pub fn phase(&self) -> (phase: HostTxPhase)
        ensures
            phase == self.spec_phase(),
    {
        self.phase
    }

    /// Moves to `next` when the phase graph has that edge; otherwise the
    /// frame keeps its phase. Context and packet identity never change.
    pub fn transition(&mut self, next: HostTxPhase) -> (moved: bool)
        ensures
            moved == phase_step(old(self).spec_phase(), next),
            final(self).spec_phase() == if moved {
                next
            } else {
                old(self).spec_phase()
            },
            final(self).spec_context() == old(self).spec_context(),
            final(self).spec_packet_id() == old(self).spec_packet_id(),
    {
        if !valid_phase_transition(self.phase, next) {
            return false;
        }
        self.phase = next;
        true
    }
}

/// Fields of a WSM TX request that admission copies into a host context.
#[derive(Clone, Copy, Debug, PartialEq, Eq, Structural)]
pub struct HostTxMetadata {
    pub message_address: u32,
    pub packet_id: u32,
    pub max_tx_rate: u8,
    pub queue_id: u8,
    pub more: bool,
    pub flags: u8,
    pub expire_time: u32,
    pub ht_tx_parameters: u32,
    pub frame_address: u32,
    pub frame_length: u16,
    pub interface: u8,
    pub submit_timer: u32,
    pub ac: u8,
    pub frame_state_address: u32,
}

#[derive(Clone, Copy, Debug, PartialEq, Eq, Structural)]
pub enum HeaderClassificationError {
    Truncated,
    InvalidLength,
}

/// Why preparing a host frame for PAS failed. The encryption engine reports
/// no detail beyond its failure.
#[derive(Clone, Copy, Debug, PartialEq, Eq, Structural)]
pub enum HostPrepareError {
    WrongPhase,
    Header(HeaderClassificationError),
    Crypto,
    Timing(ProbeBuildError),
}

#[derive(Clone, Copy, Debug, PartialEq, Eq, Structural)]
pub enum PostCryptoError {
    WrongPhase,
    ExistingStatus(u16),
    OptionalPipeObjectRequired,
    Descriptor(ProbeBuildError),
}

#[derive(Clone, Copy, Debug, PartialEq, Eq, Structural)]
pub enum CancelError {
    HardwareOwned,
    MissingFromPendingList,
    MissingFromPasRing,
}

/// What the header classifier derives from an 802.11 header.
#[derive(Clone, Copy, Debug, PartialEq, Eq, Structural)]
pub struct HeaderClassification {
    pub frame_control: u16,
    pub header_length: u16,
    pub payload_length: u16,
    pub qos_control: u16,
    pub tid: u8,
    pub flags: u32,
    pub assign_sequence: bool,
}

/// Little-endian halfword at `at`.
pub open spec fn le16(bytes: Seq<u8>, at: int) -> u16 {
    (bytes[at] as u16) | ((bytes[at + 1] as u16) << 8u16)
}

/// Control flags of a QoS data frame with QoS control `qos_control`, built
/// on `base_flags`: the QoS marker, the unicast ACK request and sequence
/// assignment, the ACK policy in bits 20..22, and the no-ACK marker for the
/// no-ACK and block-ACK policies.
pub open spec fn qos_flags(base_flags: u32, group: bool, frame_control: u16, qos_control: u16) -> u32 {
    let marked = base_flags | 0x0040_0000u32;
    let acked = if !group {
        marked | 1u32
    } else {
        marked
    };
    let sequenced = if !group && frame_control & 0x0040u16 == 0 {
        acked | 0x2000_0000u32
    } else {
        acked
    };
    let ack_policy = ((qos_control & 0x7fu16) >> 5u16) as u32;
    let with_policy = (sequenced & 0xffcf_ffffu32) | (ack_policy << 20u32);
    if ack_policy == 1 || ack_policy == 3 {
        with_policy | 0x200u32
    } else {
        with_policy
    }
}

/// The classification of `frame`, or why it has none.
///
/// A BlockAckReq (20-octet control frame) keeps its header, takes its TID
/// from the high nibble of the BAR control and the BlockAck response class.
/// A data frame needs 24 octets, or 30 with four addresses; a group
/// destination asks for no ACK. A QoS data frame carries a QoS control word
/// after the base header and, with the order bit, an HT control word.
pub open spec fn header_classification(frame: Seq<u8>, initial_flags: u32) -> Result<
    HeaderClassification,
    HeaderClassificationError,
> {
    if frame.len() < 2 || frame.len() > 0xffff {
        Err(HeaderClassificationError::Truncated)
    } else {
        let frame_control = le16(frame, 0);
        if frame_control & 0x00fcu16 == 0x0084 {
            if frame.len() < 20 {
                Err(HeaderClassificationError::Truncated)
            } else {
                Ok(
                    HeaderClassification {
                        frame_control,
                        header_length: 20,
                        payload_length: (frame.len() - 20) as u16,
                        qos_control: 0,
                        tid: ((le16(frame, 16) >> 12u16) & 0x0fu16) as u8,
                        flags: initial_flags | 0x1000u32 | 0x4000u32,
                        assign_sequence: false,
                    },
                )
            }
        } else if frame.len() < 24 {
            Err(HeaderClassificationError::Truncated)
        } else {
            let base_header: int = if frame_control & 0x0300u16 == 0x0300 {
                30
            } else {
                24
            };
            if frame.len() < base_header {
                Err(HeaderClassificationError::Truncated)
            } else {
                let group = frame[4] & 1u8 != 0;
                let base_flags = if group {
                    initial_flags | 0x1000u32 | 0x300u32
                } else {
                    initial_flags | 0x1000u32
                };
                if frame_control & 0x008fu16 == 0x0088 {
                    if frame.len() < base_header + 2 {
                        Err(HeaderClassificationError::Truncated)
                    } else {
                        let qos_control = le16(frame, base_header);
                        let header_length = base_header + if frame_control & 0x8000u16 != 0 {
                            6int
                        } else {
                            2int
                        };
                        if frame.len() < header_length {
                            Err(HeaderClassificationError::InvalidLength)
                        } else {
                            Ok(
                                HeaderClassification {
                                    frame_control,
                                    header_length: header_length as u16,
                                    payload_length: (frame.len() - header_length) as u16,
                                    qos_control,
                                    tid: (qos_control & 0x0fu16) as u8,
                                    flags: qos_flags(base_flags, group, frame_control, qos_control),
                                    assign_sequence: !group && frame_control & 0x0040u16 == 0,
                                },
                            )
                        }
                    }
                } else {
                    Ok(
                        HeaderClassification {
                            frame_control,
                            header_length: base_header as u16,
                            payload_length: (frame.len() - base_header) as u16,
                            qos_control: 0,
                            tid: 0xff,
                            flags: base_flags,
                            assign_sequence: false,
                        },
                    )
                }
            }
        }
    }
}

fn read_le16(frame: &[u8], at: usize) -> (value: u16)
    requires
        at + 1 < frame@.len(),
    ensures
        value == le16(frame@, at as int),
{
    (frame[at] as u16) | ((frame[at + 1] as u16) << 8u16)
}

/// Classifies the 802.11 header of an ordinary host data frame (or a
/// BlockAckReq) without touching any counter or hardware.
pub fn classify_header(frame: &[u8], initial_flags: u32) -> (classification: Result<
    HeaderClassification,
    HeaderClassificationError,
>)
    ensures
        classification == header_classification(frame@, initial_flags),
{
    let length = frame.len();
    if length < 2 || length > 0xffff {
        return Err(HeaderClassificationError::Truncated);
    }
    let frame_control = read_le16(frame, 0);
    if frame_control & 0x00fc == 0x0084 {
        if length < 20 {
            return Err(HeaderClassificationError::Truncated);
        }
        let bar_control = read_le16(frame, 16);
        return Ok(
            HeaderClassification {
                frame_control,
                header_length: 20,
                payload_length: (length - 20) as u16,
                qos_control: 0,
                tid: ((bar_control >> 12u16) & 0x0f) as u8,
                flags: initial_flags | 0x1000 | 0x4000,
                assign_sequence: false,
            },
        );
    }
    if length < 24 {
        return Err(HeaderClassificationError::Truncated);
    }
    let four_address = frame_control & 0x0300 == 0x0300;
    let base_header: usize = if four_address {
        30
    } else {
        24
    };
    if length < base_header {
        return Err(HeaderClassificationError::Truncated);
    }
    let group = frame[4] & 1 != 0;
    let mut flags: u32 = initial_flags | 0x1000;
    if group {
        flags = flags | 0x300;
    }
    let qos = frame_control & 0x008f == 0x0088;
    if !qos {
        return Ok(
            HeaderClassification {
                frame_control,
                header_length: base_header as u16,
                payload_length: (length - base_header) as u16,
                qos_control: 0,
                tid: 0xff,
                flags,
                assign_sequence: false,
            },
        );
    }
    if length < base_header + 2 {
        return Err(HeaderClassificationError::Truncated);
    }
    let qos_control = read_le16(frame, base_header);
    let tid = (qos_control & 0x0f) as u8;
    flags = flags | 0x0040_0000;
    let mut assign_sequence = false;
    if !group {
        flags = flags | 1;
        if frame_control & 0x0040 == 0 {
            flags = flags | 0x2000_0000;
            assign_sequence = true;
        }
    }
    let ack_policy = ((qos_control & 0x7f) >> 5u16) as u32;
    flags = (flags & 0xffcf_ffff) | (ack_policy << 20u32);
    if ack_policy == 1 || ack_policy == 3 {
        flags = flags | 0x200;
    }
    let header_length: usize = base_header + if frame_control & 0x8000 != 0 {
        6
    } else {
        2
    };
    if length < header_length {
        return Err(HeaderClassificationError::InvalidLength);
    }
    Ok(
        HeaderClassification {
            frame_control,
            header_length: header_length as u16,
            payload_length: (length - header_length) as u16,
            qos_control,
            tid,
            flags,
            assign_sequence,
        },
    )
}

#[derive(Clone, Copy, Debug, PartialEq, Eq, Structural)]
pub enum PendingServiceReport {
    LeaveQueued,
    Complete(u16),
    PasQueued,
}

#[derive(Clone, Copy, Debug, PartialEq, Eq, Structural)]
pub enum PendingServiceError {
    WrongPhase,
    PendingList(CancelError),
    Timing(ProbeBuildError),
    PhyState,
    PasRingFull,
}

impl PendingServiceError {
    /// One-byte code of the failure kind, for diagnostics.
    pub fn diagnostic_code(self) -> (code: u8)
        ensures
            code == match self {
                PendingServiceError::WrongPhase => 1u8,
                PendingServiceError::PendingList(_) => 2,
                PendingServiceError::Timing(_) => 3,
                PendingServiceError::PhyState => 4,
                PendingServiceError::PasRingFull => 5,
            },
    {
        match self {
            PendingServiceError::WrongPhase => 1,
            PendingServiceError::PendingList(_) => 2,
            PendingServiceError::Timing(_) => 3,
            PendingServiceError::PhyState => 4,
            PendingServiceError::PasRingFull => 5,
        }
    }
}

/// Lifetime of a PAS submission on the vendor microsecond timer.
pub const PAS_SUBMISSION_LIFETIME: u32 = 0x007a_1200;

/// A PAS submission stamped `submitted` has expired at `now`: more than the
/// lifetime has passed, on a timer that wraps, read as a signed distance.
pub open spec fn submission_expired(submitted: u32, now: u32) -> bool {
    submitted.wrapping_sub(now).wrapping_add(PAS_SUBMISSION_LIFETIME) >= 0x8000_0000u32
}

pub fn pas_submission_expired(submitted: u32, now: u32) -> (expired: bool)
    ensures
        expired == submission_expired(submitted, now),
{
    submitted.wrapping_sub(now).wrapping_add(PAS_SUBMISSION_LIFETIME) >= 0x8000_0000
}

/// Control bits of a frame returned from a pipe to the PAS queue: marked as
/// a retry (bit 4) and stripped of the batch and scheduler ownership bits
/// 5, 26, 27 and 28.
pub fn requeued_retry_control_bits(bits: u32) -> (requeued: u32)
    ensures
        requeued == (bits | 0x10) & !(0x1c00_0020u32),
{
    (bits | 0x10) & !(0x1c00_0020u32)
}

/// Control bits of a descriptor staged in a pipe batch: the first member is
/// marked with bit 26, later members with bit 27.
pub fn scheduler_batch_control_bits(original: u32, staged: u8) -> (bits: u32)
    ensures
        bits == original | if staged == 0 {
            0x0400_0000u32
        } else {
            0x0800_0000u32
        },
{
    original | if staged == 0 {
        0x0400_0000
    } else {
        0x0800_0000
    }
}

/// Rate index used for a station data frame: the host's choice, unless it is
/// out of range or one of the unsupported PBCC indices 4 and 5.
pub fn station_data_rate(requested: u8) -> (rate: u8)
    ensures
        rate == if requested <= 21 && requested != 4 && requested != 5 {
            requested
        } else {
            0
        },
{
    if requested <= 21 && requested != 4 && requested != 5 {
        requested
    } else {
        0
    }
}

/// Live gates of the pending-list task, as observed for diagnostics.
#[derive(Clone, Copy, Debug, PartialEq, Eq, Structural)]
pub struct PendingLiveDiagnostic {
    pub global: u32,
    pub active_mask: u16,
    pub effective_mask: u16,
    pub vif_control_bits: u32,
    pub vif_mode_byte: u8,
    pub interface: u8,
    pub link: u8,
    pub pipe_allowed: bool,
}

#[derive(Clone, Copy, Debug, PartialEq, Eq, Structural)]
pub struct NonAggregateSchedulerInput {
    pub expired: bool,
    pub pipe_allowed: bool,
    pub pipe: u8,
    pub idle_pipe_mask: u8,
    pub ring_contains_frame: bool,
}

#[derive(Clone, Copy, Debug, PartialEq, Eq, Structural)]
pub enum NonAggregateSchedulerDecision {
    LeaveQueued,
    Complete(u16),
    ReservePipe(u8),
}

/// An expired frame completes with status 10. Otherwise the frame takes its
/// pipe only when it is still in the ring, the pipe is allowed, and the pipe
/// is one of the four and idle.
pub open spec fn scheduler_decision(input: NonAggregateSchedulerInput) -> NonAggregateSchedulerDecision {
    if input.expired {
        NonAggregateSchedulerDecision::Complete(10)
    } else if input.ring_contains_frame && input.pipe_allowed && input.pipe < 4 && (
    input.idle_pipe_mask >> input.pipe) & 1u8 == 1 {
        NonAggregateSchedulerDecision::ReservePipe(input.pipe)
    } else {
        NonAggregateSchedulerDecision::LeaveQueued
    }
}

pub fn non_aggregate_scheduler_decision(input: NonAggregateSchedulerInput) -> (decision:
    NonAggregateSchedulerDecision)
    ensures
        decision == scheduler_decision(input),
{
    if input.expired {
        return NonAggregateSchedulerDecision::Complete(10);
    }
    if !input.ring_contains_frame || !input.pipe_allowed || input.pipe >= 4 {
        return NonAggregateSchedulerDecision::LeaveQueued;
    }
    let mask = input.idle_pipe_mask;
    let pipe = input.pipe;
    assert((mask & (1u8 << pipe) == 0) == ((mask >> pipe) & 1u8 != 1)) by (bit_vector)
        requires
            pipe < 4,
    ;
    if input.idle_pipe_mask & (1u8 << input.pipe) == 0 {
        return NonAggregateSchedulerDecision::LeaveQueued;
    }
    NonAggregateSchedulerDecision::ReservePipe(input.pipe)
}

#[derive(Clone, Copy, Debug, PartialEq, Eq, Structural)]
pub enum SchedulerReserveError {
    WrongPhase,
    SchedulerBlocked,
    LeaveQueued,
    Expired,
    PipeStateUnavailable,
    Descriptor(ProbeBuildError),
}

impl SchedulerReserveError {
    /// One-byte code of the failure kind, for diagnostics.
    pub fn diagnostic_code(self) -> (code: u8)
        ensures
            code == match self {
                SchedulerReserveError::WrongPhase => 1u8,
                SchedulerReserveError::SchedulerBlocked => 2,
                SchedulerReserveError::LeaveQueued => 3,
                SchedulerReserveError::Expired => 4,
                SchedulerReserveError::PipeStateUnavailable => 5,
                SchedulerReserveError::Descriptor(_) => 6,
            },
    {
        match self {
            SchedulerReserveError::WrongPhase => 1,
            SchedulerReserveError::SchedulerBlocked => 2,
            SchedulerReserveError::LeaveQueued => 3,
            SchedulerReserveError::Expired => 4,
            SchedulerReserveError::PipeStateUnavailable => 5,
            SchedulerReserveError::Descriptor(_) => 6,
        }
    }
}

/// Live gates of the non-aggregate scheduler, as observed for diagnostics.
#[derive(Clone, Copy, Debug, PartialEq, Eq, Structural)]
pub struct SchedulerLiveDiagnostic {
    pub pipe: u8,
    pub idle_pipe_mask: u8,
    pub ring_head: u8,
    pub ring_tail: u8,
    pub ring_contains_frame: bool,
    pub pipe_allowed: bool,
    pub retry_gate: u8,
    pub receive_gate: u8,
}

/// A pipe slot reserved for one host frame, with everything needed to put
/// the slot and the PAS ring back as they were.
#[derive(Clone, Copy, Debug)]
pub struct HostSchedulerReservation {
    pub context: HostContextAddress,
    pub pipe: u8,
    pub slot: u8,
    pub ring_slot: u8,
    pub original_ring_head: u8,
    pub slot_record: u32,
    pub command: u32,
    pub original_control_bits: u32,
    pub original_slot_header: u32,
    pub original_slot_frame: u32,
    pub original_slot_auxiliary: u32,
    pub original_command: [u32; 16],
}

impl HostSchedulerReservation {
    pub fn pipe(&self) -> (pipe: u8)
        ensures
            pipe == self.pipe,
    {
        self.pipe
    }

    pub fn slot(&self) -> (slot: u8)
        ensures
            slot == self.slot,
    {
        self.slot
    }
}

#[derive(Clone, Copy, Debug, PartialEq, Eq, Structural)]
pub enum HostAdmissionError {
    MalformedRequest,
    Pool(HostPoolError),
}

/// The pending list after appending a context at its tail.
#[derive(Clone, Copy, Debug, PartialEq, Eq, Structural)]
pub struct PendingListInsertion {
    pub context_next: u32,
    pub new_head: u32,
    pub new_tail: u32,
}

/// The pending list after unlinking one context; `prior_next` is the new
/// link of the predecessor, when there is one.
#[derive(Clone, Copy, Debug, PartialEq, Eq, Structural)]
pub struct PendingListRemoval {
    pub new_head: u32,
    pub new_tail: u32,
    pub prior_next: Option<u32>,
}

/// Unlinks `context`, whose predecessor is `prior` (zero at the head) and
/// successor `next`. Refused for a null context and when `prior` does not
/// agree with whether `context` is the head.
pub fn remove_pending_list_node(head: u32, tail: u32, prior: u32, context: u32, next: u32) -> (removal:
    Option<PendingListRemoval>)
    ensures
        removal is None <==> (context == 0 || (prior == 0 && head != context) || (prior != 0
            && head == context)),
        removal matches Some(r) ==> r == (PendingListRemoval {
            new_head: if prior == 0 {
                next
            } else {
                head
            },
            new_tail: if tail == context {
                prior
            } else {
                tail
            },
            prior_next: if prior == 0 {
                None
            } else {
                Some(next)
            },
        }),
{
    if context == 0 || (prior == 0 && head != context) || (prior != 0 && head == context) {
        return None;
    }
    Some(
        PendingListRemoval {
            new_head: if prior == 0 {
                next
            } else {
                head
            },
            new_tail: if tail == context {
                prior
            } else {
                tail
            },
            prior_next: if prior == 0 {
                None
            } else {
                Some(next)
            },
        },
    )
}

/// Appends `context` at the tail of the pending list.
pub fn append_pending_list(head: u32, tail: u32, context: u32) -> (insertion: PendingListInsertion)
    ensures
        insertion == (PendingListInsertion {
            context_next: 0,
            new_head: if tail == 0 {
                context
            } else {
                head
            },
            new_tail: context,
        }),
{
    PendingListInsertion {
        context_next: 0,
        new_head: if tail == 0 {
            context
        } else {
            head
        },
        new_tail: context,
    }
}

#[derive(Clone, Copy, Debug, PartialEq, Eq, Structural)]
pub enum PasRingError {
    InvalidFrameKind,
    Full,
}

/// Inputs of the pending-list task for one ordinary class-0 frame.
#[derive(Clone, Copy, Debug, PartialEq, Eq, Structural)]
pub struct PendingTaskInput {
    pub global_blocked: bool,
    pub active_link: bool,
    /// The suspended-link or action-frame branch asks for the frame to leave
    /// the pending list.
    pub link_gate_requests_removal: bool,
    pub vif_operating: bool,
    pub completion_class: u8,
    pub pipe_allowed: bool,
    pub expired: bool,
}

#[derive(Clone, Copy, Debug, PartialEq, Eq, Structural)]
pub enum PendingTaskDecision {
    LeaveQueued,
    Complete(u16),
    ReleaseToPas,
}

/// A frame on an inactive link completes with status 0x14. While the
/// scheduler is globally blocked, an expired class-0 frame completes with
/// status 10 and class-6 and class-9 frames go on to PAS. Otherwise the link
/// gate, or an operating interface with a class-6 frame or an allowed pipe,
/// sends the frame to PAS, and an expired class-0 frame completes.
pub open spec fn pending_decision(input: PendingTaskInput) -> PendingTaskDecision {
    if !input.active_link {
        PendingTaskDecision::Complete(0x14)
    } else if input.global_blocked {
        if input.completion_class == 0 && input.expired {
            PendingTaskDecision::Complete(10)
        } else if input.completion_class == 6 || input.completion_class == 9 {
            PendingTaskDecision::ReleaseToPas
        } else {
            PendingTaskDecision::LeaveQueued
        }
    } else if input.link_gate_requests_removal {
        PendingTaskDecision::ReleaseToPas
    } else if input.vif_operating && (input.completion_class == 6 || input.pipe_allowed) {
        PendingTaskDecision::ReleaseToPas
    } else if input.expired && input.completion_class == 0 {
        PendingTaskDecision::Complete(10)
    } else {
        PendingTaskDecision::LeaveQueued
    }
}

pub fn pending_task_decision(input: PendingTaskInput) -> (decision: PendingTaskDecision)
    ensures
        decision == pending_decision(input),
{
    if !input.active_link {
        return PendingTaskDecision::Complete(0x14);
    }
    if input.global_blocked {
        return if input.completion_class == 0 && input.expired {
            PendingTaskDecision::Complete(10)
        } else if input.completion_class == 6 || input.completion_class == 9 {
            PendingTaskDecision::ReleaseToPas
        } else {
            PendingTaskDecision::LeaveQueued
        };
    }
    if input.link_gate_requests_removal {
        return PendingTaskDecision::ReleaseToPas;
    }
    if input.vif_operating && (input.completion_class == 6 || input.pipe_allowed) {
        return PendingTaskDecision::ReleaseToPas;
    }
    if input.expired && input.completion_class == 0 {
        return PendingTaskDecision::Complete(10);
    }
    PendingTaskDecision::LeaveQueued
}


/// Bit facts of the flag words the header classifier builds.
proof fn lemma_classifier_flag_bits()
    by (bit_vector)
    ensures
        forall|f: u32| #[trigger] ((f | 0x1000u32) | 0x300u32) & 0x300u32 == 0x300u32,
        forall|f: u32| #[trigger] (f | 0x1000u32) & 0x100u32 == f & 0x100u32,
        forall|x: u32| #[trigger] (x | 0x0040_0000u32) & 0x300u32 == x & 0x300u32,
        forall|x: u32| #[trigger] (x | 1u32) & 0x300u32 == x & 0x300u32,
        forall|x: u32| #[trigger] (x | 0x2000_0000u32) & 0x300u32 == x & 0x300u32,
        forall|x: u32, a: u32|
            a <= 3 ==> #[trigger] ((x & 0xffcf_ffffu32) | (a << 20u32)) & 0x300u32 == x & 0x300u32,
        forall|x: u32| #[trigger] (x | 0x200u32) & 0x100u32 == x & 0x100u32,
        forall|x: u32| x & 0x300u32 == 0x300u32 ==> #[trigger] (x | 0x200u32) & 0x300u32 == 0x300u32,
        forall|q: u16| #[trigger] ((q & 0x7fu16) >> 5u16) <= 3,
        forall|x: u32, y: u32|
            #[trigger] (x & 0x300u32) == #[trigger] (y & 0x300u32) ==> x & 0x100u32 == y & 0x100u32,
{
}

/// A header whose first address is a group address (its first octet has
/// bit 0 set) is classified as asking for no ACK: flag bits 0x300 are set.
/// A unicast destination never sets flag bit 0x100 beyond `initial_flags`.
/// BlockAckReqs, which carry no such address, are apart.
pub proof fn lemma_group_destination_asks_no_ack(frame: Seq<u8>, initial_flags: u32)
    requires
        frame.len() >= 24,
        le16(frame, 0) & 0x00fcu16 != 0x0084,
    ensures
        header_classification(frame, initial_flags) matches Ok(c) ==> {
            &&& frame[4] & 1u8 != 0 ==> c.flags & 0x300u32 == 0x300u32
            &&& frame[4] & 1u8 == 0 ==> c.flags & 0x100u32 == initial_flags & 0x100u32
        },
{
    lemma_classifier_flag_bits();
    let frame_control = le16(frame, 0);
    let base_header: int = if frame_control & 0x0300u16 == 0x0300 {
        30
    } else {
        24
    };
    let group = frame[4] & 1u8 != 0;
    let base_flags = if group {
        initial_flags | 0x1000u32 | 0x300u32
    } else {
        initial_flags | 0x1000u32
    };
    if frame.len() >= base_header && frame.len() <= 0xffff && frame_control & 0x008fu16 == 0x0088 && frame.len()
        >= base_header + 2 {
        let qos_control = le16(frame, base_header);
        let ack_policy = ((qos_control & 0x7fu16) >> 5u16) as u32;
        assert(((qos_control & 0x7fu16) >> 5u16) <= 3);
        let marked = base_flags | 0x0040_0000u32;
        let acked = if !group {
            marked | 1u32
        } else {
            marked
        };
        let sequenced = if !group && frame_control & 0x0040u16 == 0 {
            acked | 0x2000_0000u32
        } else {
            acked
        };
        assert(marked & 0x300u32 == base_flags & 0x300u32);
        assert(acked & 0x300u32 == base_flags & 0x300u32);
        assert(sequenced & 0x300u32 == base_flags & 0x300u32);
        let with_policy = (sequenced & 0xffcf_ffffu32) | (ack_policy << 20u32);
        assert(with_policy & 0x300u32 == base_flags & 0x300u32);
        assert((with_policy | 0x200u32) & 0x100u32 == with_policy & 0x100u32);
        if group {
            assert(base_flags & 0x300u32 == 0x300u32);
            assert((with_policy | 0x200u32) & 0x300u32 == 0x300u32);
        } else {
            assert(base_flags & 0x100u32 == initial_flags & 0x100u32);
            assert(with_policy & 0x100u32 == base_flags & 0x100u32);
            assert(with_policy & 0x100u32 == initial_flags & 0x100u32);
        }
    } else if !group {
        assert(base_flags & 0x100u32 == initial_flags & 0x100u32);
    }
}

/// A pipe is reserved only when it is the frame's own pipe and its bit of
/// the idle mask is set; a frame that has not expired stays queued when its
/// pipe is busy, whatever other pipes are idle.
pub proof fn lemma_reserve_only_an_idle_pipe(input: NonAggregateSchedulerInput)
    ensures
        scheduler_decision(input) matches NonAggregateSchedulerDecision::ReservePipe(p) ==> p == input.pipe
            && p < 4 && (input.idle_pipe_mask >> p) & 1u8 == 1 && !input.expired,
        !input.expired && (input.idle_pipe_mask >> input.pipe) & 1u8 != 1 ==> scheduler_decision(input)
            == NonAggregateSchedulerDecision::LeaveQueued,
        input.expired ==> scheduler_decision(input) == NonAggregateSchedulerDecision::Complete(10),
{
}

/// While the scheduler is globally blocked, a frame on an active link goes
/// on to PAS only in completion class 6 or 9, completes (status 10) only
/// as an expired class-0 frame, and otherwise stays queued: the link gate,
/// the interface and the pipe have no say.
pub proof fn lemma_global_block_holds_frames(input: PendingTaskInput, other: PendingTaskInput)
    requires
        input.active_link,
        input.global_blocked,
        other.active_link,
        other.global_blocked,
        other.completion_class == input.completion_class,
        other.expired == input.expired,
    ensures
        pending_decision(input) == pending_decision(other),
        pending_decision(input) is ReleaseToPas <==> (input.completion_class == 6 || input.completion_class
            == 9),
        pending_decision(input) == PendingTaskDecision::Complete(10) <==> (input.completion_class == 0
            && input.expired),
        pending_decision(input) is LeaveQueued <==> !(input.completion_class == 6 || input.completion_class
            == 9 || (input.completion_class == 0 && input.expired)),
{
}


/// A classified header and its payload make up the whole frame; a data
/// header is 24 octets or more and a BlockAckReq header 20; a frame that is
/// not QoS data carries no QoS control and TID 0xff.
pub proof fn lemma_header_splits_the_frame(frame: Seq<u8>, initial_flags: u32)
    ensures
        header_classification(frame, initial_flags) matches Ok(c) ==> {
            &&& c.header_length + c.payload_length == frame.len()
            &&& le16(frame, 0) & 0x00fcu16 == 0x0084 ==> c.header_length == 20
            &&& le16(frame, 0) & 0x00fcu16 != 0x0084 ==> c.header_length >= 24
            &&& le16(frame, 0) & 0x00fcu16 != 0x0084 && le16(frame, 0) & 0x008fu16 != 0x0088 ==> c.tid == 0xff
                && c.qos_control == 0 && !c.assign_sequence
        },
        frame.len() < 20 ==> header_classification(frame, initial_flags) is Err,
{
}

/// A frame on an inactive link completes with status 0x14, whatever else
/// holds; on an active link that is not globally blocked, a link gate that
/// asks for removal sends it on to PAS.
pub proof fn lemma_inactive_link_completes(input: PendingTaskInput)
    ensures
        !input.active_link ==> pending_decision(input) == PendingTaskDecision::Complete(0x14),
        input.active_link && !input.global_blocked && input.link_gate_requests_removal ==> pending_decision(
            input,
        ) == PendingTaskDecision::ReleaseToPas,
{
}

} // verus!
