//! Initialization of a host context from a WSM TX request: the exact fields,
//! widths and order that admission writes, applied either through a writer
//! of the caller's choosing or to a zeroed context image.

use vstd::prelude::*;

use crate::context::{HostContextAddress, HOST_TX_CONTEXTS};
use crate::host_pool::host_field;
use crate::host_tx::HostTxMetadata;
use crate::mmio::{wr16, wr32, wr8, MmioAccess};
use crate::offset;

verus! {

/// Size in bytes of a host context image.
pub const HOST_TX_CONTEXT_SIZE: usize = 0x170;

/// Receives the field writes of a host context. Implementations perform the
/// write and record it in `writes`.
pub trait HostContextWriter {
    /// Every write performed so far, oldest first.
    /// A verified implementation defines it; the empty default only lets an
    /// implementation that Verus does not check leave it out.
    open spec fn writes(&self) -> Seq<MmioAccess> {
        Seq::empty()
    }

    fn write_u8(&mut self, address: u32, value: u8)
        ensures
            final(self).writes() == old(self).writes().push(wr8(address, value as u32)),
    ;

    fn write_u16(&mut self, address: u32, value: u16)
        ensures
            final(self).writes() == old(self).writes().push(wr16(address, value as u32)),
    ;

    fn write_u32(&mut self, address: u32, value: u32)
        ensures
            final(self).writes() == old(self).writes().push(wr32(address, value)),
    ;
}

/// Control bits a new host frame starts with: bit 23, the HT parameter bits
/// 16..18 moved to bits 5..7, bit 16 for a request that asks for it, and
/// bit 3 for HT mixed mode.
pub open spec fn initial_control_bits(metadata: HostTxMetadata) -> u32 {
    0x0080_0000u32 | ((metadata.ht_tx_parameters >> 11u32) & 0xe0u32) | (if metadata.flags & 1u8
        != 0 {
        0x0001_0000u32
    } else {
        0u32
    }) | (if metadata.ht_tx_parameters & 3u32 == 1 {
        8u32
    } else {
        0u32
    })
}

/// Admission claims the context, resets its status words, copies the
/// request identity and resets the confirmation fields.
pub open spec fn identity_writes(c: u32, m: HostTxMetadata) -> Seq<MmioAccess> {
    seq![
        wr32(host_field(c, offset::FRAME_STATE_ADDRESS), m.frame_state_address),
        wr8(host_field(c, offset::REQUEST_FLAGS), 0),
        wr32(host_field(c, offset::COMPLETION_STATUS), 0xfe),
        wr16(host_field(c, offset::TERMINAL_STATUS), 0xfe),
        wr32(host_field(c, offset::OWNERSHIP_BITS), 0),
        wr32(host_field(c, offset::REQUEST_BUFFER), m.message_address),
        wr32(host_field(c, offset::PACKET_ID), m.packet_id),
        wr8(host_field(c, offset::REQUESTED_RATE), m.max_tx_rate as u32),
        wr8(host_field(c, offset::QUEUE_ID), m.queue_id as u32),
        wr8(host_field(c, offset::MORE), if m.more { 1u32 } else { 0u32 }),
        wr8(host_field(c, offset::REQUEST_FLAGS), m.flags as u32),
        wr32(host_field(c, offset::REQUEST_EXPIRY_TIME), m.expire_time),
        wr32(host_field(c, offset::HT_TX_PARAMETERS), m.ht_tx_parameters),
        wr32(host_field(c, offset::BORROWED_FRAME_LENGTH), m.frame_length as u32),
        wr32(host_field(c, offset::BORROWED_FRAME_ADDRESS), m.frame_address),
        wr8(host_field(c, offset::RATE_COPY), m.max_tx_rate as u32),
        wr8(host_field(c, offset::SAVED_STATUS), 0),
        wr16(host_field(c, offset::COMPLETION_FLAGS), 0),
        wr32(host_field(c, offset::RATE_TRY), 0),
        wr32(host_field(c, (offset::RATE_TRY + 4) as u32), 0),
        wr32(host_field(c, (offset::RATE_TRY + 8) as u32), 0),
    ]
}

/// Then it publishes ownership and records the interface, link, queue,
/// submission time, completion class and control bits.
pub open spec fn ownership_writes(c: u32, m: HostTxMetadata) -> Seq<MmioAccess> {
    seq![
        wr32(host_field(c, offset::OWNERSHIP_BITS), 1),
        wr8(host_field(c, offset::INTERFACE), m.interface as u32),
        wr8(host_field(c, offset::HOST_LINK), ((m.queue_id & 0x3f) >> 2u8) as u32),
        wr8(host_field(c, offset::QUEUE_ID), (m.queue_id & 3) as u32),
        wr32(host_field(c, offset::SUBMIT_TIMER), m.submit_timer),
        wr8(host_field(c, offset::COMPLETION_CLASS), 0),
        wr16(host_field(c, offset::SEQUENCE_OR_CALLBACK_STATE), 0),
        wr8(host_field(c, offset::SUBMIT_STATE), 1),
        wr32(host_field(c, offset::OPTIONAL_PIPE_OBJECT), 0),
        wr32(host_field(c, offset::CONTROL_BITS), initial_control_bits(m)),
    ]
}

/// Then it resets the PAS words and timestamps.
pub open spec fn reset_writes(c: u32, m: HostTxMetadata) -> Seq<MmioAccess> {
    seq![
        wr32(host_field(c, offset::PAS_RESET_WORD), 0),
        wr32(host_field(c, (offset::PAS_RESET_WORD + 4) as u32), 0),
        wr32(host_field(c, (offset::PAS_RESET_WORD + 8) as u32), 0),
        wr32(host_field(c, offset::COMPLETION_TIMESTAMP), m.submit_timer.wrapping_sub(1)),
        wr32(host_field(c, offset::SCHEDULER_TIMESTAMP), m.submit_timer.wrapping_sub(1)),
        wr32(host_field(c, offset::TIMING_SCRATCH), 0),
        wr32(host_field(c, (offset::TIMING_SCRATCH + 4) as u32), 0),
    ]
}

/// Last come the scheduling fields of the frame itself.
pub open spec fn scheduling_writes(c: u32, m: HostTxMetadata) -> Seq<MmioAccess> {
    seq![
        wr32(host_field(c, offset::EXPIRY_TIME), m.expire_time),
        wr32(host_field(c, offset::FRAME_ADDRESS), m.frame_address),
        wr8(host_field(c, offset::ACCESS_CATEGORY), m.ac as u32),
        wr8(host_field(c, offset::REQUEST_FLAG_RATE_BITS), ((m.flags & 0x0f) >> 1u8) as u32),
        wr8(host_field(c, offset::RETRY_POLICY), ((m.flags & 0x7f) >> 4u8) as u32),
        wr16(host_field(c, offset::FRAME_LENGTH), m.frame_length as u32),
        wr16(host_field(c, offset::TERMINAL_STATUS), 0xfe),
        wr16(host_field(c, offset::TRY_COUNT), 0),
        wr16(host_field(c, offset::AUXILIARY_STATE), 0),
        wr8(host_field(c, offset::INSERTION_MODE), 1),
        wr32(host_field(c, offset::NEXT_IN_AMPDU), 0),
        wr8(host_field(c, offset::TX_RATE), m.max_tx_rate as u32),
    ]
}

/// The field writes of admission, in order.
pub open spec fn host_context_field_writes(c: u32, m: HostTxMetadata) -> Seq<MmioAccess> {
    identity_writes(c, m) + ownership_writes(c, m) + reset_writes(c, m) + scheduling_writes(c, m)
}

fn write_identity_fields<W: HostContextWriter>(
    writer: &mut W,
    context: HostContextAddress,
    metadata: HostTxMetadata,
)
    ensures
        final(writer).writes() == old(writer).writes() + identity_writes(context@, metadata),
{
    let ghost before = writer.writes();
    writer.write_u32(context.field(offset::FRAME_STATE_ADDRESS), metadata.frame_state_address);
    writer.write_u8(context.field(offset::REQUEST_FLAGS), 0);
    writer.write_u32(context.field(offset::COMPLETION_STATUS), 0xfe);
    writer.write_u16(context.field(offset::TERMINAL_STATUS), 0xfe);
    writer.write_u32(context.field(offset::OWNERSHIP_BITS), 0);
    writer.write_u32(context.field(offset::REQUEST_BUFFER), metadata.message_address);
    writer.write_u32(context.field(offset::PACKET_ID), metadata.packet_id);
    writer.write_u8(context.field(offset::REQUESTED_RATE), metadata.max_tx_rate);
    writer.write_u8(context.field(offset::QUEUE_ID), metadata.queue_id);
    writer.write_u8(
        context.field(offset::MORE),
        if metadata.more {
            1
        } else {
            0
        },
    );
    writer.write_u8(context.field(offset::REQUEST_FLAGS), metadata.flags);
    writer.write_u32(context.field(offset::REQUEST_EXPIRY_TIME), metadata.expire_time);
    writer.write_u32(context.field(offset::HT_TX_PARAMETERS), metadata.ht_tx_parameters);
    writer.write_u32(context.field(offset::BORROWED_FRAME_LENGTH), metadata.frame_length as u32);
    writer.write_u32(context.field(offset::BORROWED_FRAME_ADDRESS), metadata.frame_address);
    writer.write_u8(context.field(offset::RATE_COPY), metadata.max_tx_rate);
    writer.write_u8(context.field(offset::SAVED_STATUS), 0);
    writer.write_u16(context.field(offset::COMPLETION_FLAGS), 0);
    let ghost middle = writer.writes();
    let mut index: u32 = 0;
    while index < 3
        invariant
            index <= 3,
            writer.writes() == middle + Seq::new(
                index as nat,
                |k: int| wr32(host_field(context@, (offset::RATE_TRY + 4 * k) as u32), 0),
            ),
        decreases 3 - index,
    {
        writer.write_u32(context.field(offset::RATE_TRY + 4 * index), 0);
        assert(writer.writes() =~= middle + Seq::new(
            (index + 1) as nat,
            |k: int| wr32(host_field(context@, (offset::RATE_TRY + 4 * k) as u32), 0),
        ));
        index += 1;
    }
    assert(writer.writes() =~= before + identity_writes(context@, metadata));
}

fn write_ownership_fields<W: HostContextWriter>(
    writer: &mut W,
    context: HostContextAddress,
    metadata: HostTxMetadata,
)
    ensures
        final(writer).writes() == old(writer).writes() + ownership_writes(context@, metadata),
{
    let ghost before = writer.writes();
    writer.write_u32(context.field(offset::OWNERSHIP_BITS), 1);
    writer.write_u8(context.field(offset::INTERFACE), metadata.interface);
    writer.write_u8(context.field(offset::HOST_LINK), (metadata.queue_id & 0x3f) >> 2u8);
    writer.write_u8(context.field(offset::QUEUE_ID), metadata.queue_id & 3);
    writer.write_u32(context.field(offset::SUBMIT_TIMER), metadata.submit_timer);
    writer.write_u8(context.field(offset::COMPLETION_CLASS), 0);
    writer.write_u16(context.field(offset::SEQUENCE_OR_CALLBACK_STATE), 0);
    writer.write_u8(context.field(offset::SUBMIT_STATE), 1);
    writer.write_u32(context.field(offset::OPTIONAL_PIPE_OBJECT), 0);
    let flags = 0x0080_0000u32 | ((metadata.ht_tx_parameters >> 11u32) & 0xe0) | (
    if metadata.flags & 1 != 0 {
        0x0001_0000u32
    } else {
        0
    }) | (if metadata.ht_tx_parameters & 3 == 1 {
        8u32
    } else {
        0
    });
    writer.write_u32(context.field(offset::CONTROL_BITS), flags);
    assert(writer.writes() =~= before + ownership_writes(context@, metadata));
}

fn write_reset_fields<W: HostContextWriter>(
    writer: &mut W,
    context: HostContextAddress,
    metadata: HostTxMetadata,
)
    ensures
        final(writer).writes() == old(writer).writes() + reset_writes(context@, metadata),
{
    let ghost before = writer.writes();
    let mut index: u32 = 0;
    while index < 3
        invariant
            index <= 3,
            writer.writes() == before + Seq::new(
                index as nat,
                |k: int| wr32(host_field(context@, (offset::PAS_RESET_WORD + 4 * k) as u32), 0),
            ),
        decreases 3 - index,
    {
        writer.write_u32(context.field(offset::PAS_RESET_WORD + 4 * index), 0);
        assert(writer.writes() =~= before + Seq::new(
            (index + 1) as nat,
            |k: int| wr32(host_field(context@, (offset::PAS_RESET_WORD + 4 * k) as u32), 0),
        ));
        index += 1;
    }
    writer.write_u32(context.field(offset::COMPLETION_TIMESTAMP), metadata.submit_timer.wrapping_sub(1));
    writer.write_u32(context.field(offset::SCHEDULER_TIMESTAMP), metadata.submit_timer.wrapping_sub(1));
    let ghost scratch_start = writer.writes();
    let mut index: u32 = 0;
    while index < 2
        invariant
            index <= 2,
            writer.writes() == scratch_start + Seq::new(
                index as nat,
                |k: int| wr32(host_field(context@, (offset::TIMING_SCRATCH + 4 * k) as u32), 0),
            ),
        decreases 2 - index,
    {
        writer.write_u32(context.field(offset::TIMING_SCRATCH + 4 * index), 0);
        assert(writer.writes() =~= scratch_start + Seq::new(
            (index + 1) as nat,
            |k: int| wr32(host_field(context@, (offset::TIMING_SCRATCH + 4 * k) as u32), 0),
        ));
        index += 1;
    }
    assert(writer.writes() =~= before + reset_writes(context@, metadata));
}

fn write_scheduling_fields<W: HostContextWriter>(
    writer: &mut W,
    context: HostContextAddress,
    metadata: HostTxMetadata,
)
    ensures
        final(writer).writes() == old(writer).writes() + scheduling_writes(context@, metadata),
{
    let ghost before = writer.writes();
    writer.write_u32(context.field(offset::EXPIRY_TIME), metadata.expire_time);
    writer.write_u32(context.field(offset::FRAME_ADDRESS), metadata.frame_address);
    writer.write_u8(context.field(offset::ACCESS_CATEGORY), metadata.ac);
    writer.write_u8(context.field(offset::REQUEST_FLAG_RATE_BITS), (metadata.flags & 0x0f) >> 1u8);
    writer.write_u8(context.field(offset::RETRY_POLICY), (metadata.flags & 0x7f) >> 4u8);
    writer.write_u16(context.field(offset::FRAME_LENGTH), metadata.frame_length);
    writer.write_u16(context.field(offset::TERMINAL_STATUS), 0xfe);
    writer.write_u16(context.field(offset::TRY_COUNT), 0);
    writer.write_u16(context.field(offset::AUXILIARY_STATE), 0);
    writer.write_u8(context.field(offset::INSERTION_MODE), 1);
    writer.write_u32(context.field(offset::NEXT_IN_AMPDU), 0);
    writer.write_u8(context.field(offset::TX_RATE), metadata.max_tx_rate);
    assert(writer.writes() =~= before + scheduling_writes(context@, metadata));
}

/// Writes every field that admission initializes, and nothing else.
pub fn write_host_context_fields<W: HostContextWriter>(
    writer: &mut W,
    context: HostContextAddress,
    metadata: HostTxMetadata,
)
    ensures
        final(writer).writes() == old(writer).writes() + host_context_field_writes(
            context@,
            metadata,
        ),
{
    let ghost before = writer.writes();
    write_identity_fields(writer, context, metadata);
    write_ownership_fields(writer, context, metadata);
    write_reset_fields(writer, context, metadata);
    write_scheduling_fields(writer, context, metadata);
    assert(writer.writes() =~= before + host_context_field_writes(context@, metadata));
}

/// The image after one write, for an image of the context at `base`. A
/// write that does not fall wholly inside the image leaves it unchanged.
pub open spec fn apply_write(image: Seq<u8>, base: u32, access: MmioAccess) -> Seq<u8> {
    match access {
        MmioAccess::Write { address, width, value } => {
            let at = address.wrapping_sub(base) as int;
            if at + width > image.len() {
                image
            } else if width == 1 {
                image.update(at, value as u8)
            } else if width == 2 {
                image.update(at, value as u8).update(at + 1, (value >> 8u32) as u8)
            } else if width == 4 {
                image.update(at, value as u8).update(at + 1, (value >> 8u32) as u8).update(
                    at + 2,
                    (value >> 16u32) as u8,
                ).update(at + 3, (value >> 24u32) as u8)
            } else {
                image
            }
        },
        MmioAccess::Read { .. } => image,
    }
}

/// The image after a sequence of writes, in order.
pub open spec fn apply_writes(image: Seq<u8>, base: u32, writes: Seq<MmioAccess>) -> Seq<u8>
    decreases writes.len(),
{
    if writes.len() == 0 {
        image
    } else {
        apply_write(apply_writes(image, base, writes.drop_last()), base, writes.last())
    }
}

/// An image of the first host context with its write log; the image is
/// always the zero image with the logged writes applied.
struct ImageContextWriter {
    image: [u8; 0x170],
    log: Ghost<Seq<MmioAccess>>,
}

impl ImageContextWriter {
    #[verifier::type_invariant]
    spec fn image_matches_log(self) -> bool {
        self.image@ == apply_writes(Seq::new(0x170, |i: int| 0u8), HOST_TX_CONTEXTS, self.log@)
    }
}

impl HostContextWriter for ImageContextWriter {
    closed spec fn writes(&self) -> Seq<MmioAccess> {
        self.log@
    }

    fn write_u8(&mut self, address: u32, value: u8) {
        let at = address.wrapping_sub(HOST_TX_CONTEXTS) as usize;
        let mut image = self.image;
        if at < 0x170 {
            image[at] = value;
        }
        let ghost log = self.log@.push(wr8(address, value as u32));
        proof {
            use_type_invariant(&*self);
            assert(log.drop_last() =~= self.log@);
            assert((value as u32) as u8 == value) by (bit_vector);
        }
        *self = ImageContextWriter { image, log: Ghost(log) };
    }

    fn write_u16(&mut self, address: u32, value: u16) {
        let at = address.wrapping_sub(HOST_TX_CONTEXTS) as usize;
        let mut image = self.image;
        if at < 0x16f {
            image[at] = value as u8;
            image[at + 1] = (value >> 8u16) as u8;
        }
        let ghost log = self.log@.push(wr16(address, value as u32));
        proof {
            use_type_invariant(&*self);
            assert(log.drop_last() =~= self.log@);
            assert((value as u32) as u8 == value as u8) by (bit_vector);
            assert(((value as u32) >> 8u32) as u8 == (value >> 8u16) as u8) by (bit_vector);
        }
        *self = ImageContextWriter { image, log: Ghost(log) };
    }

    fn write_u32(&mut self, address: u32, value: u32) {
        let at = address.wrapping_sub(HOST_TX_CONTEXTS) as usize;
        let mut image = self.image;
        if at < 0x16d {
            image[at] = value as u8;
            image[at + 1] = (value >> 8u32) as u8;
            image[at + 2] = (value >> 16u32) as u8;
            image[at + 3] = (value >> 24u32) as u8;
        }
        let ghost log = self.log@.push(wr32(address, value));
        proof {
            use_type_invariant(&*self);
            assert(log.drop_last() =~= self.log@);
        }
        *self = ImageContextWriter { image, log: Ghost(log) };
    }
}

/// Builds the image of a host context, as the first context of the pool,
/// from nothing but `metadata`: every byte is zero except the fields that
/// admission writes.
pub fn initialize_host_context(image: &mut [u8; 0x170], metadata: HostTxMetadata)
    ensures
        final(image)@ == apply_writes(
            Seq::new(0x170, |i: int| 0u8),
            HOST_TX_CONTEXTS,
            host_context_field_writes(HOST_TX_CONTEXTS, metadata),
        ),
{
    let context = HostContextAddress(HOST_TX_CONTEXTS);
    let zero = [0u8; 0x170];
    assert(zero@ =~= Seq::new(0x170, |i: int| 0u8));
    let mut writer = ImageContextWriter { image: zero, log: Ghost(Seq::empty()) };
    write_host_context_fields(&mut writer, context, metadata);
    proof {
        use_type_invariant(&writer);
        assert(writer.log@ =~= host_context_field_writes(HOST_TX_CONTEXTS, metadata));
        assert(writer.image@ == apply_writes(
            Seq::new(0x170, |i: int| 0u8),
            HOST_TX_CONTEXTS,
            host_context_field_writes(HOST_TX_CONTEXTS, metadata),
        ));
    }
    *image = writer.image;
}

/// Little-endian halfword of an image at `offset`.
pub fn read_u16(image: &[u8; 0x170], offset: usize) -> (value: u16)
    requires
        offset + 1 < 0x170,
    ensures
        value == (image[offset as int] as u16) | ((image[offset + 1] as u16) << 8u16),
{
    (image[offset] as u16) | ((image[offset + 1] as u16) << 8u16)
}

/// Little-endian word of an image at `offset`.
pub fn read_u32(image: &[u8; 0x170], offset: usize) -> (value: u32)
    requires
        offset + 3 < 0x170,
    ensures
        value == (image[offset as int] as u32) | ((image[offset + 1] as u32) << 8u32) | ((
        image[offset + 2] as u32) << 16u32) | ((image[offset + 3] as u32) << 24u32),
{
    (image[offset] as u32) | ((image[offset + 1] as u32) << 8u32) | ((image[offset + 2] as u32)
        << 16u32) | ((image[offset + 3] as u32) << 24u32)
}

} // verus!
