//! The free list of host contexts: thirty contexts linked through their
//! intrusive next word, headed by one DTCM word. Each free context keeps the
//! address of its own packet-RAM frame state, which allocation checks.

use vstd::prelude::*;

use crate::context::{
    host_context_at, host_context_index, is_host_context, HostContextAddress,
    HOST_TX_CONTEXT_COUNT,
};
use crate::host_tx::HostPoolError;
use crate::mmio::{rd32, trace_after, value_of, wr16, wr32, wr8, MmioAccess};
use crate::offset;
use crate::packet_ram::host_frame_state_of;

verus! {

/// DTCM word that holds the first free host context, or zero.
pub const HOST_CONTEXT_FREE_HEAD: u32 = 0x0400_5a20;

/// Memory access of the host-pool operations. Implementations perform the
/// access and record it in `accesses`.
pub trait HostPoolIo {
    /// Every access performed so far, oldest first.
    /// A verified implementation defines it; the empty default only lets an
    /// implementation that Verus does not check leave it out.
    open spec fn accesses(&self) -> Seq<MmioAccess> {
        Seq::empty()
    }

    fn read_u32(&mut self, address: u32) -> (value: u32)
        ensures
            final(self).accesses() == old(self).accesses().push(rd32(address, value)),
    ;

    fn write_u8(&mut self, address: u32, value: u8)
        ensures
            final(self).accesses() == old(self).accesses().push(wr8(address, value as u32)),
    ;

    fn write_u16(&mut self, address: u32, value: u16)
        ensures
            final(self).accesses() == old(self).accesses().push(wr16(address, value as u32)),
    ;

    fn write_u32(&mut self, address: u32, value: u32)
        ensures
            final(self).accesses() == old(self).accesses().push(wr32(address, value)),
    ;
}

/// Address of the field at `field` of the host context at `context`.
pub open spec fn host_field(context: u32, field: u32) -> u32 {
    context.wrapping_add(field)
}

/// Writes that put the `index`-th host context on the free list: link it to
/// the previous one, mark it free, and record its frame state.
pub open spec fn free_list_entry_writes(index: int) -> Seq<MmioAccess> {
    let context = host_context_at(index) as u32;
    let previous = if index == 0 {
        0u32
    } else {
        host_context_at(index - 1) as u32
    };
    seq![
        wr32(host_field(context, offset::INTRUSIVE_NEXT), previous),
        wr16(host_field(context, offset::TERMINAL_STATUS), 0xff),
        wr32(host_field(context, offset::FRAME_STATE_ADDRESS), host_frame_state_of(index)),
    ]
}

/// The head is cleared, then the first `count` contexts are linked in order.
pub open spec fn free_list_prefix_writes(count: int) -> Seq<MmioAccess>
    decreases count,
{
    if count <= 0 {
        seq![wr32(HOST_CONTEXT_FREE_HEAD, 0)]
    } else {
        free_list_prefix_writes(count - 1) + free_list_entry_writes(count - 1)
    }
}

/// All writes of a rebuild: every context linked to the one before it, and
/// the last one made the head, so that contexts are handed out from the end
/// of the pool.
pub open spec fn free_list_rebuild_writes() -> Seq<MmioAccess> {
    free_list_prefix_writes(HOST_TX_CONTEXT_COUNT as int).push(
        wr32(HOST_CONTEXT_FREE_HEAD, host_context_at(HOST_TX_CONTEXT_COUNT - 1) as u32),
    )
}

/// Rebuilds the whole free list.
pub fn rebuild_host_free_list<I: HostPoolIo>(io: &mut I)
    ensures
        final(io).accesses() == old(io).accesses() + free_list_rebuild_writes(),
{
    let ghost before = io.accesses();
    io.write_u32(HOST_CONTEXT_FREE_HEAD, 0);
    let mut head: u32 = 0;
    let mut index: u32 = 0;
    assert(io.accesses() =~= before + free_list_prefix_writes(0));
    while index < HOST_TX_CONTEXT_COUNT
        invariant
            index <= HOST_TX_CONTEXT_COUNT,
            head == if index == 0 {
                0u32
            } else {
                host_context_at(index - 1) as u32
            },
            io.accesses() == before + free_list_prefix_writes(index as int),
        decreases HOST_TX_CONTEXT_COUNT - index,
    {
        let context = match HostContextAddress::from_index(index) {
            Some(context) => context,
            None => {
                assert(false);
                return;
            },
        };
        assert(is_host_context(context@)) by {
            assert(context@ - crate::context::HOST_TX_CONTEXTS == index * crate::context::TX_CONTEXT_SIZE);
            assert((index * crate::context::TX_CONTEXT_SIZE) % (crate::context::TX_CONTEXT_SIZE as int) == 0) by (nonlinear_arith);
        }
        let ghost start = io.accesses();
        io.write_u32(context.field(offset::INTRUSIVE_NEXT), head);
        io.write_u16(context.field(offset::TERMINAL_STATUS), 0x00ff);
        let frame_state = context.expected_frame_state();
        assert(host_context_index(context@) == index) by {
            assert(context@ - crate::context::HOST_TX_CONTEXTS == index * crate::context::TX_CONTEXT_SIZE);
            assert((index * crate::context::TX_CONTEXT_SIZE) / (crate::context::TX_CONTEXT_SIZE as int) == index) by (nonlinear_arith);
        }
        io.write_u32(context.field(offset::FRAME_STATE_ADDRESS), frame_state);
        assert(io.accesses() =~= start + free_list_entry_writes(index as int));
        head = context.raw();
        index += 1;
    }
    io.write_u32(HOST_CONTEXT_FREE_HEAD, head);
}

/// The accesses of a pop, given what it read: the head; then, for a head
/// that is a host context, its frame-state word; then, when that is the
/// context's own frame state, its link, and the writes that unlink and
/// claim it.
pub open spec fn pop_accesses(t: Seq<MmioAccess>) -> Seq<MmioAccess> {
    let head = value_of(t[0]);
    let frame_state = value_of(t[1]);
    let next = value_of(t[2]);
    if !is_host_context(head) {
        seq![rd32(HOST_CONTEXT_FREE_HEAD, head)]
    } else if frame_state != host_frame_state_of(host_context_index(head)) {
        seq![
            rd32(HOST_CONTEXT_FREE_HEAD, head),
            rd32(host_field(head, offset::FRAME_STATE_ADDRESS), frame_state),
        ]
    } else {
        seq![
            rd32(HOST_CONTEXT_FREE_HEAD, head),
            rd32(host_field(head, offset::FRAME_STATE_ADDRESS), frame_state),
            rd32(host_field(head, offset::INTRUSIVE_NEXT), next),
            wr32(HOST_CONTEXT_FREE_HEAD, next),
            wr8(host_field(head, offset::REQUEST_FLAGS), 0),
            wr32(host_field(head, offset::COMPLETION_STATUS), 0xfe),
            wr16(host_field(head, offset::TERMINAL_STATUS), 0xfe),
            wr32(host_field(head, offset::OWNERSHIP_BITS), 0),
        ]
    }
}

/// What a pop returns, given what it read: the head context, or why the
/// list cannot give one (empty, a head that is no host context, or a head
/// whose frame-state word is not its own).
pub open spec fn pop_result(t: Seq<MmioAccess>) -> Result<HostContextAddress, HostPoolError> {
    let head = value_of(t[0]);
    let frame_state = value_of(t[1]);
    if !is_host_context(head) {
        Err(
            if head == 0 {
                HostPoolError::Empty
            } else {
                HostPoolError::CorruptFreeHead
            },
        )
    } else if frame_state != host_frame_state_of(host_context_index(head)) {
        Err(HostPoolError::CorruptFrameState)
    } else {
        Ok(HostContextAddress(head))
    }
}

/// Takes the first context off the free list and marks it allocated.
pub fn pop_host_free_list<I: HostPoolIo>(io: &mut I) -> (result: Result<
    HostContextAddress,
    HostPoolError,
>)
    ensures
        ({
            let t = trace_after(final(io).accesses(), old(io).accesses().len() as int);
            &&& final(io).accesses() == old(io).accesses() + pop_accesses(t)
            &&& result == pop_result(t)
        }),
{
    let ghost before = io.accesses();
    let head = io.read_u32(HOST_CONTEXT_FREE_HEAD);
    let context = match HostContextAddress::from_raw(head) {
        Some(context) => context,
        None => {
            let ghost t = trace_after(io.accesses(), before.len() as int);
            assert(t =~= seq![rd32(HOST_CONTEXT_FREE_HEAD, head)]);
            assert(io.accesses() =~= before + pop_accesses(t));
            return Err(
                if head == 0 {
                    HostPoolError::Empty
                } else {
                    HostPoolError::CorruptFreeHead
                },
            );
        },
    };
    let frame_state = io.read_u32(context.field(offset::FRAME_STATE_ADDRESS));
    if frame_state != context.expected_frame_state() {
        let ghost t = trace_after(io.accesses(), before.len() as int);
        assert(t =~= seq![
            rd32(HOST_CONTEXT_FREE_HEAD, head),
            rd32(host_field(head, offset::FRAME_STATE_ADDRESS), frame_state),
        ]);
        assert(io.accesses() =~= before + pop_accesses(t));
        return Err(HostPoolError::CorruptFrameState);
    }
    let next = io.read_u32(context.field(offset::INTRUSIVE_NEXT));
    io.write_u32(HOST_CONTEXT_FREE_HEAD, next);
    io.write_u8(context.field(offset::REQUEST_FLAGS), 0);
    io.write_u32(context.field(offset::COMPLETION_STATUS), 0xfe);
    io.write_u16(context.field(offset::TERMINAL_STATUS), 0x00fe);
    io.write_u32(context.field(offset::OWNERSHIP_BITS), 0);
    let ghost t = trace_after(io.accesses(), before.len() as int);
    assert(t =~= seq![
        rd32(HOST_CONTEXT_FREE_HEAD, head),
        rd32(host_field(head, offset::FRAME_STATE_ADDRESS), frame_state),
        rd32(host_field(head, offset::INTRUSIVE_NEXT), next),
        wr32(HOST_CONTEXT_FREE_HEAD, next),
        wr8(host_field(head, offset::REQUEST_FLAGS), 0),
        wr32(host_field(head, offset::COMPLETION_STATUS), 0xfe),
        wr16(host_field(head, offset::TERMINAL_STATUS), 0xfe),
        wr32(host_field(head, offset::OWNERSHIP_BITS), 0),
    ]);
    assert(io.accesses() =~= before + pop_accesses(t));
    Ok(context)
}

/// The accesses of a push, given what it read: mark the context free, set
/// its ownership bit 18, and link it in front of the old head.
pub open spec fn push_accesses(context: u32, t: Seq<MmioAccess>) -> Seq<MmioAccess> {
    let ownership = value_of(t[2]);
    let head = value_of(t[4]);
    seq![
        wr32(host_field(context, offset::COMPLETION_STATUS), 0xff),
        wr16(host_field(context, offset::TERMINAL_STATUS), 0xff),
        rd32(host_field(context, offset::OWNERSHIP_BITS), ownership),
        wr32(host_field(context, offset::OWNERSHIP_BITS), ownership | 0x0004_0000),
        rd32(HOST_CONTEXT_FREE_HEAD, head),
        wr32(host_field(context, offset::INTRUSIVE_NEXT), head),
        wr32(HOST_CONTEXT_FREE_HEAD, context),
    ]
}

/// Returns `context` to the front of the free list.
pub fn push_host_free_list<I: HostPoolIo>(io: &mut I, context: HostContextAddress)
    ensures
        final(io).accesses() == old(io).accesses() + push_accesses(
            context@,
            trace_after(final(io).accesses(), old(io).accesses().len() as int),
        ),
{
    let ghost before = io.accesses();
    io.write_u32(context.field(offset::COMPLETION_STATUS), 0xff);
    io.write_u16(context.field(offset::TERMINAL_STATUS), 0x00ff);
    let ownership = io.read_u32(context.field(offset::OWNERSHIP_BITS));
    io.write_u32(context.field(offset::OWNERSHIP_BITS), ownership | 0x0004_0000);
    let head = io.read_u32(HOST_CONTEXT_FREE_HEAD);
    io.write_u32(context.field(offset::INTRUSIVE_NEXT), head);
    io.write_u32(HOST_CONTEXT_FREE_HEAD, context.raw());
    let ghost t = trace_after(io.accesses(), before.len() as int);
    assert(t =~= push_accesses(context@, t));
    assert(io.accesses() =~= before + push_accesses(context@, t));
}

} // verus!
