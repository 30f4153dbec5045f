//! Completed TX contexts: the class callback of a completed context runs,
//! the interface's retry statistics are updated, and the context goes back
//! on the internal free list.

use vstd::prelude::*;

use crate::completion_enqueue::{raise_accesses, raise_scheduler_bits};
use crate::context::{is_internal_context, ContextAddress, INTERNAL_CONTEXT_POOL};
use crate::mmio::{rd32, rd8, trace_after, value_of, wr16, wr32, wr8, MacPipeMmio, MmioAccess};
use crate::offset::{COMPLETION_CLASS, INTRUSIVE_NEXT, OWNERSHIP_BITS, TERMINAL_STATUS};

verus! {

/// First virtual-interface record.
pub const VIF_RECORDS: u32 = 0x0400_3e98;

/// Size of a virtual-interface record.
pub const VIF_RECORD_SIZE: u32 = 0x3b0;

/// Number of virtual-interface records.
pub const VIF_COUNT: usize = 3;

/// Offset of the completion device (mode) block inside an interface record.
pub const COMPLETION_DEVICE_OFFSET: u32 = 0x18;

/// First LMC message record.
pub const LMC_MESSAGES: u32 = 0x0400_8bb8;

/// Size of an LMC message record.
pub const LMC_MESSAGE_SIZE: u32 = 0x2c;

/// Producer index of the LMC message ring (one byte).
pub const LMC_MESSAGE_PRODUCER: u32 = 0x0400_8ad8;

/// Consumer index of the LMC message ring (one byte).
pub const LMC_MESSAGE_CONSUMER: u32 = 0x0400_8ad9;

/// Set when the pending-frame queue needs servicing after a context returns.
pub const PENDING_SERVICE_NEEDED: u32 = 0x0400_8ae3;

/// LMC message control byte; bit 2 asks for a message-ring pass once a
/// context has been returned.
pub const LMC_MESSAGE_CONTROL: u32 = 0x0400_8ada;

/// Internal contexts held by completion class 0, counted apart (one byte).
pub const CLASS0_INTERNAL_CONTEXT_COUNT: u32 = 0x0400_8f71;

/// One presence word per completion class; a class with a zero word has no
/// callback.
pub const COMPLETION_CALLBACK_PRESENCE: u32 = 0x0400_8f48;

/// Number of completion classes.
pub const COMPLETION_CLASS_COUNT: u32 = 10;

/// PHY operation timer word.
pub const MAC_PHY_OPERATION_TIMER: u32 = 0x0400_1fc0;

/// Terminal status of a context that is back on the free list.
pub const RELEASED_TERMINAL_STATUS: u16 = 0x00ff;

/// Ownership bit of a context returned to the free list.
pub const RETURNED_OWNERSHIP: u32 = 0x0002_0000;

/// Scheduler event asking for a message-ring pass.
pub const MESSAGE_EVENT: u32 = 0x0040_0000;

/// Record of virtual interface `interface`, or 0 past the last one.
pub fn lmc_vif_address(interface: usize) -> (address: u32)
    ensures
        address == if interface < VIF_COUNT {
            VIF_RECORDS + interface * VIF_RECORD_SIZE
        } else {
            0
        },
{
    if interface < VIF_COUNT {
        VIF_RECORDS + interface as u32 * VIF_RECORD_SIZE
    } else {
        0
    }
}

/// Completion device block of interface `interface`, or 0 past the last
/// interface.
pub fn completion_device_address(interface: u8) -> (address: u32)
    ensures
        address == if interface < VIF_COUNT {
            VIF_RECORDS + interface * VIF_RECORD_SIZE + COMPLETION_DEVICE_OFFSET
        } else {
            0
        },
{
    if (interface as usize) < VIF_COUNT {
        lmc_vif_address(interface as usize) + COMPLETION_DEVICE_OFFSET
    } else {
        0
    }
}

/// LMC message record `index`.
pub fn lmc_message_address(index: u8) -> (address: u32)
    ensures
        address == LMC_MESSAGES + index * LMC_MESSAGE_SIZE,
{
    LMC_MESSAGES + index as u32 * LMC_MESSAGE_SIZE
}

/// The PHY operation-7 timer word and its reload, ten million ticks.
pub fn phy_operation_7_timer() -> (timer: (u32, u32))
    ensures
        timer == (MAC_PHY_OPERATION_TIMER, 0x0098_9680u32),
{
    (MAC_PHY_OPERATION_TIMER, 0x0098_9680)
}

/// Halfword offset of each PHY dispatch case from the switch base; commands
/// past 8 take the last case.
pub open spec fn phy_dispatch_offset(command: u8) -> u32 {
    if command == 0 {
        0x17
    } else if command == 1 {
        0x05
    } else if command == 2 {
        0x08
    } else if command == 3 {
        0x0f
    } else if command == 4 {
        0x20
    } else if command == 5 {
        0x0f
    } else if command == 6 {
        0x1c
    } else if command == 7 {
        0x1a
    } else {
        0x07
    }
}

/// Thumb code address of the PHY dispatch case taken by `command`.
pub fn phy_dispatch_switch_target(command: u8) -> (target: u32)
    ensures
        target == 0x0001_6f82 + 2 * phy_dispatch_offset(command),
{
    let offsets: [u8; 9] = [0x17, 0x05, 0x08, 0x0f, 0x20, 0x0f, 0x1c, 0x1a, 0x07];
    let index: usize = if command < 8 {
        command as usize
    } else {
        8
    };
    let offset = offsets[index] as u32;
    assert(offset == phy_dispatch_offset(command));
    let odd = 0x0001_6f83 + offset * 2;
    assert(odd & !1u32 == odd - 1) by (bit_vector)
        requires
            odd == 0x0001_6f83u32 + offset * 2,
            offset <= 0x20,
    ;
    odd & !1
}

/// The class byte read when returning a context.
pub open spec fn returned_class(s: Seq<MmioAccess>) -> u8 {
    value_of(s[6]) as u8
}

/// Number of accesses of a return up to the pending-service check.
pub open spec fn return_counted_len(s: Seq<MmioAccess>) -> int {
    if returned_class(s) == 0 {
        9
    } else {
        7
    }
}

/// Whether the pending-frame queue was serviced while returning a context.
pub open spec fn return_services_pending(s: Seq<MmioAccess>) -> bool {
    (value_of(s[return_counted_len(s)]) as u8) != 0
}

/// Accesses of returning `context` to the internal free list, given the
/// values read: it is pushed on the list with the released terminal status
/// and ownership bit; a class-0 context lowers the class-0 count; the
/// pending-service byte is checked; a message-ring request in the control
/// byte is cleared and raised as a scheduler event.
pub open spec fn return_accesses(context: u32, s: Seq<MmioAccess>) -> Seq<MmioAccess> {
    let head = value_of(s[0]);
    let ownership = value_of(s[3]);
    let released = seq![
        rd32(INTERNAL_CONTEXT_POOL, head),
        wr32(context.wrapping_add(INTRUSIVE_NEXT), head),
        wr16(context.wrapping_add(TERMINAL_STATUS), RELEASED_TERMINAL_STATUS as u32),
        rd32(context.wrapping_add(OWNERSHIP_BITS), ownership),
        wr32(context.wrapping_add(OWNERSHIP_BITS), ownership | RETURNED_OWNERSHIP),
        wr32(INTERNAL_CONTEXT_POOL, context),
        rd8(context.wrapping_add(COMPLETION_CLASS), value_of(s[6])),
    ];
    let counted = if returned_class(s) == 0 {
        let count = value_of(s[7]);
        released + seq![
            rd8(CLASS0_INTERNAL_CONTEXT_COUNT, count),
            wr8(CLASS0_INTERNAL_CONTEXT_COUNT, ((count + 255) % 256) as u32),
        ]
    } else {
        released
    };
    let k = return_counted_len(s);
    let control = value_of(s[k + 1]) as u8;
    let checked = counted + seq![
        rd8(PENDING_SERVICE_NEEDED, value_of(s[k])),
        rd8(LMC_MESSAGE_CONTROL, value_of(s[k + 1])),
    ];
    if control & 4 != 0 {
        checked + seq![wr8(LMC_MESSAGE_CONTROL, (control & 0xfb) as u32)] + raise_accesses(
            value_of(s[k + 3]),
            MESSAGE_EVENT,
        )
    } else {
        checked
    }
}

/// Returns a completed `context` to the internal free list; see
/// `return_accesses`. Contexts of other classes than 0 lower
/// `active_internal_contexts`. `service_pending_queue` runs only when the
/// pending-service byte is set.
pub fn return_completed_context<M: MacPipeMmio, F: FnOnce()>(
    mmio: &mut M,
    active_internal_contexts: &mut u8,
    context: ContextAddress,
    service_pending_queue: F,
)
    requires
        call_requires(service_pending_queue, ()),
    ensures
        ({
            let s = trace_after(final(mmio).accesses(), old(mmio).accesses().len() as int);
            &&& final(mmio).accesses() == old(mmio).accesses() + return_accesses(context@, s)
            &&& *final(active_internal_contexts) == if returned_class(s) == 0 {
                *old(active_internal_contexts)
            } else {
                old(active_internal_contexts).wrapping_sub(1)
            }
            &&& return_services_pending(s) ==> call_ensures(service_pending_queue, (), ())
        }),
{
    let ghost before = mmio.accesses();
    let head = mmio.read_u32(INTERNAL_CONTEXT_POOL);
    mmio.write_u32(context.intrusive_next_address(), head);
    mmio.write_u16(context.terminal_status_address(), RELEASED_TERMINAL_STATUS);
    let ownership = mmio.read_u32(context.ownership_bits_address());
    mmio.write_u32(context.ownership_bits_address(), ownership | RETURNED_OWNERSHIP);
    mmio.write_u32(INTERNAL_CONTEXT_POOL, context.raw());
    let class = mmio.read_u8(context.completion_class_address());
    let ghost mut count_read: u32 = 0;
    if class == 0 {
        let count = mmio.read_u8(CLASS0_INTERNAL_CONTEXT_COUNT);
        mmio.write_u8(CLASS0_INTERNAL_CONTEXT_COUNT, count.wrapping_sub(1));
        proof {
            count_read = count as u32;
            assert(count.wrapping_sub(1) as u32 == ((count as u32 + 255) % 256) as u32);
        }
    } else {
        *active_internal_contexts = active_internal_contexts.wrapping_sub(1);
    }
    let pending = mmio.read_u8(PENDING_SERVICE_NEEDED);
    if pending != 0 {
        service_pending_queue();
    }
    let control = mmio.read_u8(LMC_MESSAGE_CONTROL);
    let ghost after_control = mmio.accesses();
    if control & 4 != 0 {
        mmio.write_u8(LMC_MESSAGE_CONTROL, control & 0xfb);
        raise_scheduler_bits(mmio, MESSAGE_EVENT);
    }
    proof {
        let s = trace_after(mmio.accesses(), before.len() as int);
        assert(value_of(s[0]) == head);
        assert(value_of(s[3]) == ownership);
        assert(value_of(s[6]) == class as u32);
        let k = return_counted_len(s);
        if class == 0 {
            assert(value_of(s[7]) == count_read);
        }
        assert(value_of(s[k]) == pending as u32);
        assert(value_of(s[k + 1]) == control as u32);
        if control & 4 != 0 {
            let raised = trace_after(mmio.accesses(), (after_control.len() + 1) as int);
            assert(s[k + 3] == raised[0]);
        }
        assert(mmio.accesses() =~= before + return_accesses(context@, s));
    }
}

/// Marks every completion class as having a callback: one presence word of
/// 1 per class, in class order.
pub fn initialize_completion_callback_presence<M: MacPipeMmio>(mmio: &mut M)
    ensures
        final(mmio).accesses() == old(mmio).accesses() + Seq::new(
            COMPLETION_CLASS_COUNT as nat,
            |class: int| wr32((COMPLETION_CALLBACK_PRESENCE + 4 * class) as u32, 1),
        ),
{
    let ghost before = mmio.accesses();
    let mut class: u32 = 0;
    while class < COMPLETION_CLASS_COUNT
        invariant
            class <= COMPLETION_CLASS_COUNT,
            mmio.accesses() == before + Seq::new(
                class as nat,
                |k: int| wr32((COMPLETION_CALLBACK_PRESENCE + 4 * k) as u32, 1),
            ),
        decreases COMPLETION_CLASS_COUNT - class,
    {
        mmio.write_u32(COMPLETION_CALLBACK_PRESENCE + 4 * class, 1);
        class = class + 1;
        assert(mmio.accesses() =~= before + Seq::new(
            class as nat,
            |k: int| wr32((COMPLETION_CALLBACK_PRESENCE + 4 * k) as u32, 1),
        ));
    }
}

/// The message slot the next allocation takes when the producer index
/// holds `producer`.
pub open spec fn next_message_index(producer: u32) -> u8 {
    ((producer as u8).wrapping_add(1)) & 0x0f
}

/// Accesses of allocating an LMC message, given the values read.
pub open spec fn allocate_message_accesses(s: Seq<MmioAccess>) -> Seq<MmioAccess> {
    let next = next_message_index(value_of(s[0]));
    let head = seq![rd8(LMC_MESSAGE_PRODUCER, value_of(s[0])), rd8(LMC_MESSAGE_CONSUMER, value_of(s[1]))];
    if (value_of(s[1]) as u8) == next {
        head
    } else {
        head.push(wr8(LMC_MESSAGE_PRODUCER, next as u32))
    }
}

/// Takes the next record of the sixteen-entry LMC message ring: the
/// producer index advances unless that would reach the consumer, in which
/// case `allocation_failed` runs and nothing is allocated.
pub fn allocate_lmc_message<M: MacPipeMmio, F: FnOnce()>(mmio: &mut M, allocation_failed: F) -> (message:
    Option<u32>)
    requires
        call_requires(allocation_failed, ()),
    ensures
        ({
            let s = trace_after(final(mmio).accesses(), old(mmio).accesses().len() as int);
            let next = next_message_index(value_of(s[0]));
            &&& final(mmio).accesses() == old(mmio).accesses() + allocate_message_accesses(s)
            &&& message == if (value_of(s[1]) as u8) == next {
                None
            } else {
                Some((LMC_MESSAGES + next * LMC_MESSAGE_SIZE) as u32)
            }
            &&& message is None ==> call_ensures(allocation_failed, (), ())
        }),
{
    let ghost before = mmio.accesses();
    let producer = mmio.read_u8(LMC_MESSAGE_PRODUCER).wrapping_add(1) & 0x0f;
    let consumer = mmio.read_u8(LMC_MESSAGE_CONSUMER);
    if consumer == producer {
        allocation_failed();
        let ghost s = trace_after(mmio.accesses(), before.len() as int);
        assert(value_of(s[1]) == consumer as u32);
        assert(mmio.accesses() =~= before + allocate_message_accesses(s));
        return None;
    }
    mmio.write_u8(LMC_MESSAGE_PRODUCER, producer);
    let ghost s = trace_after(mmio.accesses(), before.len() as int);
    assert(value_of(s[1]) == consumer as u32);
    assert(next_message_index(value_of(s[0])) == producer);
    assert(mmio.accesses() =~= before + allocate_message_accesses(s));
    Some(lmc_message_address(producer))
}

/// Accesses of releasing internal context `context`, given the values read.
pub open spec fn release_accesses(context: u32, s: Seq<MmioAccess>) -> Seq<MmioAccess> {
    let ownership = value_of(s[1]);
    let head = value_of(s[3]);
    seq![
        wr16(context.wrapping_add(TERMINAL_STATUS), RELEASED_TERMINAL_STATUS as u32),
        rd32(context.wrapping_add(OWNERSHIP_BITS), ownership),
        wr32(context.wrapping_add(OWNERSHIP_BITS), ownership | RETURNED_OWNERSHIP),
        rd32(INTERNAL_CONTEXT_POOL, head),
        wr32(context.wrapping_add(INTRUSIVE_NEXT), head),
        wr32(INTERNAL_CONTEXT_POOL, context),
    ]
}

/// Releases internal context `context` without a completion: it gets the
/// released terminal status and ownership bit, goes on the free list, and
/// lowers `active_internal_contexts`.
pub fn release_context_address<M: MacPipeMmio>(mmio: &mut M, active_internal_contexts: &mut u8, context: u32)
    requires
        is_internal_context(context),
    ensures
        final(mmio).accesses() == old(mmio).accesses() + release_accesses(
            context,
            trace_after(final(mmio).accesses(), old(mmio).accesses().len() as int),
        ),
        *final(active_internal_contexts) == old(active_internal_contexts).wrapping_sub(1),
{
    let ghost before = mmio.accesses();
    let address = ContextAddress::new(context);
    mmio.write_u16(address.terminal_status_address(), RELEASED_TERMINAL_STATUS);
    let ownership = mmio.read_u32(address.ownership_bits_address());
    mmio.write_u32(address.ownership_bits_address(), ownership | RETURNED_OWNERSHIP);
    let head = mmio.read_u32(INTERNAL_CONTEXT_POOL);
    mmio.write_u32(address.intrusive_next_address(), head);
    mmio.write_u32(INTERNAL_CONTEXT_POOL, context);
    *active_internal_contexts = active_internal_contexts.wrapping_sub(1);
    let ghost s = trace_after(mmio.accesses(), before.len() as int);
    assert(value_of(s[1]) == ownership);
    assert(value_of(s[3]) == head);
    assert(mmio.accesses() =~= before + release_accesses(context, s));
}

} // verus!
