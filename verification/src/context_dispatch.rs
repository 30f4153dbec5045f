//! The completion-callback wrapper: a completed context records its status,
//! charges its aggregate budget and its interface's retry statistics, runs
//! the callback of its completion class, and, for every class but 0, goes
//! back on the internal free list.

use vstd::prelude::*;

use crate::completion_enqueue::{raise_accesses, COMPLETION_PENDING_EVENT};
use crate::context::ContextAddress;
use crate::context_return::{
    completion_device_address, return_accesses, return_completed_context, returned_class,
    return_services_pending, COMPLETION_CALLBACK_PRESENCE, COMPLETION_DEVICE_OFFSET,
    RELEASED_TERMINAL_STATUS, VIF_RECORDS, VIF_RECORD_SIZE,
};
use crate::mmio::{rd16, rd32, rd8, trace_after, value_of, wr16, wr32, wr8, MacPipeMmio, MmioAccess};
use crate::offset::{
    COMPLETION_CLASS, COMPLETION_STATUS, FRAME_ADDRESS, FRAME_CONTROL, FRAME_LENGTH, INTERFACE,
    OPTIONAL_PIPE_OBJECT, OWNERSHIP_BITS, SAVED_STATUS, TERMINAL_STATUS, TRY_COUNT, TX_RATE,
};
use crate::packet_ram::in_runtime_window;
use crate::phy::{validated_tx_frame, TxFrameAddress, DOT11_FIXED_HEADER_LENGTH};
use crate::plans::completion_retry_limit_offset;
use crate::registers::SCHEDULER_PENDING_EVENTS;
use crate::tracker::{ProbeTxOwnership, ProbeTxState, ProbeTxTracker};

verus! {

/// How the callback wrapper ended.
#[derive(Clone, Copy, Debug, PartialEq, Eq, Structural)]
pub enum CompletedContextDispatch {
    /// Already released, or its class has no callback.
    NoCallback,
    /// Class 0 returns its context itself.
    ClassZeroCallbackOwnsReturn,
    /// The context went back on the free list.
    Returned,
}

/// Ownership bit set while a context's completion callback runs.
pub const CALLBACK_OWNERSHIP: u32 = 0x0001_0000;

/// Retries an interface counts before it stops bumping its counter.
pub const INTERFACE_RETRY_LIMIT: u8 = 5;

/// Completion device block of interface `interface` (0 or 1).
pub open spec fn device_of(interface: u8) -> u32 {
    (VIF_RECORDS + interface * VIF_RECORD_SIZE + COMPLETION_DEVICE_OFFSET) as u32
}

/// Accesses of recording `status` in `context`, given the values read:
/// nothing more than the terminal status is read for a released context.
pub open spec fn record_accesses(context: u32, status: u16, s: Seq<MmioAccess>) -> Seq<MmioAccess> {
    let terminal = value_of(s[0]);
    let head = seq![rd16(context.wrapping_add(TERMINAL_STATUS), terminal)];
    if (terminal as u16) == RELEASED_TERMINAL_STATUS {
        head
    } else {
        let tries = value_of(s[1]);
        head + seq![
            rd16(context.wrapping_add(TRY_COUNT), tries),
            wr8(context.wrapping_add(SAVED_STATUS), ((tries as u16) as u8) as u32),
            wr16(context.wrapping_add(TERMINAL_STATUS), status as u32),
            wr32(context.wrapping_add(COMPLETION_STATUS), status as u32),
        ]
    }
}

/// Accesses of charging the aggregate budget, given the values read: a
/// positive budget byte at `aggregate + 7` is lowered for a class-0 context.
pub open spec fn budget_accesses(context: u32, s: Seq<MmioAccess>) -> Seq<MmioAccess> {
    let aggregate = value_of(s[0]);
    let head = seq![rd32(context.wrapping_add(OPTIONAL_PIPE_OBJECT), aggregate)];
    if aggregate == 0 {
        head
    } else {
        let at = aggregate.wrapping_add(7);
        let budget = (value_of(s[1]) as u8) as i8;
        let read = head.push(rd8(at, value_of(s[1])));
        if budget <= 0 {
            read
        } else {
            let class = value_of(s[2]);
            let checked = read.push(rd8(context.wrapping_add(COMPLETION_CLASS), class));
            if (class as u8) == 0 {
                checked.push(wr8(at, ((budget - 1) as u8) as u32))
            } else {
                checked
            }
        }
    }
}

/// Accesses of the countdown part of the device update, from the countdown
/// read on (`s[0]`), for device block `device`.
pub open spec fn countdown_accesses(context: u32, device: u32, s: Seq<MmioAccess>) -> Seq<MmioAccess> {
    let countdown = value_of(s[0]) as u8;
    let frame = value_of(s[1]);
    let length = value_of(s[2]) as u16;
    let head = seq![
        rd8((device + 0x14b) as u32, value_of(s[0])),
        rd32(context.wrapping_add(FRAME_ADDRESS), frame),
        rd16(context.wrapping_add(FRAME_LENGTH), value_of(s[2])),
    ];
    let valid = length >= DOT11_FIXED_HEADER_LENGTH && in_runtime_window(frame, length as int);
    if countdown == 0 || !valid {
        head
    } else {
        let peer = value_of(s[3]) as u8;
        let checked = head.push(rd8((frame + 4) as u32, value_of(s[3])));
        if peer & 1 == 0 {
            checked
        } else {
            let next = (countdown - 1) as u8;
            let counted = checked.push(wr8((device + 0x14b) as u32, next as u32));
            if next != 0 {
                counted
            } else {
                let updated = value_of(s[5]);
                let raised = if updated & 0x8000_0000 != 0 {
                    updated | 0x2000_0000
                } else {
                    updated
                };
                counted + seq![
                    rd32((device + 4) as u32, updated),
                    wr32((device + 4) as u32, raised & 0x7fff_ffff),
                ]
            }
        }
    }
}

/// Accesses of the interface's device update, given the values read: the
/// retry-class flag, then, when the device counts down, the countdown.
pub open spec fn device_accesses(context: u32, status: u16, s: Seq<MmioAccess>) -> Seq<MmioAccess> {
    let interface = value_of(s[0]) as u8;
    let head = seq![rd8(context.wrapping_add(INTERFACE), value_of(s[0]))];
    if interface >= 2 {
        head
    } else {
        let device = device_of(interface);
        let k: int = if status == 0 { 2 } else { 1 };
        let frame_control = if status == 0 {
            seq![rd16(context.wrapping_add(FRAME_CONTROL), value_of(s[1]))]
        } else {
            Seq::empty()
        };
        let retry_class: u8 = if status == 0 && (value_of(s[1]) as u16) & 0x0f == 8 {
            1
        } else {
            0
        };
        let retry_flags = value_of(s[k]) as u8;
        let flags = value_of(s[k + 2]);
        let marked = head + frame_control + seq![
            rd8((device + 0x3ac) as u32, value_of(s[k])),
            wr8((device + 0x3ac) as u32, (retry_flags | retry_class) as u32),
            rd32((device + 4) as u32, flags),
        ];
        if (flags >> 1) & 3 != 3 {
            marked
        } else {
            marked + countdown_accesses(context, device, s.skip(k + 3))
        }
    }
}

/// Accesses of looking up the class callback, given the values read; when
/// it is present, the callback-ownership bit is set and, after the
/// callback, the completion-pending event raised.
pub open spec fn callback_accesses(context: u32, s: Seq<MmioAccess>) -> Seq<MmioAccess> {
    let class = value_of(s[0]) as u8;
    let presence = value_of(s[1]);
    let head = seq![
        rd8(context.wrapping_add(COMPLETION_CLASS), value_of(s[0])),
        rd32((COMPLETION_CALLBACK_PRESENCE + 4 * class) as u32, presence),
    ];
    if presence == 0 {
        head
    } else {
        let ownership = value_of(s[2]);
        head + seq![
            rd32(context.wrapping_add(OWNERSHIP_BITS), ownership),
            wr32(context.wrapping_add(OWNERSHIP_BITS), ownership | CALLBACK_OWNERSHIP),
        ] + raise_accesses(value_of(s[4]), COMPLETION_PENDING_EVENT)
    }
}

/// Accesses of the interface's retry bookkeeping after a callback, given
/// the values read: within the interface's retry limit, a success bumps the
/// retry counter (up to five) and the saved status is taken off it.
pub open spec fn retry_accesses(context: u32, status: u16, interface: u8, s: Seq<MmioAccess>) -> Seq<
    MmioAccess,
> {
    if interface >= 2 {
        Seq::empty()
    } else {
        let device = device_of(interface);
        let alternate = (value_of(s[0]) as u8) != 0;
        let limit_at = (device + if alternate {
            0x115int
        } else {
            0x114int
        }) as u32;
        let limit = value_of(s[1]) as u8;
        let head = seq![rd8((device + 0x0e) as u32, value_of(s[0])), rd8(limit_at, value_of(s[1]))];
        if limit == 0xff {
            head
        } else {
            let rate = value_of(s[2]) as u8;
            let rated = head.push(rd8(context.wrapping_add(TX_RATE), value_of(s[2])));
            if rate > limit {
                rated
            } else {
                let retries = value_of(s[3]) as u8;
                let read = rated.push(rd8((device + 0x0f) as u32, value_of(s[3])));
                let bump = status == 0 && retries < INTERFACE_RETRY_LIMIT;
                let counted: u8 = if bump {
                    (retries + 1) as u8
                } else {
                    retries
                };
                let bumped = if bump {
                    read.push(wr8((device + 0x0f) as u32, counted as u32))
                } else {
                    read
                };
                let consumed = value_of(s[bumped.len() as int]) as u8;
                let checked = bumped.push(rd8(context.wrapping_add(SAVED_STATUS), value_of(s[bumped.len() as int])));
                if consumed != 0 {
                    checked.push(
                        wr8(
                            (device + 0x0f) as u32,
                            (if counted > consumed {
                                counted - consumed
                            } else {
                                0
                            }) as u32,
                        ),
                    )
                } else {
                    checked
                }
            }
        }
    }
}

fn record_status<M: MacPipeMmio>(mmio: &mut M, context: ContextAddress, status: u16) -> (released: bool)
    ensures
        ({
            let t = trace_after(final(mmio).accesses(), old(mmio).accesses().len() as int);
            &&& final(mmio).accesses() == old(mmio).accesses() + record_accesses(context@, status, t)
            &&& released == ((value_of(t[0]) as u16) == RELEASED_TERMINAL_STATUS)
        }),
{
    let ghost before = mmio.accesses();
    let terminal = mmio.read_u16(context.terminal_status_address());
    if terminal == RELEASED_TERMINAL_STATUS {
        let ghost t = trace_after(mmio.accesses(), before.len() as int);
        assert(value_of(t[0]) == terminal as u32);
        assert(mmio.accesses() =~= before + record_accesses(context@, status, t));
        return true;
    }
    let tries = mmio.read_u16(context.try_count_address());
    mmio.write_u8(context.saved_status_address(), tries as u8);
    mmio.write_u16(context.terminal_status_address(), status);
    mmio.write_u32(context.completion_status_address(), status as u32);
    let ghost t = trace_after(mmio.accesses(), before.len() as int);
    assert(value_of(t[0]) == terminal as u32);
    assert(value_of(t[1]) == tries as u32);
    assert(mmio.accesses() =~= before + record_accesses(context@, status, t));
    false
}

proof fn lemma_record_extends(context: u32, status: u16, t: Seq<MmioAccess>, e: Seq<MmioAccess>)
    requires
        record_accesses(context, status, t).len() <= t.len(),
    ensures
        record_accesses(context, status, t + e) == record_accesses(context, status, t),
        (t + e)[0] == t[0],
{
    let u = t + e;
    assert(u[0] == t[0]);
    if (value_of(t[0]) as u16) != RELEASED_TERMINAL_STATUS {
        assert(u[1] == t[1]);
    }
}

fn charge_aggregate_budget<M: MacPipeMmio>(mmio: &mut M, context: ContextAddress)
    ensures
        ({
            let t = trace_after(final(mmio).accesses(), old(mmio).accesses().len() as int);
            final(mmio).accesses() == old(mmio).accesses() + budget_accesses(context@, t)
        }),
{
    let ghost before = mmio.accesses();
    let aggregate = mmio.read_u32(context.optional_pipe_object_address());
    if aggregate != 0 {
        let at = aggregate.wrapping_add(7);
        let budget = mmio.read_u8(at) as i8;
        if budget > 0 {
            let class = mmio.read_u8(context.completion_class_address());
            if class == 0 {
                mmio.write_u8(at, (budget - 1) as u8);
            }
            let ghost t = trace_after(mmio.accesses(), before.len() as int);
            assert(value_of(t[2]) == class as u32);
        }
        let ghost t = trace_after(mmio.accesses(), before.len() as int);
        assert(((value_of(t[1]) as u8) as i8) == budget);
    }
    let ghost t = trace_after(mmio.accesses(), before.len() as int);
    assert(value_of(t[0]) == aggregate);
    assert(mmio.accesses() =~= before + budget_accesses(context@, t));
}

proof fn lemma_budget_extends(context: u32, t: Seq<MmioAccess>, e: Seq<MmioAccess>)
    requires
        budget_accesses(context, t).len() <= t.len(),
    ensures
        budget_accesses(context, t + e) == budget_accesses(context, t),
{
    let u = t + e;
    assert(u[0] == t[0]);
    if value_of(t[0]) != 0 {
        assert(u[1] == t[1]);
        if ((value_of(t[1]) as u8) as i8) > 0 {
            assert(u[2] == t[2]);
        }
    }
}

/// Reads the frame address and length of `context` and keeps the frame
/// when it holds a whole header inside packet RAM.
pub fn validated_context_tx_frame<M: MacPipeMmio>(mmio: &mut M, context: ContextAddress) -> (frame: Option<
    TxFrameAddress,
>)
    ensures
        ({
            let t = trace_after(final(mmio).accesses(), old(mmio).accesses().len() as int);
            let length = value_of(t[1]) as u16;
            &&& final(mmio).accesses() == old(mmio).accesses() + seq![
                rd32(context@.wrapping_add(FRAME_ADDRESS), value_of(t[0])),
                rd16(context@.wrapping_add(FRAME_LENGTH), value_of(t[1])),
            ]
            &&& frame is Some <==> (length >= DOT11_FIXED_HEADER_LENGTH && in_runtime_window(
                value_of(t[0]),
                length as int,
            ))
            &&& frame matches Some(f) ==> f.address == value_of(t[0])
        }),
{
    let ghost before = mmio.accesses();
    let address = mmio.read_u32(context.frame_address_address());
    let length = mmio.read_u16(context.frame_length_address());
    let ghost t = trace_after(mmio.accesses(), before.len() as int);
    assert(value_of(t[0]) == address);
    assert(value_of(t[1]) == length as u32);
    assert(mmio.accesses() =~= before + seq![
        rd32(context@.wrapping_add(FRAME_ADDRESS), address),
        rd16(context@.wrapping_add(FRAME_LENGTH), length as u32),
    ]);
    validated_tx_frame(address, length)
}

fn update_countdown<M: MacPipeMmio>(mmio: &mut M, context: ContextAddress, device: u32)
    requires
        device + 0x14b <= u32::MAX,
    ensures
        ({
            let t = trace_after(final(mmio).accesses(), old(mmio).accesses().len() as int);
            final(mmio).accesses() == old(mmio).accesses() + countdown_accesses(context@, device, t)
        }),
{
    let ghost before = mmio.accesses();
    let countdown = mmio.read_u8(device + 0x14b);
    let ghost after_countdown = mmio.accesses();
    let peer = validated_context_tx_frame(mmio, context);
    let ghost head = trace_after(mmio.accesses(), before.len() as int);
    proof {
        let f = trace_after(mmio.accesses(), after_countdown.len() as int);
        assert(value_of(head[0]) == countdown as u32);
        assert(head[1] == f[0]);
        assert(head[2] == f[1]);
    }
    if countdown != 0 {
        if let Some(peer) = peer {
            let flags = mmio.read_u8(peer.raw() + 4);
            if flags & 1 != 0 {
                let next = countdown - 1;
                mmio.write_u8(device + 0x14b, next);
                if next == 0 {
                    let updated = mmio.read_u32(device + 4);
                    let raised = if updated & 0x8000_0000 != 0 {
                        updated | 0x2000_0000
                    } else {
                        updated
                    };
                    mmio.write_u32(device + 4, raised & 0x7fff_ffff);
                    let ghost t = trace_after(mmio.accesses(), before.len() as int);
                    assert(value_of(t[5]) == updated);
                }
            }
            let ghost t = trace_after(mmio.accesses(), before.len() as int);
            assert(value_of(t[3]) == flags as u32);
        }
    }
    let ghost t = trace_after(mmio.accesses(), before.len() as int);
    assert(t.subrange(0, 3) =~= head);
    assert(mmio.accesses() =~= before + countdown_accesses(context@, device, t));
}

proof fn lemma_countdown_extends(context: u32, device: u32, t: Seq<MmioAccess>, e: Seq<MmioAccess>)
    requires
        countdown_accesses(context, device, t).len() <= t.len(),
    ensures
        countdown_accesses(context, device, t + e) == countdown_accesses(context, device, t),
{
    let u = t + e;
    assert(u[0] == t[0]);
    assert(u[1] == t[1]);
    assert(u[2] == t[2]);
    let length = value_of(t[2]) as u16;
    let valid = length >= DOT11_FIXED_HEADER_LENGTH && in_runtime_window(value_of(t[1]), length as int);
    if (value_of(t[0]) as u8) != 0 && valid {
        assert(u[3] == t[3]);
        if (value_of(t[3]) as u8) & 1 != 0 && ((value_of(t[0]) as u8) - 1) as u8 == 0 {
            assert(u[5] == t[5]);
        }
    }
}

fn update_interface_device<M: MacPipeMmio>(mmio: &mut M, context: ContextAddress, status: u16) -> (interface:
    u8)
    ensures
        ({
            let t = trace_after(final(mmio).accesses(), old(mmio).accesses().len() as int);
            &&& final(mmio).accesses() == old(mmio).accesses() + device_accesses(context@, status, t)
            &&& interface == value_of(t[0]) as u8
        }),
{
    let ghost before = mmio.accesses();
    let interface = mmio.read_u8(context.interface_address());
    if interface >= 2 {
        let ghost t = trace_after(mmio.accesses(), before.len() as int);
        assert(mmio.accesses() =~= before + device_accesses(context@, status, t));
        return interface;
    }
    let device = completion_device_address(interface);
    assert(device == device_of(interface));
    let retry_class: u8 = if status == 0 {
        let frame_control = mmio.read_u16(context.frame_control_address());
        if frame_control & 0x0f == 8 {
            1
        } else {
            0
        }
    } else {
        0
    };
    let ghost after_class = mmio.accesses();
    let retry_flags = mmio.read_u8(device + 0x3ac);
    mmio.write_u8(device + 0x3ac, retry_flags | retry_class);
    let flags = mmio.read_u32(device + 4);
    let ghost marked = mmio.accesses();
    if (flags >> 1) & 3 == 3 {
        update_countdown(mmio, context, device);
    }
    proof {
        let t = trace_after(mmio.accesses(), before.len() as int);
        let k: int = if status == 0 {
            2
        } else {
            1
        };
        assert(value_of(t[0]) == interface as u32);
        if status == 0 {
            let c = trace_after(after_class, before.len() as int);
            assert(t[1] == c[1]);
            assert(retry_class == (if (value_of(t[1]) as u16) & 0x0f == 8 {
                1u8
            } else {
                0u8
            }));
        }
        assert(value_of(t[k]) == retry_flags as u32);
        assert(value_of(t[k + 2]) == flags);
        assert(t.skip(k + 3) =~= trace_after(mmio.accesses(), marked.len() as int));
        assert(mmio.accesses() =~= before + device_accesses(context@, status, t));
    }
    interface
}

proof fn lemma_device_extends(context: u32, status: u16, t: Seq<MmioAccess>, e: Seq<MmioAccess>)
    requires
        device_accesses(context, status, t).len() <= t.len(),
    ensures
        device_accesses(context, status, t + e) == device_accesses(context, status, t),
        (t + e)[0] == t[0],
{
    let u = t + e;
    assert(u[0] == t[0]);
    if (value_of(t[0]) as u8) < 2 {
        let k: int = if status == 0 {
            2
        } else {
            1
        };
        assert(u[1] == t[1]);
        assert(u[k] == t[k]);
        assert(u[k + 2] == t[k + 2]);
        if (value_of(t[k + 2]) >> 1) & 3 == 3 {
            assert(u.skip(k + 3) =~= t.skip(k + 3) + e);
            lemma_countdown_extends(context, device_of(value_of(t[0]) as u8), t.skip(k + 3), e);
        }
    }
}

fn run_class_callback<M: MacPipeMmio, F: FnOnce(u8, ContextAddress)>(
    mmio: &mut M,
    context: ContextAddress,
    callback: F,
) -> (ran: (bool, u8))
    requires
        forall|class: u8| call_requires(callback, (class, context)),
    ensures
        ({
            let t = trace_after(final(mmio).accesses(), old(mmio).accesses().len() as int);
            &&& final(mmio).accesses() == old(mmio).accesses() + callback_accesses(context@, t)
            &&& ran.0 == (value_of(t[1]) != 0)
            &&& ran.1 == value_of(t[0]) as u8
            &&& ran.0 ==> call_ensures(callback, (value_of(t[0]) as u8, context), ())
        }),
{
    let ghost before = mmio.accesses();
    let class = mmio.read_u8(context.completion_class_address());
    let presence = mmio.read_u32(COMPLETION_CALLBACK_PRESENCE + 4 * class as u32);
    if presence == 0 {
        let ghost t = trace_after(mmio.accesses(), before.len() as int);
        assert(value_of(t[0]) == class as u32);
        assert(value_of(t[1]) == presence);
        assert(mmio.accesses() =~= before + callback_accesses(context@, t));
        return (false, class);
    }
    let ownership = mmio.read_u32(context.ownership_bits_address());
    mmio.write_u32(context.ownership_bits_address(), ownership | CALLBACK_OWNERSHIP);
    callback(class, context);
    let pending = mmio.read_u32(SCHEDULER_PENDING_EVENTS);
    mmio.write_u32(SCHEDULER_PENDING_EVENTS, pending | COMPLETION_PENDING_EVENT);
    let ghost t = trace_after(mmio.accesses(), before.len() as int);
    assert(value_of(t[0]) == class as u32);
    assert(value_of(t[1]) == presence);
    assert(value_of(t[2]) == ownership);
    assert(value_of(t[4]) == pending);
    assert(mmio.accesses() =~= before + callback_accesses(context@, t));
    (true, class)
}

proof fn lemma_callback_extends(context: u32, t: Seq<MmioAccess>, e: Seq<MmioAccess>)
    requires
        callback_accesses(context, t).len() <= t.len(),
    ensures
        callback_accesses(context, t + e) == callback_accesses(context, t),
        (t + e)[0] == t[0],
        (t + e)[1] == t[1],
{
    let u = t + e;
    assert(u[0] == t[0]);
    assert(u[1] == t[1]);
    if value_of(t[1]) != 0 {
        assert(u[2] == t[2]);
        assert(u[4] == t[4]);
    }
}

fn update_retry_statistics<M: MacPipeMmio>(mmio: &mut M, context: ContextAddress, status: u16, interface: u8)
    ensures
        ({
            let t = trace_after(final(mmio).accesses(), old(mmio).accesses().len() as int);
            final(mmio).accesses() == old(mmio).accesses() + retry_accesses(context@, status, interface, t)
        }),
{
    let ghost before = mmio.accesses();
    if interface >= 2 {
        assert(mmio.accesses() =~= before + Seq::empty());
        return;
    }
    let device = completion_device_address(interface);
    assert(device == device_of(interface));
    let alternate = mmio.read_u8(device + 0x0e) != 0;
    let limit = mmio.read_u8(device + completion_retry_limit_offset(alternate) as u32);
    if limit != 0xff {
        let rate = mmio.read_u8(context.tx_rate_address());
        if rate <= limit {
            let mut retries = mmio.read_u8(device + 0x0f);
            let ghost read_retries = retries;
            if status == 0 && retries < INTERFACE_RETRY_LIMIT {
                retries = retries + 1;
                mmio.write_u8(device + 0x0f, retries);
            }
            let ghost counted_len = (mmio.accesses().len() - before.len()) as int;
            let consumed = mmio.read_u8(context.saved_status_address());
            if consumed != 0 {
                mmio.write_u8(device + 0x0f, retries.saturating_sub(consumed));
            }
            let ghost t = trace_after(mmio.accesses(), before.len() as int);
            assert(value_of(t[3]) == read_retries as u32);
            assert(value_of(t[counted_len]) == consumed as u32);
        }
        let ghost t = trace_after(mmio.accesses(), before.len() as int);
        assert(value_of(t[2]) == rate as u32);
    }
    let ghost t = trace_after(mmio.accesses(), before.len() as int);
    assert((value_of(t[0]) as u8 != 0) == alternate);
    assert(value_of(t[1]) == limit as u32);
    assert(mmio.accesses() =~= before + retry_accesses(context@, status, interface, t));
}

proof fn lemma_retry_extends(context: u32, status: u16, interface: u8, t: Seq<MmioAccess>, e: Seq<MmioAccess>)
    requires
        retry_accesses(context, status, interface, t).len() <= t.len(),
    ensures
        retry_accesses(context, status, interface, t + e) == retry_accesses(context, status, interface, t),
{
    let u = t + e;
    if interface < 2 {
        assert(u[0] == t[0]);
        assert(u[1] == t[1]);
        if (value_of(t[1]) as u8) != 0xff {
            assert(u[2] == t[2]);
            if (value_of(t[2]) as u8) <= (value_of(t[1]) as u8) {
                assert(u[3] == t[3]);
                let k: int = if status == 0 && (value_of(t[3]) as u8) < INTERFACE_RETRY_LIMIT {
                    5
                } else {
                    4
                };
                assert(u[k] == t[k]);
            }
        }
    }
}

/// The callback wrapper's run on `context`, given the values read: its
/// accesses, how it ended, the reads from the class lookup on, and the
/// reads from the return on.
#[verifier::opaque]
pub open spec fn dispatch_step(context: u32, status: u16, s: Seq<MmioAccess>) -> (
    Seq<MmioAccess>,
    CompletedContextDispatch,
    Seq<MmioAccess>,
    Seq<MmioAccess>,
) {
    let a = record_accesses(context, status, s);
    if (value_of(s[0]) as u16) == RELEASED_TERMINAL_STATUS {
        (a, CompletedContextDispatch::NoCallback, Seq::empty(), Seq::empty())
    } else {
        let s1 = s.skip(a.len() as int);
        let b = budget_accesses(context, s1);
        let s2 = s1.skip(b.len() as int);
        let c = device_accesses(context, status, s2);
        let interface = value_of(s2[0]) as u8;
        let s3 = s2.skip(c.len() as int);
        let d = callback_accesses(context, s3);
        let head = a + b + c + d;
        if value_of(s3[1]) == 0 {
            (head, CompletedContextDispatch::NoCallback, s3, Seq::empty())
        } else if (value_of(s3[0]) as u8) == 0 {
            (head, CompletedContextDispatch::ClassZeroCallbackOwnsReturn, s3, Seq::empty())
        } else {
            let s4 = s3.skip(d.len() as int);
            let e = retry_accesses(context, status, interface, s4);
            let s5 = s4.skip(e.len() as int);
            (head + e + return_accesses(context, s5), CompletedContextDispatch::Returned, s3, s5)
        }
    }
}

proof fn lemma_dispatch_released(context: u32, status: u16, ta: Seq<MmioAccess>)
    requires
        record_accesses(context, status, ta).len() == ta.len(),
        (value_of(ta[0]) as u16) == RELEASED_TERMINAL_STATUS,
    ensures
        dispatch_step(context, status, ta).0 == record_accesses(context, status, ta),
        dispatch_step(context, status, ta).1 == CompletedContextDispatch::NoCallback,
{
    reveal(dispatch_step);
}

proof fn lemma_dispatch_head(
    context: u32,
    status: u16,
    ta: Seq<MmioAccess>,
    tb: Seq<MmioAccess>,
    tc: Seq<MmioAccess>,
    rest: Seq<MmioAccess>,
)
    requires
        record_accesses(context, status, ta).len() == ta.len(),
        budget_accesses(context, tb).len() == tb.len(),
        device_accesses(context, status, tc).len() == tc.len(),
    ensures
        ({
            let s = ta + (tb + (tc + rest));
            let s1 = s.skip(record_accesses(context, status, s).len() as int);
            let s2 = s1.skip(budget_accesses(context, s1).len() as int);
            &&& s[0] == ta[0]
            &&& record_accesses(context, status, s) == record_accesses(context, status, ta)
            &&& s1 == tb + (tc + rest)
            &&& budget_accesses(context, s1) == budget_accesses(context, tb)
            &&& s2 == tc + rest
            &&& device_accesses(context, status, s2) == device_accesses(context, status, tc)
            &&& s2[0] == tc[0]
            &&& s2.skip(device_accesses(context, status, s2).len() as int) == rest
        }),
{
    let s = ta + (tb + (tc + rest));
    lemma_record_extends(context, status, ta, tb + (tc + rest));
    let s1 = s.skip(ta.len() as int);
    assert(s1 =~= tb + (tc + rest));
    lemma_budget_extends(context, tb, tc + rest);
    let s2 = s1.skip(tb.len() as int);
    assert(s2 =~= tc + rest);
    lemma_device_extends(context, status, tc, rest);
    assert(s2.skip(tc.len() as int) =~= rest);
}

proof fn lemma_dispatch_stops_at_callback(
    context: u32,
    status: u16,
    ta: Seq<MmioAccess>,
    tb: Seq<MmioAccess>,
    tc: Seq<MmioAccess>,
    td: Seq<MmioAccess>,
)
    requires
        record_accesses(context, status, ta).len() == ta.len(),
        (value_of(ta[0]) as u16) != RELEASED_TERMINAL_STATUS,
        budget_accesses(context, tb).len() == tb.len(),
        device_accesses(context, status, tc).len() == tc.len(),
        callback_accesses(context, td).len() == td.len(),
        value_of(td[1]) == 0 || (value_of(td[0]) as u8) == 0,
    ensures
        ({
            let step = dispatch_step(context, status, ta + (tb + (tc + td)));
            &&& step.0 == record_accesses(context, status, ta) + budget_accesses(context, tb)
                + device_accesses(context, status, tc) + callback_accesses(context, td)
            &&& step.1 == if value_of(td[1]) == 0 {
                CompletedContextDispatch::NoCallback
            } else {
                CompletedContextDispatch::ClassZeroCallbackOwnsReturn
            }
            &&& step.2 == td
        }),
{
    reveal(dispatch_step);
    lemma_dispatch_head(context, status, ta, tb, tc, td);
}

proof fn lemma_dispatch_returns(
    context: u32,
    status: u16,
    ta: Seq<MmioAccess>,
    tb: Seq<MmioAccess>,
    tc: Seq<MmioAccess>,
    td: Seq<MmioAccess>,
    te: Seq<MmioAccess>,
    tf: Seq<MmioAccess>,
)
    requires
        record_accesses(context, status, ta).len() == ta.len(),
        (value_of(ta[0]) as u16) != RELEASED_TERMINAL_STATUS,
        budget_accesses(context, tb).len() == tb.len(),
        device_accesses(context, status, tc).len() == tc.len(),
        callback_accesses(context, td).len() == td.len(),
        value_of(td[1]) != 0,
        (value_of(td[0]) as u8) != 0,
        retry_accesses(context, status, value_of(tc[0]) as u8, te).len() == te.len(),
    ensures
        ({
            let step = dispatch_step(context, status, ta + (tb + (tc + (td + (te + tf)))));
            &&& step.0 == record_accesses(context, status, ta) + budget_accesses(context, tb)
                + device_accesses(context, status, tc) + callback_accesses(context, td)
                + retry_accesses(context, status, value_of(tc[0]) as u8, te) + return_accesses(context, tf)
            &&& step.1 == CompletedContextDispatch::Returned
            &&& step.2[0] == td[0]
            &&& step.3 == tf
        }),
{
    reveal(dispatch_step);
    lemma_dispatch_head(context, status, ta, tb, tc, td + (te + tf));
    let s3 = td + (te + tf);
    lemma_callback_extends(context, td, te + tf);
    let s4 = s3.skip(td.len() as int);
    assert(s4 =~= te + tf);
    lemma_retry_extends(context, status, value_of(tc[0]) as u8, te, tf);
    assert(s4.skip(te.len() as int) =~= tf);
}

/// Completes `context` with `completion_status`: a context already back on
/// the free list is left alone. Otherwise its try count is saved and the
/// status recorded, a class-0 context charges a positive aggregate budget,
/// and interfaces 0 and 1 record a successful data frame in their retry
/// flags and count down their power-save countdown for a peer that asked
/// for it. Then the callback of the context's class runs, when that class
/// has one, with the callback-ownership bit set, and the completion-pending
/// event is raised. Class 0 returns its context itself; any other class has
/// its interface's retry statistics updated and its context returned to the
/// free list (see `return_completed_context`).
#[verifier::spinoff_prover]
#[verifier::rlimit(80)]
pub fn dispatch_completed_context<M: MacPipeMmio, F: FnOnce(u8, ContextAddress), G: FnOnce()>(
    mmio: &mut M,
    active_internal_contexts: &mut u8,
    context: ContextAddress,
    completion_status: u16,
    callback: F,
    service_pending_queue: G,
) -> (dispatched: CompletedContextDispatch)
    requires
        forall|class: u8| call_requires(callback, (class, context)),
        call_requires(service_pending_queue, ()),
    ensures
        ({
            let s = trace_after(final(mmio).accesses(), old(mmio).accesses().len() as int);
            let step = dispatch_step(context@, completion_status, s);
            &&& final(mmio).accesses() == old(mmio).accesses() + step.0
            &&& dispatched == step.1
            &&& dispatched !is NoCallback ==> call_ensures(callback, (value_of(step.2[0]) as u8, context), ())
            &&& dispatched is Returned && return_services_pending(step.3) ==> call_ensures(
                service_pending_queue,
                (),
                (),
            )
            &&& *final(active_internal_contexts) == if dispatched is Returned && returned_class(step.3) != 0 {
                old(active_internal_contexts).wrapping_sub(1)
            } else {
                *old(active_internal_contexts)
            }
        }),
{
    let ghost before = mmio.accesses();
    let released = record_status(mmio, context, completion_status);
    let ghost after_record = mmio.accesses();
    let ghost ta = trace_after(after_record, before.len() as int);
    if released {
        proof {
            lemma_dispatch_released(context@, completion_status, ta);
        }
        return CompletedContextDispatch::NoCallback;
    }
    charge_aggregate_budget(mmio, context);
    let ghost after_budget = mmio.accesses();
    let interface = update_interface_device(mmio, context, completion_status);
    let ghost after_device = mmio.accesses();
    let (ran, class) = run_class_callback(mmio, context, callback);
    let ghost after_callback = mmio.accesses();
    let ghost tb = trace_after(after_budget, after_record.len() as int);
    let ghost tc = trace_after(after_device, after_budget.len() as int);
    let ghost td = trace_after(after_callback, after_device.len() as int);
    if !ran || class == 0 {
        proof {
            let s = trace_after(mmio.accesses(), before.len() as int);
            assert(s =~= ta + (tb + (tc + td)));
            lemma_dispatch_stops_at_callback(context@, completion_status, ta, tb, tc, td);
            assert(mmio.accesses() =~= before + dispatch_step(context@, completion_status, s).0);
        }
        return if !ran {
            CompletedContextDispatch::NoCallback
        } else {
            CompletedContextDispatch::ClassZeroCallbackOwnsReturn
        };
    }
    update_retry_statistics(mmio, context, completion_status, interface);
    let ghost after_retry = mmio.accesses();
    return_completed_context(mmio, active_internal_contexts, context, service_pending_queue);
    proof {
        let te = trace_after(after_retry, after_callback.len() as int);
        let tf = trace_after(mmio.accesses(), after_retry.len() as int);
        let s = trace_after(mmio.accesses(), before.len() as int);
        assert(s =~= ta + (tb + (tc + (td + (te + tf)))));
        lemma_dispatch_returns(context@, completion_status, ta, tb, tc, td, te, tf);
        assert(mmio.accesses() =~= before + dispatch_step(context@, completion_status, s).0);
    }
    CompletedContextDispatch::Returned
}

/// The tracker once its callback has returned the context.
pub open spec fn returned_state(state: ProbeTxState) -> ProbeTxState {
    ProbeTxState { ownership: ProbeTxOwnership::Returned, latched_pipe: None, observed_status: None, ..state }
}

/// Runs the callback wrapper on the context of the tracked probe, whose
/// callback is running, and records `Returned` only when the wrapper
/// actually put the context back on the free list. Nothing is touched, and
/// false returned, when no callback is running.
pub fn dispatch_probe_completed_context<M: MacPipeMmio, F: FnOnce(u8, ContextAddress), G: FnOnce()>(
    mmio: &mut M,
    active_internal_contexts: &mut u8,
    tracker: &mut ProbeTxTracker,
    completion_status: u16,
    callback: F,
    service_pending_queue: G,
) -> (returned: bool)
    requires
        forall|class: u8, context: ContextAddress| call_requires(callback, (class, context)),
        call_requires(service_pending_queue, ()),
    ensures
        !(old(tracker)@.ownership is CallbackRunning) ==> {
            &&& !returned
            &&& final(tracker)@ == old(tracker)@
            &&& final(mmio).accesses() == old(mmio).accesses()
            &&& *final(active_internal_contexts) == *old(active_internal_contexts)
        },
        old(tracker)@.ownership is CallbackRunning ==> ({
            let context = ContextAddress(old(tracker)@.ownership->CallbackRunning_context);
            let s = trace_after(final(mmio).accesses(), old(mmio).accesses().len() as int);
            let step = dispatch_step(context@, completion_status, s);
            &&& final(mmio).accesses() == old(mmio).accesses() + step.0
            &&& returned == (step.1 is Returned)
            &&& final(tracker)@ == if returned {
                returned_state(old(tracker)@)
            } else {
                old(tracker)@
            }
            &&& step.1 !is NoCallback ==> call_ensures(callback, (value_of(step.2[0]) as u8, context), ())
            &&& returned && return_services_pending(step.3) ==> call_ensures(service_pending_queue, (), ())
            &&& *final(active_internal_contexts) == if returned && returned_class(step.3) != 0 {
                old(active_internal_contexts).wrapping_sub(1)
            } else {
                *old(active_internal_contexts)
            }
        }),
{
    let context = match tracker.ownership() {
        ProbeTxOwnership::CallbackRunning { context, .. } => context,
        _ => return false,
    };
    let dispatched = dispatch_completed_context(
        mmio,
        active_internal_contexts,
        ContextAddress::new(context),
        completion_status,
        callback,
        service_pending_queue,
    );
    let returned = dispatched == CompletedContextDispatch::Returned;
    tracker.try_finish_completion_callback(move |_context: u32| -> (accepted: bool)
        ensures
            accepted == returned,
        { returned })
}

/// Returns the context of the tracked probe, whose callback is running, to
/// the free list and records `Returned`. Nothing is touched, and false
/// returned, when no callback is running.
pub fn return_probe_context_after_callback<M: MacPipeMmio, G: FnOnce()>(
    mmio: &mut M,
    active_internal_contexts: &mut u8,
    tracker: &mut ProbeTxTracker,
    service_pending_queue: G,
) -> (returned: bool)
    requires
        call_requires(service_pending_queue, ()),
    ensures
        returned == old(tracker)@.ownership is CallbackRunning,
        !returned ==> {
            &&& final(tracker)@ == old(tracker)@
            &&& final(mmio).accesses() == old(mmio).accesses()
            &&& *final(active_internal_contexts) == *old(active_internal_contexts)
        },
        returned ==> ({
            let context = old(tracker)@.ownership->CallbackRunning_context;
            let s = trace_after(final(mmio).accesses(), old(mmio).accesses().len() as int);
            &&& final(mmio).accesses() == old(mmio).accesses() + return_accesses(context, s)
            &&& final(tracker)@ == returned_state(old(tracker)@)
            &&& return_services_pending(s) ==> call_ensures(service_pending_queue, (), ())
            &&& *final(active_internal_contexts) == if returned_class(s) == 0 {
                *old(active_internal_contexts)
            } else {
                old(active_internal_contexts).wrapping_sub(1)
            }
        }),
{
    let context = match tracker.ownership() {
        ProbeTxOwnership::CallbackRunning { context, .. } => context,
        _ => return false,
    };
    return_completed_context(mmio, active_internal_contexts, ContextAddress::new(context), service_pending_queue);
    tracker.finish_completion_callback(|_context: u32| {})
}

} // verus!
