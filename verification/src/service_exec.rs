//! The MAC pipe-service executor: carries out the service plan of one saved
//! scheduler word, with the random backoff of the low-nibble pipes left to
//! a policy.

use vstd::prelude::*;

use crate::mac_event::{pipe_service_plan, plan_mac_pipe_service, MacPipeServicePlan, SchedulerWord};
use crate::mmio::{rd32, rd8, trace_after, value_of, wr32, MacPipeMmio, MmioAccess};
use crate::pipe_exec::{current_slot_of, publish_current_accesses};
use crate::registers::{
    pipe_record_of, MAC_CURRENT_PIPE, PIPE_CURRENT, PIPE_IRQ_PENDING, PIPE_IRQ_TRIGGER,
    PIPE_QUANTUM, SLOT_COMMAND, SLOT_FRAME,
};

verus! {

/// Random backoff programming, owned by a policy. It cannot refuse: the
/// MAC event has been consumed by then. Each call is recorded.
pub trait TxPolicy {
    /// Every backoff programmed so far: pipe, backoff word, PAS pointer.
    /// A verified implementation defines it; the empty default only lets an
    /// implementation that Verus does not check leave it out.
    open spec fn backoffs(&self) -> Seq<(u8, u32, u32)> {
        Seq::empty()
    }

    fn program_random_backoff(&mut self, pipe: u8, backoff_word: u32, pas: u32)
        ensures
            final(self).backoffs() == old(self).backoffs().push((pipe, backoff_word, pas)),
    ;
}

/// Accesses for one low-nibble pipe: its current slot, then that slot's PAS
/// pointer and backoff command word; nothing when its bit is clear.
pub open spec fn backoff_chunk(asserted: u8, pipe: int, t: Seq<MmioAccess>) -> Seq<MmioAccess> {
    if (asserted >> (pipe as u8)) & 1u8 == 0 {
        Seq::empty()
    } else {
        let slot = current_slot_of(pipe as u8, value_of(t[0]));
        seq![
            rd8((pipe_record_of(pipe) + PIPE_CURRENT) as u32, value_of(t[0])),
            rd32((slot + SLOT_FRAME) as u32, value_of(t[1])),
            rd32((slot + SLOT_COMMAND) as u32, value_of(t[2])),
        ]
    }
}

/// The backoff programmed for one low-nibble pipe.
pub open spec fn backoff_call(asserted: u8, pipe: int, t: Seq<MmioAccess>) -> Seq<(u8, u32, u32)> {
    if (asserted >> (pipe as u8)) & 1u8 == 0 {
        Seq::empty()
    } else {
        seq![(pipe as u8, value_of(t[2]), value_of(t[1]))]
    }
}

/// Accesses of the first `n` low-nibble pipes, in order.
pub open spec fn backoff_accesses(asserted: u8, n: int, s: Seq<MmioAccess>) -> Seq<MmioAccess>
    decreases n,
{
    if n <= 0 {
        Seq::empty()
    } else {
        let before = backoff_accesses(asserted, n - 1, s);
        before + backoff_chunk(asserted, n - 1, s.skip(before.len() as int))
    }
}

/// Backoffs programmed for the first `n` low-nibble pipes, in order.
pub open spec fn backoff_calls(asserted: u8, n: int, s: Seq<MmioAccess>) -> Seq<(u8, u32, u32)>
    decreases n,
{
    if n <= 0 {
        Seq::empty()
    } else {
        backoff_calls(asserted, n - 1, s) + backoff_call(
            asserted,
            n - 1,
            s.skip(backoff_accesses(asserted, n - 1, s).len() as int),
        )
    }
}

proof fn lemma_backoff_stable(asserted: u8, n: int, s: Seq<MmioAccess>, extra: Seq<MmioAccess>)
    requires
        backoff_accesses(asserted, n, s).len() <= s.len(),
    ensures
        backoff_accesses(asserted, n, s + extra) == backoff_accesses(asserted, n, s),
        backoff_calls(asserted, n, s + extra) == backoff_calls(asserted, n, s),
    decreases n,
{
    if n > 0 {
        let before = backoff_accesses(asserted, n - 1, s);
        lemma_backoff_stable(asserted, n - 1, s, extra);
        let k = before.len() as int;
        let chunk = backoff_chunk(asserted, n - 1, s.skip(k));
        if chunk.len() > 0 {
            assert((s + extra).skip(k)[0] == s.skip(k)[0]);
            assert((s + extra).skip(k)[1] == s.skip(k)[1]);
            assert((s + extra).skip(k)[2] == s.skip(k)[2]);
        }
    }
}

/// The plan that service follows: that of the saved word and the latched
/// pipe read first.
pub open spec fn service_plan_of(word: u32, s: Seq<MmioAccess>) -> MacPipeServicePlan {
    pipe_service_plan(word, (value_of(s[0]) & 3) as u8)
}

/// Accesses of low-nibble service after the head.
pub open spec fn low_service_accesses(asserted: u8, trigger: u32, acknowledgement: u32, t: Seq<MmioAccess>) -> Seq<
    MmioAccess,
> {
    backoff_accesses(asserted, 3, t) + seq![
        wr32(PIPE_IRQ_TRIGGER, trigger),
        wr32(PIPE_IRQ_PENDING, acknowledgement),
    ]
}

/// Accesses of middle-nibble service after the head.
pub open spec fn middle_service_accesses(
    selected_pipe: u8,
    quantum_pointer_address: u32,
    trigger: u32,
    acknowledgement: u32,
    t: Seq<MmioAccess>,
) -> Seq<MmioAccess> {
    seq![
        rd32(quantum_pointer_address, value_of(t[0])),
        wr32(value_of(t[0]), PIPE_QUANTUM),
        wr32(PIPE_IRQ_TRIGGER, trigger),
    ] + publish_current_accesses(selected_pipe, t.skip(3)) + seq![
        wr32(PIPE_IRQ_PENDING, acknowledgement),
    ]
}

/// Accesses of service following `plan`, given what was read.
pub open spec fn service_accesses_for(plan: MacPipeServicePlan, s: Seq<MmioAccess>) -> Seq<
    MmioAccess,
> {
    let latched = (value_of(s[0]) & 3) as u8;
    let head = seq![rd8(MAC_CURRENT_PIPE, value_of(s[0]))] + publish_current_accesses(
        latched,
        s.skip(1),
    );
    let rest = s.skip(4);
    match plan {
        MacPipeServicePlan::NoService => head,
        MacPipeServicePlan::LowNibble { asserted, trigger, acknowledgement, .. } => head
            + low_service_accesses(asserted, trigger, acknowledgement, rest),
        MacPipeServicePlan::MiddleNibble {
            selected_pipe,
            quantum_pointer_address,
            trigger,
            acknowledgement,
        } => head + middle_service_accesses(
            selected_pipe,
            quantum_pointer_address,
            trigger,
            acknowledgement,
            rest,
        ),
        MacPipeServicePlan::HighNibble { acknowledgement, .. } => head + seq![
            wr32(PIPE_IRQ_PENDING, acknowledgement),
        ],
    }
}

/// Backoffs programmed by service following `plan`.
pub open spec fn service_backoffs_for(plan: MacPipeServicePlan, s: Seq<MmioAccess>) -> Seq<
    (u8, u32, u32),
> {
    match plan {
        MacPipeServicePlan::LowNibble { asserted, .. } => backoff_calls(asserted, 3, s.skip(4)),
        _ => Seq::empty(),
    }
}

/// Programs the random backoff of every low-nibble pipe among the first
/// three, in pipe order.
fn program_low_nibble_backoffs<M: MacPipeMmio, P: TxPolicy>(mmio: &mut M, asserted: u8, policy: &mut P)
    ensures
        ({
            let t = trace_after(final(mmio).accesses(), old(mmio).accesses().len() as int);
            &&& final(mmio).accesses() == old(mmio).accesses() + backoff_accesses(asserted, 3, t)
            &&& final(policy).backoffs() == old(policy).backoffs() + backoff_calls(asserted, 3, t)
        }),
{
    let ghost before = mmio.accesses();
    let ghost calls_before = policy.backoffs();
    let mut pipe: u8 = 0;
    while pipe < 3
        invariant
            pipe <= 3,
            before == old(mmio).accesses(),
            calls_before == old(policy).backoffs(),
            mmio.accesses().len() >= before.len(),
            mmio.accesses().subrange(0, before.len() as int) == before,
            trace_after(mmio.accesses(), before.len() as int) == backoff_accesses(
                asserted,
                pipe as int,
                trace_after(mmio.accesses(), before.len() as int),
            ),
            policy.backoffs() == calls_before + backoff_calls(
                asserted,
                pipe as int,
                trace_after(mmio.accesses(), before.len() as int),
            ),
        decreases 3 - pipe,
    {
        let ghost cur0 = trace_after(mmio.accesses(), before.len() as int);
        let ghost start = mmio.accesses();
        let ghost calls_start = policy.backoffs();
        if (asserted >> pipe) & 1 != 0 {
            let slot = crate::pipe_exec::current_slot_pub(mmio, pipe);
            let pas = mmio.read_u32(slot + SLOT_FRAME);
            let backoff_word = mmio.read_u32(slot + SLOT_COMMAND);
            policy.program_random_backoff(pipe, backoff_word, pas);
            proof {
                crate::registers::lemma_pipe_bits(pipe);
            }
        }
        proof {
            let cur1 = trace_after(mmio.accesses(), before.len() as int);
            let chunk = trace_after(mmio.accesses(), start.len() as int);
            assert(cur1 =~= cur0 + chunk);
            lemma_backoff_stable(asserted, pipe as int, cur0, chunk);
            assert(cur1.skip(cur0.len() as int) =~= chunk);
            assert(chunk =~= backoff_chunk(asserted, pipe as int, chunk));
            assert(policy.backoffs() =~= calls_start + backoff_call(asserted, pipe as int, chunk));
            assert(mmio.accesses().subrange(0, before.len() as int) =~= before);
        }
        pipe += 1;
    }
    assert(mmio.accesses() =~= before + trace_after(mmio.accesses(), before.len() as int));
}

fn serve_low_nibble<M: MacPipeMmio, P: TxPolicy>(
    mmio: &mut M,
    policy: &mut P,
    asserted: u8,
    trigger: u32,
    acknowledgement: u32,
)
    ensures
        ({
            let t = trace_after(final(mmio).accesses(), old(mmio).accesses().len() as int);
            &&& final(mmio).accesses() == old(mmio).accesses() + low_service_accesses(
                asserted,
                trigger,
                acknowledgement,
                t,
            )
            &&& final(policy).backoffs() == old(policy).backoffs() + backoff_calls(asserted, 3, t)
        }),
{
    let ghost before = mmio.accesses();
    program_low_nibble_backoffs(mmio, asserted, policy);
    let ghost ack_at = mmio.accesses();
    mmio.write_u32(PIPE_IRQ_TRIGGER, trigger);
    mmio.write_u32(PIPE_IRQ_PENDING, acknowledgement);
    proof {
        let t = trace_after(mmio.accesses(), before.len() as int);
        let marks = trace_after(ack_at, before.len() as int);
        let tail = trace_after(mmio.accesses(), ack_at.len() as int);
        assert(t =~= marks + tail);
        lemma_backoff_stable(asserted, 3, marks, tail);
    }
    assert(mmio.accesses() =~= before + trace_after(mmio.accesses(), before.len() as int));
}

fn serve_middle_nibble<M: MacPipeMmio>(
    mmio: &mut M,
    selected_pipe: u8,
    quantum_pointer_address: u32,
    trigger: u32,
    acknowledgement: u32,
)
    ensures
        final(mmio).accesses() == old(mmio).accesses() + middle_service_accesses(
            selected_pipe,
            quantum_pointer_address,
            trigger,
            acknowledgement,
            trace_after(final(mmio).accesses(), old(mmio).accesses().len() as int),
        ),
{
    let ghost before = mmio.accesses();
    let quantum_destination = mmio.read_u32(quantum_pointer_address);
    mmio.write_u32(quantum_destination, PIPE_QUANTUM);
    mmio.write_u32(PIPE_IRQ_TRIGGER, trigger);
    let ghost republish_at = mmio.accesses();
    let _ = crate::pipe_exec::publish_current_pipe_slot_pub(mmio, selected_pipe);
    let ghost ack_at = mmio.accesses();
    mmio.write_u32(PIPE_IRQ_PENDING, acknowledgement);
    proof {
        let t = trace_after(mmio.accesses(), before.len() as int);
        assert(value_of(t[0]) == quantum_destination);
        assert(t.skip(3).subrange(0, 3) =~= trace_after(ack_at, republish_at.len() as int));
        assert(t =~= middle_service_accesses(selected_pipe, quantum_pointer_address, trigger, acknowledgement, t));
    }
    assert(mmio.accesses() =~= before + trace_after(mmio.accesses(), before.len() as int));
}

/// Executes the service plan of one saved scheduler word (read once before
/// pipe service, and reused for status): publish the latched pipe's record
/// and current slot; then for the low nibble, program the backoff of each
/// asserted pipe among the first three, trigger them and acknowledge; for
/// the middle nibble, write the quantum through the selected pipe's quantum
/// pointer, trigger it, publish it as current and acknowledge; for the high
/// nibble, acknowledge.
#[verifier::spinoff_prover]
pub fn execute_mac_pipe_service<M: MacPipeMmio, P: TxPolicy>(
    mmio: &mut M,
    scheduler_word: SchedulerWord,
    policy: &mut P,
)
    ensures
        ({
            let s = trace_after(final(mmio).accesses(), old(mmio).accesses().len() as int);
            let plan = service_plan_of(scheduler_word.0, s);
            &&& final(mmio).accesses() == old(mmio).accesses() + service_accesses_for(plan, s)
            &&& final(policy).backoffs() == old(policy).backoffs() + service_backoffs_for(plan, s)
        }),
{
    let ghost before = mmio.accesses();
    let ghost calls_before = policy.backoffs();
    let latched_byte = mmio.read_u8(MAC_CURRENT_PIPE);
    let latched_pipe = latched_byte & 3;
    let ghost publish_at = mmio.accesses();
    let _ = crate::pipe_exec::publish_current_pipe_slot_pub(mmio, latched_pipe);
    let ghost plan_at = mmio.accesses();
    let plan = plan_mac_pipe_service(scheduler_word, latched_pipe);
    proof {
        crate::registers::lemma_pipe_bits(latched_byte);
    }
    let ghost head = trace_after(plan_at, before.len() as int);
    assert(head.skip(1) =~= trace_after(plan_at, publish_at.len() as int));
    match plan {
        MacPipeServicePlan::NoService => {},
        MacPipeServicePlan::LowNibble { asserted, trigger, acknowledgement, .. } => {
            serve_low_nibble(mmio, policy, asserted, trigger, acknowledgement);
        },
        MacPipeServicePlan::MiddleNibble {
            selected_pipe,
            quantum_pointer_address,
            trigger,
            acknowledgement,
        } => {
            serve_middle_nibble(mmio, selected_pipe, quantum_pointer_address, trigger, acknowledgement);
        },
        MacPipeServicePlan::HighNibble { acknowledgement, .. } => {
            mmio.write_u32(PIPE_IRQ_PENDING, acknowledgement);
        },
    }
    proof {
        let s = trace_after(mmio.accesses(), before.len() as int);
        let rest = trace_after(mmio.accesses(), plan_at.len() as int);
        assert(s =~= head + rest);
        assert(s.subrange(0, 4) =~= head);
        assert(s.skip(4) =~= rest);
        assert(service_plan_of(scheduler_word.0, s) == plan);
        assert(s =~= service_accesses_for(plan, s));
        assert(policy.backoffs() =~= calls_before + service_backoffs_for(plan, s));
    }
    assert(mmio.accesses() =~= before + trace_after(mmio.accesses(), before.len() as int));
}

} // verus!
