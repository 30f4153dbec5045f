//! The single-outstanding MAC backend's bookkeeping: which context each pipe
//! slot was published with, the bounded retry state of every slot, and the
//! class-0 completions waiting for the host.

use vstd::prelude::*;

use crate::completion::{first_full, BoundedCompletionQueue, HostClass0Completion, first_empty};
use crate::context::{
    host_context_valid, is_context, is_host_context, ContextAddress, FrameNodeAddress,
    PublishedSlotIdentity, FRAME_NODE_OFFSET,
};
use crate::mmio::{rd16, rd32, rd8, trace_after, value_of, wr16, wr32, wr8, MacPipeMmio, MmioAccess};
use crate::offset::{CONTROL_BITS, RATE_TRY, RETRY_POLICY, TRY_COUNT, TX_RATE};
use crate::packet_ram::tx_command_of;
use crate::plans::{
    pipe_slot_state_index, publication_registration_allowed, registration_allowed, retained_slot_index_of,
    retained_slot_state_index, BatchPosition, BoundedSingleTxRetry, SingleTxRetryDecision,
};
use crate::rate_retry::{exists_answer, step_answer, RateCall, RatePolicy, RateRetryStep};
use crate::registers::SLOT_KIND;

verus! {

/// Completions the backend holds for the host: the ordinary batch depth on
/// each of the four pipes.
pub const HOST_CLASS0_COMPLETION_CAPACITY: usize = 8;

/// Which of the four slots of `pipe` hold a publication.
pub open spec fn occupied_slots(publications: Seq<Option<PublishedSlotIdentity>>, pipe: u8) -> [bool; 4] {
    [
        publications[pipe * 4 + 0] is Some,
        publications[pipe * 4 + 1] is Some,
        publications[pipe * 4 + 2] is Some,
        publications[pipe * 4 + 3] is Some,
    ]
}

/// The identity recorded for `context` in `slot` of `pipe`.
pub open spec fn publication_of(context: ContextAddress, pipe: u8, slot: u8) -> PublishedSlotIdentity {
    PublishedSlotIdentity {
        context,
        frame_node: FrameNodeAddress(context@.wrapping_add(FRAME_NODE_OFFSET)),
        command: tx_command_of(pipe as int, slot as int),
        pipe,
        slot,
    }
}

/// Index of the first publication of `context` (with its own frame node) at
/// or after `start`, or 16 when there is none.
pub open spec fn publication_index_from(
    publications: Seq<Option<PublishedSlotIdentity>>,
    context: ContextAddress,
    start: int,
) -> int
    decreases 16 - start,
{
    if start < 0 || start >= 16 {
        16
    } else if publications[start] matches Some(p) && p.context == context && p.frame_node
        == FrameNodeAddress(context@.wrapping_add(FRAME_NODE_OFFSET)) {
        start
    } else {
        publication_index_from(publications, context, start + 1)
    }
}

proof fn lemma_publication_index(
    publications: Seq<Option<PublishedSlotIdentity>>,
    context: ContextAddress,
    start: int,
)
    requires
        0 <= start <= 16,
    ensures
        start <= publication_index_from(publications, context, start) <= 16,
        publication_index_from(publications, context, start) < 16 ==> (publications[publication_index_from(
            publications,
            context,
            start,
        )] matches Some(p) && p.context == context && p.frame_node == FrameNodeAddress(
            context@.wrapping_add(FRAME_NODE_OFFSET),
        )),
    decreases 16 - start,
{
    if start < 16 {
        lemma_publication_index(publications, context, start + 1);
    }
}

/// A context registered in a slot, with no other publication of it, is the
/// publication its completion finds.
pub proof fn lemma_registered_publication_is_found(
    publications: Seq<Option<PublishedSlotIdentity>>,
    context: ContextAddress,
    pipe: u8,
    slot: u8,
)
    requires
        publications.len() == 16,
        pipe < 4,
        slot < 4,
        publication_index_from(publications, context, 0) == 16,
    ensures
        publication_index_from(
            publications.update(pipe * 4 + slot, Some(publication_of(context, pipe, slot))),
            context,
            0,
        ) == pipe * 4 + slot,
{
    let index = pipe * 4 + slot;
    let updated = publications.update(index, Some(publication_of(context, pipe, slot)));
    assert forall|k: int| 0 <= k <= index implies publication_index_from(updated, context, k) == index by {
        lemma_found_from(publications, updated, context, k, index);
    }
}

proof fn lemma_found_from(
    publications: Seq<Option<PublishedSlotIdentity>>,
    updated: Seq<Option<PublishedSlotIdentity>>,
    context: ContextAddress,
    k: int,
    index: int,
)
    requires
        publications.len() == 16,
        0 <= k <= index < 16,
        updated == publications.update(index, updated[index]),
        updated[index] matches Some(p) && p.context == context && p.frame_node == FrameNodeAddress(
            context@.wrapping_add(FRAME_NODE_OFFSET),
        ),
        publication_index_from(publications, context, 0) == 16,
    ensures
        publication_index_from(updated, context, k) == index,
    decreases index - k,
{
    lemma_none_before(publications, context, 0, k);
    if k < index {
        lemma_found_from(publications, updated, context, k + 1, index);
    }
}

proof fn lemma_none_before(publications: Seq<Option<PublishedSlotIdentity>>, context: ContextAddress, start: int, k: int)
    requires
        0 <= start <= k < 16,
        publication_index_from(publications, context, start) == 16,
    ensures
        publication_index_from(publications, context, k) == 16,
        !(publications[k] matches Some(p) && p.context == context && p.frame_node == FrameNodeAddress(
            context@.wrapping_add(FRAME_NODE_OFFSET),
        )),
    decreases k - start,
{
    if start < k {
        lemma_none_before(publications, context, start + 1, k);
    }
}

/// Why a completed context could not be recorded. The firmware treats both
/// as fatal.
#[derive(Clone, Copy, Debug, PartialEq, Eq, Structural)]
pub enum CompletionRecordError {
    /// No slot was published with this context.
    NotPublished,
    /// The completion queue is full.
    QueueFull,
}

pub struct SingleProbeMacBackend {
    retry: [BoundedSingleTxRetry; 16],
    mismatch: [u8; 4],
    selective_retry: [Option<FrameNodeAddress>; 16],
    partial_give_up: [Option<(FrameNodeAddress, FrameNodeAddress)>; 16],
    publications: [Option<PublishedSlotIdentity>; 16],
    completed: BoundedCompletionQueue<HostClass0Completion, HOST_CLASS0_COMPLETION_CAPACITY>,
}

impl SingleProbeMacBackend {
    #[verifier::type_invariant]
    spec fn publications_in_range(self) -> bool {
        forall|i: int|
            0 <= i < 16 ==> (#[trigger] self.publications@[i] matches Some(p) ==> p.pipe < 4 && p.slot < 4)
    }

    /// Retry state of each pipe slot, indexed `pipe * 4 + slot`.
    pub closed spec fn retry_states(self) -> Seq<BoundedSingleTxRetry> {
        self.retry@
    }

    /// Status-mismatch count of each pipe.
    pub closed spec fn mismatches(self) -> Seq<u8> {
        self.mismatch@
    }

    /// Member chosen for a selective A-MPDU retry, per pipe slot.
    pub closed spec fn selective_retries(self) -> Seq<Option<FrameNodeAddress>> {
        self.selective_retry@
    }

    /// Confirmed and given-up members of a partial A-MPDU result, per pipe
    /// slot.
    pub closed spec fn partial_give_ups(self) -> Seq<Option<(FrameNodeAddress, FrameNodeAddress)>> {
        self.partial_give_up@
    }

    /// Publication of each pipe slot, indexed `pipe * 4 + slot`.
    pub closed spec fn publications(self) -> Seq<Option<PublishedSlotIdentity>> {
        self.publications@
    }

    /// Completions waiting for the host, entry by entry.
    pub closed spec fn completions(self) -> Seq<Option<HostClass0Completion>> {
        self.completed.view_entries()
    }

    /// A backend with nothing published, every retry state fresh with
    /// `max_retries`, and no completion waiting.
    pub fn new(max_retries: u8) -> (backend: Self)
        ensures
            backend.retry_states().len() == 16,
            forall|i: int|
                0 <= i < 16 ==> (#[trigger] backend.retry_states()[i]).attempt_count() == 0
                    && backend.retry_states()[i].retry_limit() == max_retries,
            backend.mismatches() == Seq::new(4, |i: int| 0u8),
            backend.selective_retries() == Seq::new(16, |i: int| None::<FrameNodeAddress>),
            backend.partial_give_ups() == Seq::new(16, |i: int| None::<(FrameNodeAddress, FrameNodeAddress)>),
            backend.publications() == Seq::new(16, |i: int| None::<PublishedSlotIdentity>),
            backend.completions() == Seq::new(HOST_CLASS0_COMPLETION_CAPACITY as nat, |i: int| None::<HostClass0Completion>),
    {
        let fresh = BoundedSingleTxRetry::new(max_retries);
        let backend = SingleProbeMacBackend {
            retry: [fresh; 16],
            mismatch: [0u8; 4],
            selective_retry: [None; 16],
            partial_give_up: [None; 16],
            publications: [None; 16],
            completed: BoundedCompletionQueue::new(),
        };
        assert(backend.retry@ =~= Seq::new(16, |i: int| fresh));
        assert(backend.mismatch@ =~= Seq::new(4, |i: int| 0u8));
        assert(backend.selective_retry@ =~= Seq::new(16, |i: int| None::<FrameNodeAddress>));
        assert(backend.partial_give_up@ =~= Seq::new(16, |i: int| None::<(FrameNodeAddress, FrameNodeAddress)>));
        assert(backend.publications@ =~= Seq::new(16, |i: int| None::<PublishedSlotIdentity>));
        backend
    }

    /// Records that `context` is published in `slot` of `pipe` at `batch`
    /// position, when the identity is valid and the batch rules allow it
    /// (see `registration_allowed`). The slot's retry state is reset and its
    /// A-MPDU results cleared; the first publication of a batch also clears
    /// the pipe's mismatch count. Returns false, changing nothing, otherwise.
    pub fn register_publication(
        &mut self,
        batch: BatchPosition,
        context: ContextAddress,
        pipe: u8,
        slot: u8,
    ) -> (registered: bool)
        ensures
            registered == (pipe < 4 && slot < 4 && is_context(context@) && registration_allowed(
                occupied_slots(old(self).publications(), pipe),
                batch,
                slot,
            )),
            !registered ==> final(self).retry_states() == old(self).retry_states()
                && final(self).mismatches() == old(self).mismatches()
                && final(self).selective_retries() == old(self).selective_retries()
                && final(self).partial_give_ups() == old(self).partial_give_ups()
                && final(self).publications() == old(self).publications()
                && final(self).completions() == old(self).completions(),
            registered ==> ({
                let index = pipe * 4 + slot;
                &&& final(self).retry_states() == old(self).retry_states().update(
                    index,
                    old(self).retry_states()[index].restarted(),
                )
                &&& final(self).mismatches() == if batch is Only || batch is First {
                    old(self).mismatches().update(pipe as int, 0)
                } else {
                    old(self).mismatches()
                }
                &&& final(self).selective_retries() == old(self).selective_retries().update(index, None)
                &&& final(self).partial_give_ups() == old(self).partial_give_ups().update(index, None)
                &&& final(self).publications() == old(self).publications().update(
                    index,
                    Some(publication_of(context, pipe, slot)),
                )
                &&& final(self).completions() == old(self).completions()
            }),
    {
        proof {
            use_type_invariant(&*self);
        }
        let publication = match PublishedSlotIdentity::new(context, pipe, slot) {
            Some(publication) => publication,
            None => {
                return false;
            },
        };
        let pipe_index = pipe as usize;
        let retry_index = match pipe_slot_state_index(pipe, slot) {
            Some(index) => index,
            None => {
                return false;
            },
        };
        let base = pipe_index * 4;
        let occupied = [
            self.publications[base].is_some(),
            self.publications[base + 1].is_some(),
            self.publications[base + 2].is_some(),
            self.publications[base + 3].is_some(),
        ];
        assert(occupied@ =~= occupied_slots(self.publications@, pipe)@);
        if !publication_registration_allowed(occupied, batch, slot) {
            return false;
        }
        let mut retry = self.retry[retry_index];
        retry.reset();
        self.retry[retry_index] = retry;
        self.selective_retry[retry_index] = None;
        self.partial_give_up[retry_index] = None;
        match batch {
            BatchPosition::Only | BatchPosition::First => {
                self.mismatch[pipe_index] = 0;
            },
            _ => {},
        }
        self.publications[retry_index] = Some(publication);
        true
    }

    fn publication_index(&self, context: ContextAddress) -> (index: usize)
        ensures
            index == publication_index_from(self.publications(), context, 0),
    {
        let frame_node = context.frame_node();
        let mut index: usize = 0;
        while index < 16
            invariant
                index <= 16,
                frame_node@ == context@.wrapping_add(FRAME_NODE_OFFSET),
                publication_index_from(self.publications@, context, 0) == publication_index_from(
                    self.publications@,
                    context,
                    index as int,
                ),
            decreases 16 - index,
        {
            match self.publications[index] {
                Some(publication) => {
                    if publication.context.raw() == context.raw() && publication.frame_node.raw()
                        == frame_node.raw() {
                        return index;
                    }
                },
                None => {},
            }
            index = index + 1;
        }
        index
    }

    /// Records that the published `context` completed with `status`: its
    /// publication is removed and a class-0 completion queued for the host.
    /// The acknowledgement failures are the host context's try count
    /// (`host_try_count`, capped at 255) or, for an internal context, the
    /// slot's retry attempts. Fails, changing nothing, when no slot was
    /// published with this context or the queue is full.
    pub fn record_completed_context(
        &mut self,
        context: ContextAddress,
        status: u16,
        host_try_count: u16,
    ) -> (recorded: Result<(), CompletionRecordError>)
        ensures
            ({
                let index = publication_index_from(old(self).publications(), context, 0);
                let at = first_empty(old(self).completions());
                if index >= 16 {
                    &&& recorded == Err::<(), CompletionRecordError>(CompletionRecordError::NotPublished)
                    &&& final(self).publications() == old(self).publications()
                    &&& final(self).completions() == old(self).completions()
                } else if at >= HOST_CLASS0_COMPLETION_CAPACITY {
                    &&& recorded == Err::<(), CompletionRecordError>(CompletionRecordError::QueueFull)
                    &&& final(self).publications() == old(self).publications().update(index, None)
                    &&& final(self).completions() == old(self).completions()
                } else {
                    let publication = old(self).publications()[index]->0;
                    let ack_failures = if is_host_context(context@) {
                        if host_try_count > 255 { 255u8 } else { host_try_count as u8 }
                    } else {
                        old(self).retry_states()[publication.pipe * 4 + publication.slot].attempt_count()
                    };
                    &&& recorded == Ok::<(), CompletionRecordError>(())
                    &&& final(self).publications() == old(self).publications().update(index, None)
                    &&& final(self).completions() == old(self).completions().update(
                        at,
                        Some(
                            HostClass0Completion {
                                context: context@,
                                frame_node: publication.frame_node@,
                                pipe: publication.pipe,
                                slot: publication.slot,
                                status,
                                ack_failures,
                            },
                        ),
                    )
                }
            }),
            final(self).retry_states() == old(self).retry_states(),
            final(self).mismatches() == old(self).mismatches(),
            final(self).selective_retries() == old(self).selective_retries(),
            final(self).partial_give_ups() == old(self).partial_give_ups(),
    {
        proof {
            use_type_invariant(&*self);
        }
        let index = self.publication_index(context);
        proof {
            lemma_publication_index(self.publications@, context, 0);
        }
        if index >= 16 {
            return Err(CompletionRecordError::NotPublished);
        }
        let publication = match self.publications[index] {
            Some(publication) => publication,
            None => {
                return Err(CompletionRecordError::NotPublished);
            },
        };
        self.publications[index] = None;
        let ack_failures = if host_context_valid(context.raw()) {
            if host_try_count > 255 {
                255u8
            } else {
                host_try_count as u8
            }
        } else {
            let retry_index = publication.pipe as usize * 4 + publication.slot as usize;
            self.retry[retry_index].attempts()
        };
        let mut queue = BoundedCompletionQueue::new();
        core::mem::swap(&mut queue, &mut self.completed);
        let pushed = queue.push(
            HostClass0Completion {
                context: context.raw(),
                frame_node: publication.frame_node.raw(),
                pipe: publication.pipe,
                slot: publication.slot,
                status,
                ack_failures,
            },
        );
        core::mem::swap(&mut queue, &mut self.completed);
        match pushed {
            Ok(()) => Ok(()),
            Err(_) => Err(CompletionRecordError::QueueFull),
        }
    }

    /// Hands the host the oldest waiting completion (the first full entry).
    pub fn take_completion(&mut self) -> (completion: Option<HostClass0Completion>)
        ensures
            ({
                let at = first_full(old(self).completions());
                if at < HOST_CLASS0_COMPLETION_CAPACITY {
                    &&& completion == old(self).completions()[at]
                    &&& final(self).completions() == old(self).completions().update(at, None)
                } else {
                    &&& completion is None
                    &&& final(self).completions() == old(self).completions()
                }
            }),
            final(self).retry_states() == old(self).retry_states(),
            final(self).publications() == old(self).publications(),
            final(self).mismatches() == old(self).mismatches(),
    {
        proof {
            use_type_invariant(&*self);
        }
        let mut queue = BoundedCompletionQueue::new();
        core::mem::swap(&mut queue, &mut self.completed);
        let completion = queue.take();
        core::mem::swap(&mut queue, &mut self.completed);
        completion
    }
}


/// Rate-try words of a context: one word of four-bit try counts per group
/// of eight rates.
pub const RATE_TRY_WORDS: u8 = 3;

/// A single-frame retry decision for the slot whose retry state is
/// `index`, given the values read and the rate policy's answers: a kind-1
/// slot waits for its BlockAck; a frame of no host context, of a rate with
/// no try word, or under no rate policy takes the bounded decision; any
/// other counts the try at its rate and follows the policy, which gives up
/// or re-arms, perhaps at a new rate, counting the try and the re-arm.
pub open spec fn single_retry_step(
    retry: Seq<BoundedSingleTxRetry>,
    index: int,
    slot: u32,
    node: u32,
    t: Seq<MmioAccess>,
    r: Seq<RateCall>,
) -> (Seq<MmioAccess>, Seq<RateCall>, SingleTxRetryDecision, Seq<BoundedSingleTxRetry>) {
    let kind = value_of(t[0]);
    let read_kind = seq![rd8(slot.wrapping_add(SLOT_KIND), kind)];
    let current = retry[index];
    let bounded = current.decided();
    let fallback_state = retry.update(index, bounded.1);
    let context = node.wrapping_sub(FRAME_NODE_OFFSET);
    if kind as u8 == 1 {
        (read_kind, Seq::empty(), SingleTxRetryDecision::AwaitBlockAck, retry)
    } else if !is_host_context(context) {
        (read_kind, Seq::empty(), bounded.0, fallback_state)
    } else {
        let rate = value_of(t[1]) as u8;
        let read_rate = read_kind.push(rd8(context.wrapping_add(TX_RATE), value_of(t[1])));
        if rate >> 3u8 >= RATE_TRY_WORDS {
            (read_rate, Seq::empty(), bounded.0, fallback_state)
        } else {
            let field = context.wrapping_add(RATE_TRY).wrapping_add((((rate >> 3u8) as u32) * 4) as u32);
            let shift = (((rate % 8) as u32) * 4) as u32;
            let status = value_of(t[2]);
            let attempts = (status >> shift) & 0x0f;
            let counted = read_rate.push(rd32(field, status)) + if attempts < 0x0f {
                seq![wr32(field, (status & !(0x0fu32 << shift)) | (((attempts + 1) as u32) << shift))]
            } else {
                Seq::empty()
            };
            let k = counted.len() as int;
            let policy = value_of(t[k]) as u8;
            let read_policy = counted.push(rd8(context.wrapping_add(RETRY_POLICY), value_of(t[k])));
            let exists = exists_answer(r);
            let asked = seq![RateCall::PolicyExists { policy, exists }];
            if !exists {
                (read_policy, asked, bounded.0, fallback_state)
            } else {
                let try_count = value_of(t[k + 1]) as u16;
                let flags = value_of(t[k + 2]);
                let long_frame = (flags & 0x7ff) >> 9u32 != 0;
                let step = step_answer(r.skip(1));
                let inputs = read_policy + seq![
                    rd16(context.wrapping_add(TRY_COUNT), value_of(t[k + 1])),
                    rd32(context.wrapping_add(CONTROL_BITS), flags),
                ];
                let calls = asked.push(RateCall::RetryStep { policy, rate, try_count, long_frame, step });
                match step {
                    RateRetryStep::GiveUp => (inputs, calls, SingleTxRetryDecision::GiveUp, retry),
                    RateRetryStep::Rearm { rate: next } => {
                        let changed = next != rate && (flags & 0x20 == 0 || next > 13);
                        let first = flags & 0x10 == 0;
                        let lowered: u32 = if changed && rate > 3 && next < 4 {
                            0x0004_0000
                        } else {
                            0
                        };
                        let rate_write = if changed {
                            seq![wr8(context.wrapping_add(TX_RATE), next as u32)]
                        } else {
                            Seq::empty()
                        };
                        let control = if first || changed {
                            rate_write.push(wr32(context.wrapping_add(CONTROL_BITS), flags | 0x10 | 0x0008_0000 | lowered))
                        } else {
                            Seq::empty()
                        };
                        (
                            inputs + control + seq![wr16(context.wrapping_add(TRY_COUNT), try_count.wrapping_add(1) as u32)],
                            calls,
                            SingleTxRetryDecision::Rearm,
                            retry.update(index, current.rearmed()),
                        )
                    },
                }
            }
        }
    }
}

impl SingleProbeMacBackend {
    /// Decides what follows a failed try of the single frame in `slot` of
    /// `pipe`, as `single_retry_step` says, updating the slot's retry state.
    #[verifier::spinoff_prover]
    #[verifier::rlimit(60)]
    pub fn decide_single_retry<M: MacPipeMmio, R: RatePolicy>(
        &mut self,
        mmio: &mut M,
        rates: &mut R,
        pipe: u8,
        slot: u32,
        frame_node: FrameNodeAddress,
    ) -> (decision: SingleTxRetryDecision)
        requires
            retained_slot_index_of(pipe, slot) is Some,
        ensures
            ({
                let t = trace_after(final(mmio).accesses(), old(mmio).accesses().len() as int);
                let r = final(rates).calls().skip(old(rates).calls().len() as int);
                let index = retained_slot_index_of(pipe, slot)->0 as int;
                let step = single_retry_step(old(self).retry_states(), index, slot, frame_node@, t, r);
                &&& final(mmio).accesses() == old(mmio).accesses() + step.0
                &&& final(rates).calls() == old(rates).calls() + step.1
                &&& decision == step.2
                &&& final(self).retry_states() == step.3
            }),
            final(self).mismatches() == old(self).mismatches(),
            final(self).selective_retries() == old(self).selective_retries(),
            final(self).partial_give_ups() == old(self).partial_give_ups(),
            final(self).publications() == old(self).publications(),
            final(self).completions() == old(self).completions(),
    {
        proof {
            use_type_invariant(&*self);
        }
        let ghost before = mmio.accesses();
        let ghost calls_before = rates.calls();
        let ghost retry_before = self.retry@;
        let index = match retained_slot_state_index(pipe, slot) {
            Some(index) => index,
            None => {
                proof {
                    assert(false);
                }
                return SingleTxRetryDecision::GiveUp;
            },
        };
        assert(index < 16);
        let kind = mmio.read_u8(slot.wrapping_add(SLOT_KIND));
        if kind == 1 {
            proof {
                let t = trace_after(mmio.accesses(), before.len() as int);
                assert(value_of(t[0]) == kind as u32);
                assert(mmio.accesses() =~= before + single_retry_step(retry_before, index as int, slot, frame_node@, t, rates.calls().skip(calls_before.len() as int)).0);
                assert(rates.calls() =~= calls_before + Seq::empty());
            }
            return SingleTxRetryDecision::AwaitBlockAck;
        }
        let context = frame_node.context();
        let mut fallback = !host_context_valid(context.0);
        let mut rate: u8 = 0;
        let mut status: u32 = 0;
        let mut policy: u8 = 0;
        if !fallback {
            rate = mmio.read_u8(context.field_address(TX_RATE));
            fallback = rate >> 3u8 >= RATE_TRY_WORDS;
        }
        let ghost read_rate = mmio.accesses();
        if !fallback {
            let field = context.field_address(RATE_TRY).wrapping_add((rate >> 3u8) as u32 * 4);
            let shift = (rate % 8) as u32 * 4;
            status = mmio.read_u32(field);
            let attempts = (status >> shift) & 0x0f;
            if attempts < 0x0f {
                mmio.write_u32(field, (status & !(0x0fu32 << shift)) | (attempts + 1) << shift);
            }
            policy = mmio.read_u8(context.field_address(RETRY_POLICY));
            fallback = !rates.policy_exists(policy);
        }
        if fallback {
            let mut retry = self.retry[index];
            let decision = retry.decide();
            self.retry[index] = retry;
            proof {
                let t = trace_after(mmio.accesses(), before.len() as int);
                let r = rates.calls().skip(calls_before.len() as int);
                assert(value_of(t[0]) == kind as u32);
                if is_host_context(context@) {
                    assert(value_of(t[1]) == rate as u32);
                    if rate >> 3u8 < RATE_TRY_WORDS {
                        assert(value_of(t[2]) == status);
                        let shift = (rate % 8) as u32 * 4;
                        let attempts = (status >> shift) & 0x0f;
                        let k: int = if attempts < 0x0f { 4 } else { 3 };
                        assert(value_of(t[k]) == policy as u32);
                        assert(r[0] == rates.calls()[calls_before.len() as int]);
                    }
                }
                assert(self.retry@ =~= retry_before.update(index as int, retry_before[index as int].decided().1));
                assert(mmio.accesses() =~= before + single_retry_step(retry_before, index as int, slot, frame_node@, t, r).0);
                assert(rates.calls() =~= calls_before + single_retry_step(retry_before, index as int, slot, frame_node@, t, r).1);
            }
            return decision;
        }
        let ghost asked = rates.calls();
        let try_count = mmio.read_u16(context.field_address(TRY_COUNT));
        let flags = mmio.read_u32(context.field_address(CONTROL_BITS));
        let long_frame = (flags & 0x7ff) >> 9u32 != 0;
        let step = rates.retry_step(policy, rate, try_count, long_frame);
        let decision = match step {
            RateRetryStep::GiveUp => SingleTxRetryDecision::GiveUp,
            RateRetryStep::Rearm { rate: next } => {
                let changed = next != rate && (flags & 0x20 == 0 || next > 13);
                let first = flags & 0x10 == 0;
                if first || changed {
                    if changed {
                        mmio.write_u8(context.field_address(TX_RATE), next);
                    }
                    let lowered: u32 = if changed && rate > 3 && next < 4 {
                        0x0004_0000
                    } else {
                        0
                    };
                    mmio.write_u32(context.field_address(CONTROL_BITS), flags | 0x10 | 0x0008_0000 | lowered);
                }
                mmio.write_u16(context.field_address(TRY_COUNT), try_count.wrapping_add(1));
                let mut retry = self.retry[index];
                retry.record_rearm();
                self.retry[index] = retry;
                SingleTxRetryDecision::Rearm
            },
        };
        proof {
            let t = trace_after(mmio.accesses(), before.len() as int);
            let r = rates.calls().skip(calls_before.len() as int);
            assert(value_of(t[0]) == kind as u32);
            assert(value_of(t[1]) == rate as u32);
            assert(value_of(t[2]) == status);
            let shift = (rate % 8) as u32 * 4;
            let attempts = (status >> shift) & 0x0f;
            let k: int = if attempts < 0x0f { 4 } else { 3 };
            assert(value_of(t[k]) == policy as u32);
            assert(value_of(t[k + 1]) == try_count as u32);
            assert(value_of(t[k + 2]) == flags);
            assert(r[0] == rates.calls()[calls_before.len() as int]);
            assert(r.skip(1)[0] == rates.calls()[asked.len() as int]);
            assert(step_answer(r.skip(1)) == step);
            if step is Rearm {
                assert(self.retry@ =~= retry_before.update(index as int, retry_before[index as int].rearmed()));
            } else {
                assert(self.retry@ =~= retry_before);
            }
            assert(mmio.accesses() =~= before + single_retry_step(retry_before, index as int, slot, frame_node@, t, r).0);
            assert(rates.calls() =~= calls_before + single_retry_step(retry_before, index as int, slot, frame_node@, t, r).1);
        }
        decision
    }
}

} // verus!
