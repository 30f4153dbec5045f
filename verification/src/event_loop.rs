//! The bounded MAC event loop: pop events from the FIFO and apply each
//! event's effects in dispatch order, within a budget, and the executor of
//! one popped event.

use vstd::prelude::*;

use crate::mac_event::{
    decoded_event, pipe_index_of, plan_effects, MacEvent, MacEventEffect, MacEventLoopReport,
    MacEventStopReason, SchedulerWord,
};

verus! {

/// One call made on a MAC event backend, with what it returned.
#[derive(Clone, Copy, Debug, PartialEq, Eq, Structural)]
pub enum MacEventBackendCall {
    PopEvent(i32),
    Readiness(i32),
    ApplyEffect(MacEvent, MacEventEffect),
    DrainTail,
}

/// Destructive FIFO access and infallible effect execution. Once
/// `pop_event` returned a word, no effect may be refused or deferred. Each
/// call is recorded in `calls`.
pub trait MacEventBackend {
    /// Every call made so far, oldest first.
    /// A verified implementation defines it; the empty default only lets an
    /// implementation that Verus does not check leave it out.
    open spec fn calls(&self) -> Seq<MacEventBackendCall> {
        Seq::empty()
    }

    fn pop_event(&mut self) -> (raw: i32)
        ensures
            final(self).calls() == old(self).calls().push(MacEventBackendCall::PopEvent(raw)),
    ;

    fn readiness(&mut self) -> (ready: i32)
        ensures
            final(self).calls() == old(self).calls().push(MacEventBackendCall::Readiness(ready)),
    ;

    fn apply_effect(&mut self, event: MacEvent, effect: MacEventEffect)
        ensures
            final(self).calls() == old(self).calls().push(
                MacEventBackendCall::ApplyEffect(event, effect),
            ),
    ;

    fn drain_tail(&mut self)
        ensures
            final(self).calls() == old(self).calls().push(MacEventBackendCall::DrainTail),
    ;
}

/// The word a pop or readiness call returned.
pub open spec fn returned(call: MacEventBackendCall) -> i32 {
    match call {
        MacEventBackendCall::PopEvent(raw) => raw,
        MacEventBackendCall::Readiness(ready) => ready,
        _ => 0,
    }
}

/// The calls that apply every effect of `event`, in order.
pub open spec fn applied(event: MacEvent) -> Seq<MacEventBackendCall> {
    plan_effects(event).map_values(
        |effect: MacEventEffect| MacEventBackendCall::ApplyEffect(event, effect),
    )
}

/// The calls of the loop after `processed` events, given what the backend
/// returned: pop a word; an empty word runs the drain tail and ends; an
/// event has its effects applied and ends the loop when fatal or when the
/// budget is spent; otherwise readiness is read, and a negative readiness
/// runs the drain tail and ends.
#[verifier::opaque]
pub open spec fn event_loop_calls(max: u32, processed: u32, t: Seq<MacEventBackendCall>) -> Seq<
    MacEventBackendCall,
>
    decreases max - processed,
{
    if processed >= max {
        Seq::empty()
    } else {
        let raw = returned(t[0]);
        let pop = seq![MacEventBackendCall::PopEvent(raw)];
        if (raw as u32) & 0x8000_0000 != 0 {
            pop.push(MacEventBackendCall::DrainTail)
        } else {
            let event = decoded_event(raw as u32);
            let effects = pop + applied(event);
            if event.fatal_marker || processed + 1 == max {
                effects
            } else {
                let ready = returned(t[effects.len() as int]);
                if ready < 0 {
                    effects + seq![
                        MacEventBackendCall::Readiness(ready),
                        MacEventBackendCall::DrainTail,
                    ]
                } else {
                    effects.push(MacEventBackendCall::Readiness(ready)) + event_loop_calls(
                        max,
                        (processed + 1) as u32,
                        t.skip(effects.len() as int + 1),
                    )
                }
            }
        }
    }
}

/// The loop's report after `processed` events, given what the backend
/// returned.
#[verifier::opaque]
pub open spec fn event_loop_report(max: u32, processed: u32, t: Seq<MacEventBackendCall>) -> MacEventLoopReport
    decreases max - processed,
{
    if processed >= max {
        MacEventLoopReport {
            processed,
            stop: MacEventStopReason::BudgetExhausted,
            reschedule_required: true,
        }
    } else {
        let raw = returned(t[0]);
        if (raw as u32) & 0x8000_0000 != 0 {
            MacEventLoopReport { processed, stop: MacEventStopReason::Empty, reschedule_required: false }
        } else {
            let event = decoded_event(raw as u32);
            let effects_len = 1 + applied(event).len();
            if event.fatal_marker {
                MacEventLoopReport {
                    processed: (processed + 1) as u32,
                    stop: MacEventStopReason::Fatal,
                    reschedule_required: false,
                }
            } else if processed + 1 == max {
                MacEventLoopReport {
                    processed: (processed + 1) as u32,
                    stop: MacEventStopReason::BudgetExhausted,
                    reschedule_required: true,
                }
            } else if returned(t[effects_len as int]) < 0 {
                MacEventLoopReport {
                    processed: (processed + 1) as u32,
                    stop: MacEventStopReason::Empty,
                    reschedule_required: false,
                }
            } else {
                event_loop_report(max, (processed + 1) as u32, t.skip(effects_len as int + 1))
            }
        }
    }
}

/// One non-final event: the loop's calls and report after it continue
/// with those of the next event.
proof fn lemma_loop_step(
    max: u32,
    processed: u32,
    raw: i32,
    ready: i32,
    e: Seq<MacEventBackendCall>,
)
    requires
        processed + 1 < max,
        (raw as u32) & 0x8000_0000 == 0,
        !decoded_event(raw as u32).fatal_marker,
        ready >= 0,
    ensures
        ({
            let chunk = (seq![MacEventBackendCall::PopEvent(raw)] + applied(decoded_event(raw as u32))).push(
                MacEventBackendCall::Readiness(ready),
            );
            &&& event_loop_calls(max, processed, chunk + e) == chunk + event_loop_calls(
                max,
                (processed + 1) as u32,
                e,
            )
            &&& event_loop_report(max, processed, chunk + e) == event_loop_report(
                max,
                (processed + 1) as u32,
                e,
            )
        }),
{
    reveal(event_loop_calls);
    reveal(event_loop_report);
    let event = decoded_event(raw as u32);
    let chunk = (seq![MacEventBackendCall::PopEvent(raw)] + applied(event)).push(
        MacEventBackendCall::Readiness(ready),
    );
    let whole = chunk + e;
    assert(whole[0] == MacEventBackendCall::PopEvent(raw));
    assert(whole[1 + applied(event).len() as int] == MacEventBackendCall::Readiness(ready));
    assert(whole.skip(chunk.len() as int) =~= e);
}

/// An empty word ends the loop with the drain tail.
proof fn lemma_loop_empty(max: u32, processed: u32, raw: i32, e: Seq<MacEventBackendCall>)
    requires
        processed < max,
        (raw as u32) & 0x8000_0000 != 0,
    ensures
        ({
            let chunk = seq![MacEventBackendCall::PopEvent(raw), MacEventBackendCall::DrainTail];
            &&& event_loop_calls(max, processed, chunk + e) == chunk
            &&& event_loop_report(max, processed, chunk + e) == (MacEventLoopReport {
                processed,
                stop: MacEventStopReason::Empty,
                reschedule_required: false,
            })
        }),
{
    reveal(event_loop_calls);
    reveal(event_loop_report);
    let chunk = seq![MacEventBackendCall::PopEvent(raw), MacEventBackendCall::DrainTail];
    assert((chunk + e)[0] == MacEventBackendCall::PopEvent(raw));
    assert(seq![MacEventBackendCall::PopEvent(raw)].push(MacEventBackendCall::DrainTail) =~= chunk);
}

/// A fatal event, or the last one the budget allows, ends the loop after
/// its effects.
proof fn lemma_loop_stop(max: u32, processed: u32, raw: i32, e: Seq<MacEventBackendCall>)
    requires
        processed < max,
        (raw as u32) & 0x8000_0000 == 0,
        decoded_event(raw as u32).fatal_marker || processed + 1 == max,
    ensures
        ({
            let event = decoded_event(raw as u32);
            let chunk = seq![MacEventBackendCall::PopEvent(raw)] + applied(event);
            &&& event_loop_calls(max, processed, chunk + e) == chunk
            &&& event_loop_report(max, processed, chunk + e) == if event.fatal_marker {
                MacEventLoopReport {
                    processed: (processed + 1) as u32,
                    stop: MacEventStopReason::Fatal,
                    reschedule_required: false,
                }
            } else {
                MacEventLoopReport {
                    processed: (processed + 1) as u32,
                    stop: MacEventStopReason::BudgetExhausted,
                    reschedule_required: true,
                }
            }
        }),
{
    reveal(event_loop_calls);
    reveal(event_loop_report);
    let event = decoded_event(raw as u32);
    let chunk = seq![MacEventBackendCall::PopEvent(raw)] + applied(event);
    assert((chunk + e)[0] == MacEventBackendCall::PopEvent(raw));
}

/// A negative readiness after an event ends the loop with the drain tail.
proof fn lemma_loop_not_ready(max: u32, processed: u32, raw: i32, ready: i32, e: Seq<MacEventBackendCall>)
    requires
        processed + 1 < max,
        (raw as u32) & 0x8000_0000 == 0,
        !decoded_event(raw as u32).fatal_marker,
        ready < 0,
    ensures
        ({
            let event = decoded_event(raw as u32);
            let chunk = (seq![MacEventBackendCall::PopEvent(raw)] + applied(event)) + seq![
                MacEventBackendCall::Readiness(ready),
                MacEventBackendCall::DrainTail,
            ];
            &&& event_loop_calls(max, processed, chunk + e) == chunk
            &&& event_loop_report(max, processed, chunk + e) == (MacEventLoopReport {
                processed: (processed + 1) as u32,
                stop: MacEventStopReason::Empty,
                reschedule_required: false,
            })
        }),
{
    reveal(event_loop_calls);
    reveal(event_loop_report);
    let event = decoded_event(raw as u32);
    let chunk = (seq![MacEventBackendCall::PopEvent(raw)] + applied(event)) + seq![
        MacEventBackendCall::Readiness(ready),
        MacEventBackendCall::DrainTail,
    ];
    assert((chunk + e)[0] == MacEventBackendCall::PopEvent(raw));
    assert((chunk + e)[1 + applied(event).len() as int] == MacEventBackendCall::Readiness(ready));
}

/// Applies every planned effect of `event`, in order.
fn apply_event_effects<B: MacEventBackend>(backend: &mut B, event: MacEvent)
    ensures
        final(backend).calls() == old(backend).calls() + applied(event),
{
    let ghost before = backend.calls();
    let plan = event.dispatch_plan();
    let effects = plan.effects();
    let mut index: usize = 0;
    while index < effects.len()
        invariant
            effects@ == plan_effects(event).map_values(|effect: MacEventEffect| Some(effect)),
            index <= effects@.len(),
            backend.calls() == before + applied(event).take(index as int),
        decreases effects@.len() - index,
    {
        let effect = match effects[index] {
            Some(effect) => effect,
            None => {
                assert(false);
                return;
            },
        };
        backend.apply_effect(event, effect);
        assert(applied(event).take(index as int + 1) =~= applied(event).take(index as int).push(
            MacEventBackendCall::ApplyEffect(event, effect),
        ));
        index += 1;
    }
    assert(applied(event).take(index as int) =~= applied(event));
}

/// The bounded event loop, with budget `max_events`. With no budget
/// nothing is read. Otherwise events are popped and their effects applied
/// (see `event_loop_calls`); the loop stops, in this order of checks, at an
/// empty word (running the drain tail), after a fatal event, when the
/// budget is spent (before any further readiness read or pop, and without
/// the drain tail), or at a negative readiness (running the drain tail).
pub fn service_mac_event_backend<B: MacEventBackend>(backend: &mut B, max_events: u32) -> (report:
    MacEventLoopReport)
    ensures
        ({
            let t = final(backend).calls().skip(old(backend).calls().len() as int);
            &&& final(backend).calls() == old(backend).calls() + event_loop_calls(max_events, 0, t)
            &&& report == event_loop_report(max_events, 0, t)
        }),
{
    let ghost before = backend.calls();
    if max_events == 0 {
        proof {
            reveal(event_loop_calls);
            reveal(event_loop_report);
        }
        assert(backend.calls() =~= before + Seq::empty());
        return MacEventLoopReport {
            processed: 0,
            stop: MacEventStopReason::BudgetExhausted,
            reschedule_required: true,
        };
    }
    let mut processed: u32 = 0;
    let mut raw = backend.pop_event();
    loop
        invariant
            before == old(backend).calls(),
            processed < max_events,
            backend.calls().len() >= before.len() + 1,
            backend.calls().subrange(0, before.len() as int) == before,
            backend.calls().last() == MacEventBackendCall::PopEvent(raw),
            forall|e: Seq<MacEventBackendCall>|
                #![trigger event_loop_calls(max_events, 0, backend.calls().skip(before.len() as int).drop_last() + e)]
                event_loop_calls(
                    max_events,
                    0,
                    backend.calls().skip(before.len() as int).drop_last() + e,
                ) == backend.calls().skip(before.len() as int).drop_last() + event_loop_calls(
                    max_events,
                    processed,
                    e,
                ),
            forall|e: Seq<MacEventBackendCall>|
                #![trigger event_loop_report(max_events, 0, backend.calls().skip(before.len() as int).drop_last() + e)]
                event_loop_report(
                    max_events,
                    0,
                    backend.calls().skip(before.len() as int).drop_last() + e,
                ) == event_loop_report(max_events, processed, e),
        decreases max_events - processed,
    {
        let ghost done = backend.calls().skip(before.len() as int).drop_last();
        let ghost pop_call = MacEventBackendCall::PopEvent(raw);
        let ghost raw_before = raw;
        let ghost iteration_start = backend.calls().len() - 1;
        let decoded = MacEvent::decode(raw as u32);
        let event = match decoded {
            Some(event) => event,
            None => {
                backend.drain_tail();
                proof {
                    let t = backend.calls().skip(before.len() as int);
                    let chunk = seq![pop_call, MacEventBackendCall::DrainTail];
                    assert(t =~= done + chunk);
                    lemma_loop_empty(max_events, processed, raw, Seq::empty());
                    assert(chunk + Seq::<MacEventBackendCall>::empty() =~= chunk);
                    assert(event_loop_calls(max_events, 0, done + chunk) == done + event_loop_calls(max_events, processed, chunk));
                    assert(event_loop_report(max_events, 0, done + chunk) == event_loop_report(max_events, processed, chunk));
                }
                assert(backend.calls() =~= before + backend.calls().skip(before.len() as int));
                return MacEventLoopReport {
                    processed,
                    stop: MacEventStopReason::Empty,
                    reschedule_required: false,
                };
            },
        };
        let ghost effects_start = backend.calls();
        apply_event_effects(backend, event);
        if event.fatal_marker {
            proof {
                let t = backend.calls().skip(before.len() as int);
                let chunk = seq![pop_call] + applied(event);
                assert(t =~= done + chunk);
                lemma_loop_stop(max_events, processed, raw, Seq::empty());
                assert(chunk + Seq::<MacEventBackendCall>::empty() =~= chunk);
                assert(event_loop_calls(max_events, 0, done + chunk) == done + event_loop_calls(max_events, processed, chunk));
                assert(event_loop_report(max_events, 0, done + chunk) == event_loop_report(max_events, processed, chunk));
            }
            assert(backend.calls() =~= before + backend.calls().skip(before.len() as int));
            return MacEventLoopReport {
                processed: processed + 1,
                stop: MacEventStopReason::Fatal,
                reschedule_required: false,
            };
        }
        processed = processed + 1;
        if processed == max_events {
            proof {
                let t = backend.calls().skip(before.len() as int);
                let chunk = seq![pop_call] + applied(event);
                assert(t =~= done + chunk);
                lemma_loop_stop(max_events, (processed - 1) as u32, raw, Seq::empty());
                assert(chunk + Seq::<MacEventBackendCall>::empty() =~= chunk);
                assert(event_loop_calls(max_events, 0, done + chunk) == done + event_loop_calls(max_events, (processed - 1) as u32, chunk));
                assert(event_loop_report(max_events, 0, done + chunk) == event_loop_report(max_events, (processed - 1) as u32, chunk));
            }
            assert(backend.calls() =~= before + backend.calls().skip(before.len() as int));
            return MacEventLoopReport {
                processed,
                stop: MacEventStopReason::BudgetExhausted,
                reschedule_required: true,
            };
        }
        let ready = backend.readiness();
        if ready < 0 {
            backend.drain_tail();
            proof {
                let t = backend.calls().skip(before.len() as int);
                let chunk = (seq![pop_call] + applied(event)) + seq![
                    MacEventBackendCall::Readiness(ready),
                    MacEventBackendCall::DrainTail,
                ];
                assert(t =~= done + chunk);
                lemma_loop_not_ready(max_events, (processed - 1) as u32, raw, ready, Seq::empty());
                assert(chunk + Seq::<MacEventBackendCall>::empty() =~= chunk);
                assert(event_loop_calls(max_events, 0, done + chunk) == done + event_loop_calls(max_events, (processed - 1) as u32, chunk));
                assert(event_loop_report(max_events, 0, done + chunk) == event_loop_report(max_events, (processed - 1) as u32, chunk));
            }
            assert(backend.calls() =~= before + backend.calls().skip(before.len() as int));
            return MacEventLoopReport {
                processed,
                stop: MacEventStopReason::Empty,
                reschedule_required: false,
            };
        }
        raw = backend.pop_event();
        proof {
            let chunk = (seq![pop_call] + applied(event)).push(MacEventBackendCall::Readiness(ready));
            let new_done = backend.calls().skip(before.len() as int).drop_last();
            assert(new_done =~= done + chunk);
            assert forall|e: Seq<MacEventBackendCall>|
                #![trigger event_loop_calls(max_events, 0, new_done + e)]
                event_loop_calls(max_events, 0, new_done + e) == new_done + event_loop_calls(
                    max_events,
                    processed,
                    e,
                ) by {
                assert(new_done + e =~= done + (chunk + e));
                lemma_loop_step(max_events, (processed - 1) as u32, raw_before, ready, e);
            }
            assert forall|e: Seq<MacEventBackendCall>|
                #![trigger event_loop_report(max_events, 0, new_done + e)]
                event_loop_report(max_events, 0, new_done + e) == event_loop_report(
                    max_events,
                    processed,
                    e,
                ) by {
                assert(new_done + e =~= done + (chunk + e));
                lemma_loop_step(max_events, (processed - 1) as u32, raw_before, ready, e);
            }
        }
    }
}

/// One call made on the effect leaves of a popped event.
#[derive(Clone, Copy, Debug, PartialEq, Eq, Structural)]
pub enum PoppedEffectCall {
    Trace(MacEvent),
    Fatal(MacEvent),
    PipePhase(MacEvent, u8, u8, Option<u8>),
    CaptureSchedulerWord(SchedulerWord),
    PipeService(MacEvent, SchedulerWord),
    TxStatus(MacEvent, u8, bool, SchedulerWord),
    Beacon(MacEvent),
    Sideband(MacEvent),
    Archive(MacEvent),
}

/// Infallible effect leaves for one event already popped from the FIFO.
/// The fatal leaf records the fault and returns, so the event's remaining
/// effects still run. Each call is recorded in `calls`.
pub trait PoppedMacEventEffects {
    /// Every call made so far, oldest first.
    /// A verified implementation defines it; the empty default only lets an
    /// implementation that Verus does not check leave it out.
    open spec fn calls(&self) -> Seq<PoppedEffectCall> {
        Seq::empty()
    }

    fn trace(&mut self, event: MacEvent)
        ensures
            final(self).calls() == old(self).calls().push(PoppedEffectCall::Trace(event)),
    ;

    fn fatal(&mut self, event: MacEvent)
        ensures
            final(self).calls() == old(self).calls().push(PoppedEffectCall::Fatal(event)),
    ;

    fn pipe_phase(&mut self, event: MacEvent, event_type: u8, phase: u8, latch: Option<u8>)
        ensures
            final(self).calls() == old(self).calls().push(
                PoppedEffectCall::PipePhase(event, event_type, phase, latch),
            ),
    ;

    fn capture_scheduler_word(&mut self) -> (word: SchedulerWord)
        ensures
            final(self).calls() == old(self).calls().push(PoppedEffectCall::CaptureSchedulerWord(word)),
    ;

    fn pipe_service(&mut self, event: MacEvent, saved_scheduler_word: SchedulerWord)
        ensures
            final(self).calls() == old(self).calls().push(
                PoppedEffectCall::PipeService(event, saved_scheduler_word),
            ),
    ;

    fn tx_status(
        &mut self,
        event: MacEvent,
        status: u8,
        pipe_service_escalation: bool,
        saved_scheduler_word: SchedulerWord,
    )
        ensures
            final(self).calls() == old(self).calls().push(
                PoppedEffectCall::TxStatus(event, status, pipe_service_escalation, saved_scheduler_word),
            ),
    ;

    fn beacon(&mut self, event: MacEvent)
        ensures
            final(self).calls() == old(self).calls().push(PoppedEffectCall::Beacon(event)),
    ;

    fn sideband(&mut self, event: MacEvent)
        ensures
            final(self).calls() == old(self).calls().push(PoppedEffectCall::Sideband(event)),
    ;

    fn archive(&mut self, event: MacEvent)
        ensures
            final(self).calls() == old(self).calls().push(PoppedEffectCall::Archive(event)),
    ;
}

/// Calls before the scheduler word is captured: trace, the fatal leaf for
/// a fatal event, pipe phase.
pub open spec fn popped_leading_calls(event: MacEvent) -> Seq<PoppedEffectCall> {
    seq![PoppedEffectCall::Trace(event)] + (if event.fatal_marker {
        seq![PoppedEffectCall::Fatal(event)]
    } else {
        Seq::empty()
    }) + (if event.pipe_marker {
        seq![PoppedEffectCall::PipePhase(event, event.event_type, event.phase, pipe_index_of(event))]
    } else {
        Seq::empty()
    })
}

/// Calls that use the scheduler word: one capture when the event carries
/// pipe service or a status, then pipe service and status with that word.
pub open spec fn popped_scheduler_calls(event: MacEvent, saved: SchedulerWord) -> Seq<PoppedEffectCall> {
    (if event.pipe_service_marker || event.completion_marker {
        seq![PoppedEffectCall::CaptureSchedulerWord(saved)]
    } else {
        Seq::empty()
    }) + (if event.pipe_service_marker {
        seq![PoppedEffectCall::PipeService(event, saved)]
    } else {
        Seq::empty()
    }) + (if event.completion_marker {
        seq![PoppedEffectCall::TxStatus(event, event.status, event.pipe_service_marker, saved)]
    } else {
        Seq::empty()
    })
}

/// Calls after status: beacon, sideband, archive.
pub open spec fn popped_trailing_calls(event: MacEvent) -> Seq<PoppedEffectCall> {
    (if event.beacon_marker {
        seq![PoppedEffectCall::Beacon(event)]
    } else {
        Seq::empty()
    }) + (if event.sideband_marker {
        seq![PoppedEffectCall::Sideband(event)]
    } else {
        Seq::empty()
    }) + seq![PoppedEffectCall::Archive(event)]
}

/// The effect calls for a popped event, with `saved` the scheduler word
/// captured for it.
pub open spec fn popped_calls(event: MacEvent, saved: SchedulerWord) -> Seq<PoppedEffectCall> {
    popped_leading_calls(event) + popped_scheduler_calls(event, saved) + popped_trailing_calls(event)
}

/// Where the scheduler-word capture of an event's calls stands.
pub open spec fn capture_position(event: MacEvent) -> int {
    1 + (if event.fatal_marker {
        1int
    } else {
        0int
    }) + (if event.pipe_marker {
        1int
    } else {
        0int
    })
}

/// The scheduler word captured among an event's calls.
pub open spec fn captured_word(event: MacEvent, calls: Seq<PoppedEffectCall>) -> SchedulerWord {
    match calls[capture_position(event)] {
        PoppedEffectCall::CaptureSchedulerWord(word) => word,
        _ => SchedulerWord(0),
    }
}

fn run_leading_effects<B: PoppedMacEventEffects>(event: MacEvent, backend: &mut B)
    ensures
        final(backend).calls() == old(backend).calls() + popped_leading_calls(event),
{
    let ghost before = backend.calls();
    backend.trace(event);
    if event.fatal_marker {
        backend.fatal(event);
    }
    if event.pipe_marker {
        backend.pipe_phase(event, event.event_type, event.phase, event.pipe_index());
    }
    assert(backend.calls() =~= before + popped_leading_calls(event));
}

fn run_scheduler_effects<B: PoppedMacEventEffects>(event: MacEvent, backend: &mut B) -> (word:
    SchedulerWord)
    ensures
        final(backend).calls() == old(backend).calls() + popped_scheduler_calls(event, word),
        (event.pipe_service_marker || event.completion_marker) ==> final(backend).calls()[old(
            backend,
        ).calls().len() as int] == PoppedEffectCall::CaptureSchedulerWord(word),
{
    let ghost before = backend.calls();
    let saved_scheduler_word = if event.pipe_service_marker || event.completion_marker {
        Some(backend.capture_scheduler_word())
    } else {
        None
    };
    let word = match saved_scheduler_word {
        Some(word) => word,
        None => SchedulerWord(0),
    };
    let ghost captured = backend.calls();
    if event.pipe_service_marker {
        backend.pipe_service(event, word);
    }
    match event.completion_status() {
        Some(status) => {
            backend.tx_status(event, status, event.pipe_service_marker, word);
        },
        None => {},
    }
    assert(backend.calls() =~= before + popped_scheduler_calls(event, word));
    word
}

fn run_trailing_effects<B: PoppedMacEventEffects>(event: MacEvent, backend: &mut B)
    ensures
        final(backend).calls() == old(backend).calls() + popped_trailing_calls(event),
{
    let ghost before = backend.calls();
    if event.beacon_marker {
        backend.beacon(event);
    }
    if event.sideband_marker {
        backend.sideband(event);
    }
    backend.archive(event);
    assert(backend.calls() =~= before + popped_trailing_calls(event));
}

/// Executes every effect of one popped event, in order (see
/// `popped_calls`). Nothing is refused or deferred.
pub fn execute_popped_single_outstanding_event<B: PoppedMacEventEffects>(event: MacEvent, backend: &mut B)
    ensures
        ({
            let calls = final(backend).calls().skip(old(backend).calls().len() as int);
            final(backend).calls() == old(backend).calls() + popped_calls(
                event,
                captured_word(event, calls),
            )
        }),
{
    let ghost before = backend.calls();
    run_leading_effects(event, backend);
    let ghost leading = backend.calls();
    let word = run_scheduler_effects(event, backend);
    run_trailing_effects(event, backend);
    proof {
        let calls = backend.calls().skip(before.len() as int);
        assert(calls =~= popped_leading_calls(event) + popped_scheduler_calls(event, word)
            + popped_trailing_calls(event));
        assert(popped_leading_calls(event).len() == capture_position(event));
        if event.pipe_service_marker || event.completion_marker {
            assert(calls[capture_position(event)] == backend.calls()[leading.len() as int]);
            assert(captured_word(event, calls) == word);
        } else {
            assert(popped_scheduler_calls(event, word) =~= popped_scheduler_calls(
                event,
                captured_word(event, calls),
            ));
        }
    }
    assert(backend.calls() =~= before + backend.calls().skip(before.len() as int));
}

} // verus!
