//! Ownership tracking of one internal probe frame, from preparation through
//! pipe ownership, start and terminal status to the completion callback and
//! the return of its context.
//!
//! A context is returned only after its completion was queued and its
//! callback entered; each preparation opens a new generation; a fatal MAC
//! event freezes the last identity until it is reset.

use vstd::prelude::*;

use crate::context::FrameNodeAddress;
use crate::mac_event::{completion_status_of, pipe_index_of, MacEvent};

verus! {

#[derive(Clone, Copy, Debug, PartialEq, Eq, Structural)]
pub enum ProbeTxOwnership {
    Idle,
    Prepared { context: u32 },
    PipeOwned { context: u32, pipe: u8, slot: u8 },
    Started { context: u32, pipe: u8, slot: u8 },
    RetryRequired { context: u32, pipe: u8, slot: u8, status: u8 },
    TerminalObserved { context: u32, pipe: u8, slot: u8, status: u8 },
    CompletionQueued { context: u32, pipe: u8, slot: u8, status: u8 },
    CallbackRunning { context: u32, pipe: u8, slot: u8, status: u8 },
    FatalQuiesced { context: Option<u32>, pipe: Option<u8>, slot: Option<u8> },
    Returned,
}

/// Which probe frame, where, and in which preparation.
#[derive(Clone, Copy, Debug, PartialEq, Eq, Structural)]
pub struct ProbeTxIdentity {
    pub context: u32,
    pub pipe: Option<u8>,
    pub slot: Option<u8>,
    pub generation: u32,
}

#[derive(Clone, Copy, Debug, PartialEq, Eq, Structural)]
pub enum ProbeTxTransitionError {
    Busy,
    NotPrepared,
    WrongPipe,
    CompletionBeforeStart,
}

/// The tracker as a value: the ownership, the pipe latched by the last
/// start event, the last status observed, and the generation counter.
#[derive(Clone, Copy, Debug, PartialEq, Eq, Structural)]
pub struct ProbeTxState {
    pub ownership: ProbeTxOwnership,
    pub latched_pipe: Option<u8>,
    pub observed_status: Option<u8>,
    pub generation: u32,
}

#[derive(Clone, Copy, Debug, PartialEq, Eq, Structural)]
pub struct ProbeTxTracker {
    ownership: ProbeTxOwnership,
    latched_pipe: Option<u8>,
    observed_status: Option<u8>,
    generation: u32,
}

/// A frozen tracker keeps a pipe or slot only together with the context that
/// held them.
pub open spec fn quiesced_identity_consistent(ownership: ProbeTxOwnership) -> bool {
    match ownership {
        ProbeTxOwnership::FatalQuiesced { context: None, pipe, slot } => pipe is None && slot is None,
        _ => true,
    }
}

impl ProbeTxTracker {
    #[verifier::type_invariant]
    spec fn ownership_consistent(self) -> bool {
        quiesced_identity_consistent(self.ownership)
    }
}

impl View for ProbeTxTracker {
    type V = ProbeTxState;

    closed spec fn view(&self) -> ProbeTxState {
        ProbeTxState {
            ownership: self.ownership,
            latched_pipe: self.latched_pipe,
            observed_status: self.observed_status,
            generation: self.generation,
        }
    }
}

/// The identity of the frame that an ownership state holds, if any.
pub open spec fn identity_of(ownership: ProbeTxOwnership, generation: u32) -> Option<
    ProbeTxIdentity,
> {
    match ownership {
        ProbeTxOwnership::Prepared { context } => Some(
            ProbeTxIdentity { context, pipe: None, slot: None, generation },
        ),
        ProbeTxOwnership::PipeOwned { context, pipe, slot } => Some(
            ProbeTxIdentity { context, pipe: Some(pipe), slot: Some(slot), generation },
        ),
        ProbeTxOwnership::Started { context, pipe, slot } => Some(
            ProbeTxIdentity { context, pipe: Some(pipe), slot: Some(slot), generation },
        ),
        ProbeTxOwnership::RetryRequired { context, pipe, slot, .. } => Some(
            ProbeTxIdentity { context, pipe: Some(pipe), slot: Some(slot), generation },
        ),
        ProbeTxOwnership::TerminalObserved { context, pipe, slot, .. } => Some(
            ProbeTxIdentity { context, pipe: Some(pipe), slot: Some(slot), generation },
        ),
        ProbeTxOwnership::CompletionQueued { context, pipe, slot, .. } => Some(
            ProbeTxIdentity { context, pipe: Some(pipe), slot: Some(slot), generation },
        ),
        ProbeTxOwnership::CallbackRunning { context, pipe, slot, .. } => Some(
            ProbeTxIdentity { context, pipe: Some(pipe), slot: Some(slot), generation },
        ),
        ProbeTxOwnership::FatalQuiesced { context, pipe, slot } => match context {
            Some(context) => Some(ProbeTxIdentity { context, pipe, slot, generation }),
            None => None,
        },
        ProbeTxOwnership::Idle => None,
        ProbeTxOwnership::Returned => None,
    }
}

/// The pipe that an ownership state holds, if any.
pub open spec fn owned_pipe_of(ownership: ProbeTxOwnership) -> Option<u8> {
    match ownership {
        ProbeTxOwnership::PipeOwned { pipe, .. } => Some(pipe),
        ProbeTxOwnership::Started { pipe, .. } => Some(pipe),
        ProbeTxOwnership::RetryRequired { pipe, .. } => Some(pipe),
        ProbeTxOwnership::TerminalObserved { pipe, .. } => Some(pipe),
        ProbeTxOwnership::CompletionQueued { pipe, .. } => Some(pipe),
        ProbeTxOwnership::CallbackRunning { pipe, .. } => Some(pipe),
        ProbeTxOwnership::FatalQuiesced { pipe, .. } => pipe,
        _ => None,
    }
}

/// What a pipe event does to a tracker that owns a pipe: a start event of
/// that pipe latches it and starts the frame; a success event of that pipe
/// ends a started frame with status zero; a status event is recorded while
/// the start latched that pipe. Events of another pipe are refused, and
/// anything else is ignored.
pub open spec fn pipe_event_result(state: ProbeTxState, event: MacEvent) -> Result<
    bool,
    ProbeTxTransitionError,
> {
    match state.ownership {
        ProbeTxOwnership::PipeOwned { pipe, .. } => pipe_event_result_for(
            state,
            event,
            pipe,
            false,
        ),
        ProbeTxOwnership::Started { pipe, .. } => pipe_event_result_for(state, event, pipe, true),
        _ => Ok(false),
    }
}

pub open spec fn is_start(event: MacEvent) -> bool {
    pipe_index_of(event) is Some && event.phase == 2
}

pub open spec fn is_success(event: MacEvent) -> bool {
    pipe_index_of(event) is Some && event.phase == 3
}

pub open spec fn pipe_event_result_for(
    state: ProbeTxState,
    event: MacEvent,
    pipe: u8,
    started: bool,
) -> Result<bool, ProbeTxTransitionError> {
    if (is_start(event) || is_success(event)) && event.pipe != pipe {
        Err(ProbeTxTransitionError::WrongPipe)
    } else if is_start(event) {
        Ok(true)
    } else if is_success(event) {
        if !started {
            Err(ProbeTxTransitionError::CompletionBeforeStart)
        } else {
            Ok(true)
        }
    } else if completion_status_of(event) is Some {
        if state.latched_pipe != Some(pipe) {
            Err(ProbeTxTransitionError::WrongPipe)
        } else {
            Ok(true)
        }
    } else {
        Ok(false)
    }
}

pub open spec fn pipe_event_state(state: ProbeTxState, event: MacEvent) -> ProbeTxState {
    match state.ownership {
        ProbeTxOwnership::PipeOwned { context, pipe, slot } => pipe_event_state_for(
            state,
            event,
            context,
            pipe,
            slot,
            false,
        ),
        ProbeTxOwnership::Started { context, pipe, slot } => pipe_event_state_for(
            state,
            event,
            context,
            pipe,
            slot,
            true,
        ),
        _ => state,
    }
}

pub open spec fn pipe_event_state_for(
    state: ProbeTxState,
    event: MacEvent,
    context: u32,
    pipe: u8,
    slot: u8,
    started: bool,
) -> ProbeTxState {
    if (is_start(event) || is_success(event)) && event.pipe != pipe {
        state
    } else if is_start(event) {
        ProbeTxState {
            ownership: ProbeTxOwnership::Started { context, pipe, slot },
            latched_pipe: pipe_index_of(event),
            observed_status: None,
            ..state
        }
    } else if is_success(event) {
        if !started {
            state
        } else {
            ProbeTxState {
                ownership: ProbeTxOwnership::TerminalObserved { context, pipe, slot, status: 0 },
                observed_status: Some(0u8),
                ..state
            }
        }
    } else if completion_status_of(event) is Some {
        if state.latched_pipe != Some(pipe) {
            state
        } else {
            ProbeTxState { observed_status: completion_status_of(event), ..state }
        }
    } else {
        state
    }
}

/// The ownership graph. Only these changes of ownership happen; in
/// particular a context is returned only from a running callback, a callback
/// runs only for a queued completion, and a completion is queued only after
/// a terminal status.
pub open spec fn ownership_step(from: ProbeTxOwnership, to: ProbeTxOwnership) -> bool {
    match (from, to) {
        (ProbeTxOwnership::Idle, ProbeTxOwnership::Prepared { .. }) => true,
        (ProbeTxOwnership::Prepared { context: c }, ProbeTxOwnership::PipeOwned { context, .. }) => c
            == context,
        (
            ProbeTxOwnership::PipeOwned { context: c, pipe: p, slot: s },
            ProbeTxOwnership::Started { context, pipe, slot },
        ) => c == context && p == pipe && s == slot,
        (
            ProbeTxOwnership::Started { context: c, pipe: p, slot: s },
            ProbeTxOwnership::Started { context, pipe, slot },
        ) => c == context && p == pipe && s == slot,
        (
            ProbeTxOwnership::Started { context: c, pipe: p, slot: s },
            ProbeTxOwnership::RetryRequired { context, pipe, slot, .. },
        ) => c == context && p == pipe && s == slot,
        (
            ProbeTxOwnership::Started { context: c, pipe: p, slot: s },
            ProbeTxOwnership::TerminalObserved { context, pipe, slot, .. },
        ) => c == context && p == pipe && s == slot,
        (
            ProbeTxOwnership::TerminalObserved { context: c, pipe: p, slot: s, status: t },
            ProbeTxOwnership::CompletionQueued { context, pipe, slot, status },
        ) => c == context && p == pipe && s == slot && t == status,
        (
            ProbeTxOwnership::CompletionQueued { context: c, pipe: p, slot: s, status: t },
            ProbeTxOwnership::CallbackRunning { context, pipe, slot, status },
        ) => c == context && p == pipe && s == slot && t == status,
        (ProbeTxOwnership::CallbackRunning { .. }, ProbeTxOwnership::Returned) => true,
        (ProbeTxOwnership::Returned, ProbeTxOwnership::Idle) => true,
        (ProbeTxOwnership::FatalQuiesced { .. }, ProbeTxOwnership::Idle) => true,
        (_, ProbeTxOwnership::FatalQuiesced { .. }) => true,
        _ => false,
    }
}

/// The ownership either stays or takes one step of the graph.
pub open spec fn ownership_moves(from: ProbeTxOwnership, to: ProbeTxOwnership) -> bool {
    from == to || ownership_step(from, to)
}

/// A context is handed back only by the step out of a running callback, and
/// a callback runs only for a queued terminal completion of the same frame.
pub proof fn lemma_return_follows_completion_chain(from: ProbeTxOwnership, to: ProbeTxOwnership)
    requires
        ownership_step(from, to),
    ensures
        to is Returned ==> from is CallbackRunning,
        to is CallbackRunning ==> from is CompletionQueued,
        to is CompletionQueued ==> from is TerminalObserved,
        to is TerminalObserved ==> from is Started,
        to is Started ==> from is PipeOwned || from is Started,
        to is Prepared ==> from is Idle,
{
}

impl ProbeTxTracker {
    pub fn new() -> (tracker: Self)
        ensures
            tracker@ == (ProbeTxState {
                ownership: ProbeTxOwnership::Idle,
                latched_pipe: None,
                observed_status: None,
                generation: 0,
            }),
    {
        Self {
            ownership: ProbeTxOwnership::Idle,
            latched_pipe: None,
            observed_status: None,
            generation: 0,
        }
    }

    pub fn ownership(&self) -> (ownership: ProbeTxOwnership)
        ensures
            ownership == self@.ownership,
    {
        self.ownership
    }

    pub fn observed_status(&self) -> (status: Option<u8>)
        ensures
            status == self@.observed_status,
    {
        self.observed_status
    }

    pub fn identity(&self) -> (identity: Option<ProbeTxIdentity>)
        ensures
            identity == identity_of(self@.ownership, self@.generation),
    {
        let generation = self.generation;
        match self.ownership {
            ProbeTxOwnership::Prepared { context } => Some(
                ProbeTxIdentity { context, pipe: None, slot: None, generation },
            ),
            ProbeTxOwnership::PipeOwned { context, pipe, slot }
            | ProbeTxOwnership::Started { context, pipe, slot } => Some(
                ProbeTxIdentity { context, pipe: Some(pipe), slot: Some(slot), generation },
            ),
            ProbeTxOwnership::RetryRequired { context, pipe, slot, .. }
            | ProbeTxOwnership::TerminalObserved { context, pipe, slot, .. }
            | ProbeTxOwnership::CompletionQueued { context, pipe, slot, .. }
            | ProbeTxOwnership::CallbackRunning { context, pipe, slot, .. } => Some(
                ProbeTxIdentity { context, pipe: Some(pipe), slot: Some(slot), generation },
            ),
            ProbeTxOwnership::FatalQuiesced { context: Some(context), pipe, slot } => Some(
                ProbeTxIdentity { context, pipe, slot, generation },
            ),
            ProbeTxOwnership::FatalQuiesced { context: None, .. } => None,
            ProbeTxOwnership::Idle | ProbeTxOwnership::Returned => None,
        }
    }

    /// The pipe the tracker owns, which is always the pipe of its identity.
    pub fn owned_pipe(&self) -> (pipe: Option<u8>)
        ensures
            pipe == owned_pipe_of(self@.ownership),
            pipe == match identity_of(self@.ownership, self@.generation) {
                Some(identity) => identity.pipe,
                None => None,
            },
    {
        proof {
            use_type_invariant(self);
        }
        match self.ownership {
            ProbeTxOwnership::PipeOwned { pipe, .. }
            | ProbeTxOwnership::Started { pipe, .. }
            | ProbeTxOwnership::RetryRequired { pipe, .. }
            | ProbeTxOwnership::TerminalObserved { pipe, .. }
            | ProbeTxOwnership::CompletionQueued { pipe, .. }
            | ProbeTxOwnership::CallbackRunning { pipe, .. } => Some(pipe),
            ProbeTxOwnership::FatalQuiesced { pipe, .. } => pipe,
            _ => None,
        }
    }

    /// Opens a new generation for `context`; refused unless idle.
    pub fn prepare(&mut self, context: u32) -> (result: Result<(), ProbeTxTransitionError>)
        ensures
            ownership_moves(old(self)@.ownership, final(self)@.ownership),
            old(self)@.ownership != ProbeTxOwnership::Idle ==> result == Err::<
                (),
                ProbeTxTransitionError,
            >(ProbeTxTransitionError::Busy) && final(self)@ == old(self)@,
            old(self)@.ownership == ProbeTxOwnership::Idle ==> result == Ok::<
                (),
                ProbeTxTransitionError,
            >(()) && final(self)@ == (ProbeTxState {
                ownership: ProbeTxOwnership::Prepared { context },
                latched_pipe: None,
                observed_status: None,
                generation: old(self)@.generation.wrapping_add(1),
            }),
    {
        if self.ownership != ProbeTxOwnership::Idle {
            return Err(ProbeTxTransitionError::Busy);
        }
        self.latched_pipe = None;
        self.observed_status = None;
        self.generation = self.generation.wrapping_add(1);
        self.ownership = ProbeTxOwnership::Prepared { context };
        Ok(())
    }

    /// Hands a prepared frame to `slot` of `pipe`.
    pub fn publish(&mut self, pipe: u8, slot: u8) -> (result: Result<(), ProbeTxTransitionError>)
        ensures
            ownership_moves(old(self)@.ownership, final(self)@.ownership),
            match old(self)@.ownership {
                ProbeTxOwnership::Prepared { context } => result == Ok::<
                    (),
                    ProbeTxTransitionError,
                >(()) && final(self)@ == (ProbeTxState {
                    ownership: ProbeTxOwnership::PipeOwned { context, pipe, slot },
                    ..old(self)@
                }),
                _ => result == Err::<(), ProbeTxTransitionError>(
                    ProbeTxTransitionError::NotPrepared,
                ) && final(self)@ == old(self)@,
            },
    {
        let context = match self.ownership {
            ProbeTxOwnership::Prepared { context } => context,
            _ => return Err(ProbeTxTransitionError::NotPrepared),
        };
        self.ownership = ProbeTxOwnership::PipeOwned { context, pipe, slot };
        Ok(())
    }

    /// Applies a pipe event to a frame that owns a pipe; other events and
    /// other states are left alone. `_pipe_pending` is not consulted.
    pub fn handle_pipe_event(&mut self, event: MacEvent, _pipe_pending: bool) -> (result: Result<
        bool,
        ProbeTxTransitionError,
    >)
        ensures
            ownership_moves(old(self)@.ownership, final(self)@.ownership),
            result == pipe_event_result(old(self)@, event),
            final(self)@ == pipe_event_state(old(self)@, event),
    {
        let (context, pipe, slot, started) = match self.ownership {
            ProbeTxOwnership::PipeOwned { context, pipe, slot } => (context, pipe, slot, false),
            ProbeTxOwnership::Started { context, pipe, slot } => (context, pipe, slot, true),
            _ => return Ok(false),
        };
        if (event.is_pipe_start() || event.is_pipe_success()) && event.pipe != pipe {
            return Err(ProbeTxTransitionError::WrongPipe);
        }
        if event.is_pipe_start() {
            self.latched_pipe = event.pipe_index();
            self.observed_status = None;
            self.ownership = ProbeTxOwnership::Started { context, pipe, slot };
            return Ok(true);
        }
        if event.is_pipe_success() {
            if !started {
                return Err(ProbeTxTransitionError::CompletionBeforeStart);
            }
            self.ownership = ProbeTxOwnership::TerminalObserved { context, pipe, slot, status: 0 };
            self.observed_status = Some(0);
            return Ok(true);
        }
        match event.completion_status() {
            Some(status) => {
                if self.latched_pipe != Some(pipe) {
                    return Err(ProbeTxTransitionError::WrongPipe);
                }
                self.observed_status = Some(status);
                Ok(true)
            },
            None => Ok(false),
        }
    }

    /// A started frame whose observed status is `status` needs a retry.
    pub fn resolve_retry_status(&mut self, status: u8) -> (resolved: bool)
        ensures
            ownership_moves(old(self)@.ownership, final(self)@.ownership),
            resolved == (old(self)@.ownership is Started && old(self)@.observed_status == Some(
                status,
            )),
            resolved ==> final(self)@ == (ProbeTxState {
                ownership: ProbeTxOwnership::RetryRequired {
                    context: old(self)@.ownership->Started_context,
                    pipe: old(self)@.ownership->Started_pipe,
                    slot: old(self)@.ownership->Started_slot,
                    status,
                },
                ..old(self)@
            }),
            !resolved ==> final(self)@ == old(self)@,
    {
        let (context, pipe, slot) = match self.ownership {
            ProbeTxOwnership::Started { context, pipe, slot } => (context, pipe, slot),
            _ => return false,
        };
        if self.observed_status != Some(status) {
            return false;
        }
        self.ownership = ProbeTxOwnership::RetryRequired { context, pipe, slot, status };
        true
    }

    /// A started frame whose observed status is `status` has ended.
    pub fn resolve_terminal_status(&mut self, status: u8) -> (resolved: bool)
        ensures
            ownership_moves(old(self)@.ownership, final(self)@.ownership),
            resolved == (old(self)@.ownership is Started && old(self)@.observed_status == Some(
                status,
            )),
            resolved ==> final(self)@ == (ProbeTxState {
                ownership: ProbeTxOwnership::TerminalObserved {
                    context: old(self)@.ownership->Started_context,
                    pipe: old(self)@.ownership->Started_pipe,
                    slot: old(self)@.ownership->Started_slot,
                    status,
                },
                ..old(self)@
            }),
            !resolved ==> final(self)@ == old(self)@,
    {
        let (context, pipe, slot) = match self.ownership {
            ProbeTxOwnership::Started { context, pipe, slot } => (context, pipe, slot),
            _ => return false,
        };
        if self.observed_status != Some(status) {
            return false;
        }
        self.ownership = ProbeTxOwnership::TerminalObserved { context, pipe, slot, status };
        true
    }

    /// Freezes the current identity after a fatal MAC event.
    pub fn enter_fatal_quiescence(&mut self)
        ensures
            ownership_moves(old(self)@.ownership, final(self)@.ownership),
            final(self)@ == (ProbeTxState {
                ownership: ProbeTxOwnership::FatalQuiesced {
                    context: match identity_of(old(self)@.ownership, old(self)@.generation) {
                        Some(identity) => Some(identity.context),
                        None => None,
                    },
                    pipe: match identity_of(old(self)@.ownership, old(self)@.generation) {
                        Some(identity) => identity.pipe,
                        None => None,
                    },
                    slot: match identity_of(old(self)@.ownership, old(self)@.generation) {
                        Some(identity) => identity.slot,
                        None => None,
                    },
                },
                observed_status: None,
                ..old(self)@
            }),
    {
        let identity = self.identity();
        self.ownership = match identity {
            Some(identity) => ProbeTxOwnership::FatalQuiesced {
                context: Some(identity.context),
                pipe: identity.pipe,
                slot: identity.slot,
            },
            None => ProbeTxOwnership::FatalQuiesced { context: None, pipe: None, slot: None },
        };
        self.observed_status = None;
    }

    /// Leaves fatal quiescence for idle.
    pub fn reset_fatal_quiescence(&mut self) -> (reset: bool)
        ensures
            ownership_moves(old(self)@.ownership, final(self)@.ownership),
            reset == old(self)@.ownership is FatalQuiesced,
            reset ==> final(self)@ == (ProbeTxState {
                ownership: ProbeTxOwnership::Idle,
                latched_pipe: None,
                observed_status: None,
                ..old(self)@
            }),
            !reset ==> final(self)@ == old(self)@,
    {
        if !matches!(self.ownership, ProbeTxOwnership::FatalQuiesced { .. }) {
            return false;
        }
        self.ownership = ProbeTxOwnership::Idle;
        self.latched_pipe = None;
        self.observed_status = None;
        true
    }

    /// Queues the completion of a frame that reached a terminal status.
    pub fn queue_terminal_completion(&mut self) -> (queued: bool)
        ensures
            ownership_moves(old(self)@.ownership, final(self)@.ownership),
            queued == old(self)@.ownership is TerminalObserved,
            queued ==> final(self)@ == (ProbeTxState {
                ownership: ProbeTxOwnership::CompletionQueued {
                    context: old(self)@.ownership->TerminalObserved_context,
                    pipe: old(self)@.ownership->TerminalObserved_pipe,
                    slot: old(self)@.ownership->TerminalObserved_slot,
                    status: old(self)@.ownership->TerminalObserved_status,
                },
                ..old(self)@
            }),
            !queued ==> final(self)@ == old(self)@,
    {
        match self.ownership {
            ProbeTxOwnership::TerminalObserved { context, pipe, slot, status } => {
                self.ownership = ProbeTxOwnership::CompletionQueued { context, pipe, slot, status };
                true
            },
            _ => false,
        }
    }

    /// Enters the completion callback of a queued completion.
    pub fn begin_completion_callback(&mut self) -> (begun: bool)
        ensures
            ownership_moves(old(self)@.ownership, final(self)@.ownership),
            begun == old(self)@.ownership is CompletionQueued,
            begun ==> final(self)@ == (ProbeTxState {
                ownership: ProbeTxOwnership::CallbackRunning {
                    context: old(self)@.ownership->CompletionQueued_context,
                    pipe: old(self)@.ownership->CompletionQueued_pipe,
                    slot: old(self)@.ownership->CompletionQueued_slot,
                    status: old(self)@.ownership->CompletionQueued_status,
                },
                ..old(self)@
            }),
            !begun ==> final(self)@ == old(self)@,
    {
        match self.ownership {
            ProbeTxOwnership::CompletionQueued { context, pipe, slot, status } => {
                self.ownership = ProbeTxOwnership::CallbackRunning { context, pipe, slot, status };
                true
            },
            _ => false,
        }
    }

    /// From a running callback, hands the context to `return_context` once
    /// and records the return.
    pub fn finish_completion_callback<F: FnOnce(u32)>(&mut self, return_context: F) -> (finished:
        bool)
        requires
            old(self)@.ownership is CallbackRunning ==> return_context.requires(
                (old(self)@.ownership->CallbackRunning_context,),
            ),
        ensures
            ownership_moves(old(self)@.ownership, final(self)@.ownership),
            finished == old(self)@.ownership is CallbackRunning,
            finished ==> return_context.ensures((old(self)@.ownership->CallbackRunning_context,), ()),
            finished ==> final(self)@ == (ProbeTxState {
                ownership: ProbeTxOwnership::Returned,
                latched_pipe: None,
                observed_status: None,
                ..old(self)@
            }),
            !finished ==> final(self)@ == old(self)@,
    {
        let context = match self.ownership {
            ProbeTxOwnership::CallbackRunning { context, .. } => context,
            _ => return false,
        };
        return_context(context);
        self.latched_pipe = None;
        self.observed_status = None;
        self.ownership = ProbeTxOwnership::Returned;
        true
    }

    /// From a running callback, offers the context to `return_context` and
    /// records the return only when it accepts.
    pub fn try_finish_completion_callback<F: FnOnce(u32) -> bool>(
        &mut self,
        return_context: F,
    ) -> (finished: bool)
        requires
            old(self)@.ownership is CallbackRunning ==> return_context.requires(
                (old(self)@.ownership->CallbackRunning_context,),
            ),
        ensures
            ownership_moves(old(self)@.ownership, final(self)@.ownership),
            finished ==> old(self)@.ownership is CallbackRunning && return_context.ensures(
                (old(self)@.ownership->CallbackRunning_context,),
                true,
            ) && final(self)@ == (ProbeTxState {
                ownership: ProbeTxOwnership::Returned,
                latched_pipe: None,
                observed_status: None,
                ..old(self)@
            }),
            !finished ==> final(self)@ == old(self)@ && (old(self)@.ownership is CallbackRunning
                ==> return_context.ensures((old(self)@.ownership->CallbackRunning_context,), false)),
    {
        let context = match self.ownership {
            ProbeTxOwnership::CallbackRunning { context, .. } => context,
            _ => return false,
        };
        if !return_context(context) {
            return false;
        }
        self.latched_pipe = None;
        self.observed_status = None;
        self.ownership = ProbeTxOwnership::Returned;
        true
    }

    /// Makes a returned tracker idle again.
    pub fn reset_returned(&mut self) -> (reset: bool)
        ensures
            ownership_moves(old(self)@.ownership, final(self)@.ownership),
            reset == (old(self)@.ownership == ProbeTxOwnership::Returned),
            reset ==> final(self)@ == (ProbeTxState {
                ownership: ProbeTxOwnership::Idle,
                observed_status: None,
                ..old(self)@
            }),
            !reset ==> final(self)@ == old(self)@,
    {
        if self.ownership != ProbeTxOwnership::Returned {
            return false;
        }
        self.ownership = ProbeTxOwnership::Idle;
        self.observed_status = None;
        true
    }
}

impl Default for ProbeTxTracker {
    fn default() -> (tracker: Self)
        ensures
            tracker@ == (ProbeTxState {
                ownership: ProbeTxOwnership::Idle,
                latched_pipe: None,
                observed_status: None,
                generation: 0,
            }),
    {
        Self::new()
    }
}

/// Enters the callback of the tracked probe when `frame_node` belongs to
/// its queued completion; a node of another context is left for the
/// general callback path.
pub fn begin_probe_completion_callback(tracker: &mut ProbeTxTracker, frame_node: FrameNodeAddress) -> (begun:
    bool)
    ensures
        ownership_moves(old(tracker)@.ownership, final(tracker)@.ownership),
        begun == (old(tracker)@.ownership is CompletionQueued && frame_node@.wrapping_sub(
            crate::context::FRAME_NODE_OFFSET,
        ) == old(tracker)@.ownership->CompletionQueued_context),
        begun ==> final(tracker)@ == (ProbeTxState {
            ownership: ProbeTxOwnership::CallbackRunning {
                context: old(tracker)@.ownership->CompletionQueued_context,
                pipe: old(tracker)@.ownership->CompletionQueued_pipe,
                slot: old(tracker)@.ownership->CompletionQueued_slot,
                status: old(tracker)@.ownership->CompletionQueued_status,
            },
            ..old(tracker)@
        }),
        !begun ==> final(tracker)@ == old(tracker)@,
{
    let context = match tracker.ownership {
        ProbeTxOwnership::CompletionQueued { context, .. } => context,
        _ => return false,
    };
    frame_node.context().raw() == context && tracker.begin_completion_callback()
}

} // verus!
