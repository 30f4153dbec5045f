use xr819_tx::context::{FrameNodeAddress, FRAME_NODE_OFFSET};
use xr819_tx::mac_event::MacEvent;
use xr819_tx::tracker::{
    begin_probe_completion_callback, ProbeTxOwnership, ProbeTxTracker, ProbeTxTransitionError,
};

#[test]
fn probe_tracker_requires_full_completion_chain_before_return() {
    let mut tracker = ProbeTxTracker::new();
    tracker.prepare(0x0400_9084).unwrap_or_else(|error| panic!("{error:?}"));
    tracker.publish(2, 1).unwrap_or_else(|error| panic!("{error:?}"));
    let success = MacEvent::decode((1 << 25) | (2 << 18) | (3 << 16) | (0x37 << 8))
        .unwrap_or_else(|| panic!("valid success event decoded as empty"));
    assert_eq!(
        tracker.handle_pipe_event(success, true),
        Err(ProbeTxTransitionError::CompletionBeforeStart)
    );
    let start = MacEvent::decode((1 << 25) | (2 << 18) | (2 << 16) | (0x37 << 8))
        .unwrap_or_else(|| panic!("valid start event decoded as empty"));
    assert_eq!(tracker.handle_pipe_event(start, true), Ok(true));
    assert_eq!(tracker.handle_pipe_event(success, true), Ok(true));
    assert!(tracker.queue_terminal_completion());
    assert!(!begin_probe_completion_callback(
        &mut tracker,
        FrameNodeAddress::new(0x0400_9364 + FRAME_NODE_OFFSET),
    ));
    assert!(begin_probe_completion_callback(
        &mut tracker,
        FrameNodeAddress::new(0x0400_9084 + FRAME_NODE_OFFSET),
    ));
    let mut returned = 0;
    assert!(tracker.finish_completion_callback(|context| returned = context));
    assert_eq!(returned, 0x0400_9084);
    assert!(!tracker.finish_completion_callback(|_| panic!("double return")));
    assert_eq!(tracker.ownership(), ProbeTxOwnership::Returned);
    assert!(tracker.reset_returned());
    assert_eq!(tracker.ownership(), ProbeTxOwnership::Idle);
}

#[test]
fn probe_tracker_retains_retry_status() {
    let mut tracker = ProbeTxTracker::new();
    tracker.prepare(0x0400_91f4).unwrap_or_else(|error| panic!("{error:?}"));
    tracker.publish(1, 3).unwrap_or_else(|error| panic!("{error:?}"));
    let start = MacEvent::decode((1 << 25) | (1 << 18) | (2 << 16) | (0x37 << 8))
        .unwrap_or_else(|| panic!("valid start event decoded as empty"));
    assert_eq!(tracker.handle_pipe_event(start, true), Ok(true));
    let retry = MacEvent::decode((1 << 24) | 0x19)
        .unwrap_or_else(|| panic!("valid retry event decoded as empty"));
    assert_eq!(tracker.handle_pipe_event(retry, true), Ok(true));
    assert_eq!(tracker.observed_status(), Some(0x19));
    assert!(tracker.resolve_retry_status(0x19));
    assert_eq!(
        tracker.ownership(),
        ProbeTxOwnership::RetryRequired { context: 0x0400_91f4, pipe: 1, slot: 3, status: 0x19 }
    );
}

#[test]
fn status_observation_requires_explicit_terminal_resolution() {
    let mut tracker = ProbeTxTracker::new();
    tracker.prepare(0x0400_9364).unwrap_or_else(|error| panic!("{error:?}"));
    tracker.publish(0, 2).unwrap_or_else(|error| panic!("{error:?}"));
    let start = MacEvent::decode((1 << 25) | (2 << 16) | (0x37 << 8))
        .unwrap_or_else(|| panic!("valid start event decoded as empty"));
    assert_eq!(tracker.handle_pipe_event(start, true), Ok(true));
    let status = MacEvent::decode((1 << 24) | 0x0b)
        .unwrap_or_else(|| panic!("valid status event decoded as empty"));
    assert_eq!(tracker.handle_pipe_event(status, false), Ok(true));
    assert_eq!(tracker.observed_status(), Some(0x0b));
    assert_eq!(
        tracker.ownership(),
        ProbeTxOwnership::Started { context: 0x0400_9364, pipe: 0, slot: 2 }
    );
    assert!(!tracker.resolve_terminal_status(4));
    assert!(tracker.resolve_terminal_status(0x0b));
    assert_eq!(
        tracker.ownership(),
        ProbeTxOwnership::TerminalObserved { context: 0x0400_9364, pipe: 0, slot: 2, status: 0x0b }
    );
}

#[test]
fn probe_identity_generation_and_fatal_quiescence_are_explicit() {
    let mut tracker = ProbeTxTracker::new();
    tracker.prepare(0x0400_9084).unwrap_or_else(|error| panic!("{error:?}"));
    let first = tracker.identity().unwrap_or_else(|| panic!("missing identity"));
    assert_eq!(first.generation, 1);
    tracker.enter_fatal_quiescence();
    assert_eq!(tracker.identity(), Some(first));
    assert_eq!(tracker.prepare(0x0400_91f4), Err(ProbeTxTransitionError::Busy));
    assert!(tracker.reset_fatal_quiescence());
    tracker.prepare(0x0400_91f4).unwrap_or_else(|error| panic!("{error:?}"));
    let second = tracker.identity().unwrap_or_else(|| panic!("missing identity"));
    assert_eq!(second.generation, 2);
    assert_ne!(first, second);
}

#[test]
fn probe_tracker_rejects_publication_before_preparation() {
    let mut tracker = ProbeTxTracker::new();
    assert!(tracker.publish(0, 0).is_err());
    assert_eq!(tracker.ownership(), ProbeTxOwnership::Idle);
    assert!(!tracker.queue_terminal_completion());
    assert!(!tracker.reset_returned());
}

#[test]
fn owned_pipe_is_always_the_identity_pipe() {
    let mut tracker = ProbeTxTracker::new();
    assert_eq!(tracker.owned_pipe(), None);
    tracker.enter_fatal_quiescence();
    assert_eq!(tracker.owned_pipe(), tracker.identity().and_then(|identity| identity.pipe));
    assert!(tracker.reset_fatal_quiescence());
    tracker.prepare(0x0400_9084).unwrap_or_else(|error| panic!("{error:?}"));
    assert_eq!(tracker.owned_pipe(), tracker.identity().and_then(|identity| identity.pipe));
    tracker.publish(2, 1).unwrap_or_else(|error| panic!("{error:?}"));
    assert_eq!(tracker.owned_pipe(), Some(2));
    assert_eq!(tracker.owned_pipe(), tracker.identity().and_then(|identity| identity.pipe));
    tracker.enter_fatal_quiescence();
    assert_eq!(tracker.owned_pipe(), Some(2));
    assert_eq!(tracker.owned_pipe(), tracker.identity().and_then(|identity| identity.pipe));
}
