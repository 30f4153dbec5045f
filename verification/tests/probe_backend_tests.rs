use xr819_tx::context::ContextAddress;
use xr819_tx::completion::HostClass0Completion;
use xr819_tx::plans::BatchPosition;
use xr819_tx::probe_backend::{CompletionRecordError, SingleProbeMacBackend};

#[test]
fn backend_registers_a_single_publication_and_reports_its_completion() {
    let mut backend = SingleProbeMacBackend::new(2);
    let context = ContextAddress::new(0x0400_5a24);
    assert!(backend.register_publication(BatchPosition::Only, context, 1, 2));
    assert!(!backend.register_publication(BatchPosition::Only, context, 1, 3));
    assert_eq!(backend.take_completion(), None);

    assert_eq!(backend.record_completed_context(context, 0, 300), Ok(()));
    assert_eq!(
        backend.take_completion(),
        Some(HostClass0Completion {
            context: 0x0400_5a24,
            frame_node: 0x0400_5a78,
            pipe: 1,
            slot: 2,
            status: 0,
            ack_failures: 255,
        })
    );
    assert_eq!(backend.take_completion(), None);
    assert_eq!(backend.record_completed_context(context, 0, 0), Err(CompletionRecordError::NotPublished));
}

#[test]
fn backend_internal_completion_reports_retry_attempts_and_batches_follow_the_rules() {
    let mut backend = SingleProbeMacBackend::new(2);
    let internal = ContextAddress::new(0x0400_9084);
    let second = ContextAddress::new(0x0400_91f4);
    assert!(!backend.register_publication(BatchPosition::Last, internal, 0, 1));
    assert!(backend.register_publication(BatchPosition::First, internal, 0, 0));
    assert!(!backend.register_publication(BatchPosition::Middle, second, 0, 1));
    assert!(backend.register_publication(BatchPosition::Last, second, 0, 1));
    assert!(!backend.register_publication(BatchPosition::Only, second, 4, 0));
    assert!(!backend.register_publication(BatchPosition::Only, ContextAddress::new(0x0400_9088), 2, 0));

    assert_eq!(backend.record_completed_context(second, 0x0b, 9), Ok(()));
    assert_eq!(backend.record_completed_context(internal, 0, 9), Ok(()));
    let first = backend.take_completion().unwrap();
    assert_eq!((first.context, first.slot, first.status, first.ack_failures), (0x0400_91f4, 1, 0x0b, 0));
    let next = backend.take_completion().unwrap();
    assert_eq!((next.context, next.slot, next.ack_failures), (0x0400_9084, 0, 0));
}

#[test]
fn backend_refuses_completions_beyond_the_queue_depth() {
    let mut backend = SingleProbeMacBackend::new(1);
    let contexts = [0x0400_5a24, 0x0400_5b94, 0x0400_5d04, 0x0400_5e74];
    for round in 0..2 {
        for (pipe, raw) in contexts.iter().enumerate() {
            let context = ContextAddress::new(*raw);
            assert!(backend.register_publication(BatchPosition::Only, context, pipe as u8, round));
            assert_eq!(backend.record_completed_context(context, 0, 1), Ok(()));
        }
    }
    let context = ContextAddress::new(contexts[0]);
    assert!(backend.register_publication(BatchPosition::Only, context, 0, 3));
    assert_eq!(backend.record_completed_context(context, 0, 1), Err(CompletionRecordError::QueueFull));
    assert_eq!(backend.record_completed_context(context, 0, 1), Err(CompletionRecordError::NotPublished));
}
