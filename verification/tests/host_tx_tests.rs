use xr819_tx::host_tx::{
    append_pending_list, classify_header, non_aggregate_scheduler_decision,
    pas_submission_expired, pending_task_decision, remove_pending_list_node,
    requeued_retry_control_bits, scheduler_batch_control_bits, station_data_rate,
    valid_phase_transition, HeaderClassification, HostTxPhase, NonAggregateSchedulerDecision,
    NonAggregateSchedulerInput, PendingListInsertion, PendingListRemoval, PendingTaskDecision,
    PendingTaskInput,
};
use xr819_tx::pas_ring::PasRing;

#[test]
fn host_tx_phases_cannot_skip_queue_or_scheduler_ownership() {
    assert!(valid_phase_transition(HostTxPhase::Submitted, HostTxPhase::Classified));
    assert!(valid_phase_transition(HostTxPhase::PasQueued, HostTxPhase::SchedulerReserved));
    assert!(valid_phase_transition(HostTxPhase::SchedulerReserved, HostTxPhase::Scheduled));
    assert!(valid_phase_transition(HostTxPhase::Scheduled, HostTxPhase::PasQueued));
    assert!(!valid_phase_transition(HostTxPhase::Submitted, HostTxPhase::Scheduled));
    assert!(!valid_phase_transition(HostTxPhase::Completing, HostTxPhase::Submitted));
}

#[test]
fn header_classifier_preserves_qos_ack_policy_and_payload_split() {
    let mut frame = [0_u8; 40];
    frame[..2].copy_from_slice(&0x0188_u16.to_le_bytes());
    frame[4] = 0x02;
    frame[24..26].copy_from_slice(&0x0065_u16.to_le_bytes());

    let classification = classify_header(&frame, 0x0080_0000);
    assert_eq!(
        classification,
        Ok(HeaderClassification {
            frame_control: 0x0188,
            header_length: 26,
            payload_length: 14,
            qos_control: 0x0065,
            tid: 5,
            flags: 0x20f0_1201,
            assign_sequence: true,
        })
    );
}

#[test]
fn header_classifier_accepts_a_compressed_block_ack_request() {
    let mut frame = [0_u8; 20];
    frame[..2].copy_from_slice(&0x0084_u16.to_le_bytes());
    frame[4] = 0x02;
    frame[16..18].copy_from_slice(&0x3004_u16.to_le_bytes());
    frame[18..20].copy_from_slice(&0x0120_u16.to_le_bytes());

    assert_eq!(
        classify_header(&frame, 0),
        Ok(HeaderClassification {
            frame_control: 0x0084,
            header_length: 20,
            payload_length: 0,
            qos_control: 0,
            tid: 3,
            flags: 0x5000,
            assign_sequence: false,
        })
    );
}

#[test]
fn header_classifier_handles_four_address_ht_control() {
    let mut frame = [0_u8; 48];
    frame[..2].copy_from_slice(&0x8388_u16.to_le_bytes());
    frame[4] = 0x03;
    frame[30..32].copy_from_slice(&0x0002_u16.to_le_bytes());

    let classification = classify_header(&frame, 0);
    assert_eq!(classification.map(|value| value.header_length), Ok(36));
    assert_eq!(classification.map(|value| value.payload_length), Ok(12));
    assert_eq!(classification.map(|value| value.tid), Ok(2));
    assert_eq!(classification.map(|value| value.assign_sequence), Ok(false));
}

#[test]
fn station_data_rate_rejects_only_unsupported_indices() {
    assert_eq!(station_data_rate(0), 0);
    assert_eq!(station_data_rate(3), 3);
    assert_eq!(station_data_rate(4), 0);
    assert_eq!(station_data_rate(5), 0);
    assert_eq!(station_data_rate(6), 6);
    assert_eq!(station_data_rate(21), 21);
    assert_eq!(station_data_rate(u8::MAX), 0);
}

#[test]
fn pending_mode_zero_appends_instead_of_prepending() {
    assert_eq!(
        append_pending_list(0x1000, 0x2000, 0x3000),
        PendingListInsertion {
            context_next: 0,
            new_head: 0x1000,
            new_tail: 0x3000,
        }
    );
    assert_eq!(append_pending_list(0, 0, 0x3000).new_head, 0x3000);
}

#[test]
fn pending_removal_updates_head_tail_and_predecessor_separately() {
    assert_eq!(
        remove_pending_list_node(0x1000, 0x3000, 0, 0x1000, 0x2000),
        Some(PendingListRemoval {
            new_head: 0x2000,
            new_tail: 0x3000,
            prior_next: None,
        })
    );
    assert_eq!(
        remove_pending_list_node(0x1000, 0x3000, 0x2000, 0x3000, 0),
        Some(PendingListRemoval {
            new_head: 0x1000,
            new_tail: 0x2000,
            prior_next: Some(0),
        })
    );
}

#[test]
fn host_pas_entries_append_and_holes_are_compacted() {
    let mut ring = PasRing::empty();
    assert_eq!(ring.push(0x1054, 1), Ok(()));
    assert_eq!(ring.push(0x2054, 1), Ok(()));
    ring.entries[1] = 0;
    assert_eq!(ring.push(0x3054, 1), Ok(()));

    assert_eq!(ring.entries[3], 0x2054);
    assert_eq!(ring.entries[4], 0x3054);
    assert_eq!(ring.head, 3);
    assert_eq!(ring.tail, 5);
}

#[test]
fn pas_expiry_preserves_vendor_deadline_and_timer_wrap() {
    assert!(!pas_submission_expired(100, 100 + 0x007a_1200));
    assert!(pas_submission_expired(100, 101 + 0x007a_1200));
    assert!(!pas_submission_expired(u32::MAX - 10, 5));
}

#[test]
fn non_aggregate_scheduler_requires_ring_pipe_and_idle_ownership() {
    let ready = NonAggregateSchedulerInput {
        expired: false,
        pipe_allowed: true,
        pipe: 2,
        idle_pipe_mask: 0b0100,
        ring_contains_frame: true,
    };
    assert_eq!(
        non_aggregate_scheduler_decision(ready),
        NonAggregateSchedulerDecision::ReservePipe(2)
    );
    assert_eq!(
        non_aggregate_scheduler_decision(NonAggregateSchedulerInput {
            idle_pipe_mask: 0,
            ..ready
        }),
        NonAggregateSchedulerDecision::LeaveQueued
    );
    assert_eq!(
        non_aggregate_scheduler_decision(NonAggregateSchedulerInput {
            expired: true,
            ..ready
        }),
        NonAggregateSchedulerDecision::Complete(10)
    );
}

#[test]
fn requeued_retry_clears_scheduler_ownership_bits() {
    assert_eq!(requeued_retry_control_bits(0x1c08_0030), 0x0008_0010);
}

#[test]
fn ordinary_batch_marks_first_and_later_descriptors_differently() {
    let original = 0x0000_1234;
    assert_eq!(scheduler_batch_control_bits(original, 0), original | 0x0400_0000);
    assert_eq!(scheduler_batch_control_bits(original, 1), original | 0x0800_0000);
    assert_eq!(scheduler_batch_control_bits(original, 3), original | 0x0800_0000);
}

#[test]
fn pending_task_distinguishes_wait_reject_and_release() {
    let base = PendingTaskInput {
        global_blocked: false,
        active_link: true,
        link_gate_requests_removal: false,
        vif_operating: true,
        completion_class: 0,
        pipe_allowed: false,
        expired: false,
    };
    assert_eq!(pending_task_decision(base), PendingTaskDecision::LeaveQueued);
    assert_eq!(
        pending_task_decision(PendingTaskInput {
            active_link: false,
            ..base
        }),
        PendingTaskDecision::Complete(0x14)
    );
    assert_eq!(
        pending_task_decision(PendingTaskInput {
            pipe_allowed: true,
            ..base
        }),
        PendingTaskDecision::ReleaseToPas
    );
    assert_eq!(
        pending_task_decision(PendingTaskInput {
            expired: true,
            ..base
        }),
        PendingTaskDecision::Complete(10)
    );
}
