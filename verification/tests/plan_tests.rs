use xr819_tx::ampdu::{build_planned_ampdu_descriptor, PlannedAmpduInput, PlannedAmpduMember};
use xr819_tx::block_ack::{
    classify_depth_two_block_ack, classify_planned_block_ack, depth_two_whole_retry_allowed,
    merge_depth_two_block_ack_states, merge_planned_block_ack, plan_depth_two_block_ack_actions,
    plan_planned_block_ack_actions, planned_whole_retry_allowed, BlockAckMemberAction,
    BlockAckMemberState, PlannedBlockAck,
};
use xr819_tx::completion::BoundedCompletionQueue;
use xr819_tx::context::{
    internal_context_address, ContextAddress, FrameNodeAddress, PublishedSlotIdentity,
    INTERNAL_CONTEXT_POOL, INTERNAL_TX_CONTEXT_COUNT, TX_CONTEXT_SIZE,
};
use xr819_tx::mac_event::{
    mac_fiq_pending, mac_service_pending, plan_mac_pipe_service, resolve_mac_status_event,
    MacEvent, MacEventEffect, MacPipeServicePlan, MacStatusSnapshot, SchedulerWord,
};
use xr819_tx::packet_ram::{
    ampdu_spacing_word_address, ampdu_transfer_word, tx_command, RuntimePacketAddress,
    RUNTIME_CPU_END,
};
use xr819_tx::phy::{
    ampdu_spacing_selector, build_depth_two_ampdu_descriptor, build_single_frame_pipe_descriptor, classify_dot11_header,
    validated_tx_frame, Dot11FixedHeaderLayout, Dot11HeaderShape, DepthTwoAmpduInput,
    ProbeBuildError, SingleFramePipeInput, TxFrameAddress, DOT11_FIXED_HEADER_LENGTH,
};
use xr819_tx::plans::{
    advance_watchdog_timer_divider, aggregate_retry_command_owned, ampdu_publication_indices,
    completion_drain_required, completion_retry_limit_offset, empty_retirement_allowed,
    mac_drain_tail_transition, parse_decimal_u8, pipe_slot_state_index,
    plan_mac_tx_status_accounting, plan_ordinary_tx_pipe_status, plan_pipe_watchdog,
    publication_bisect_matches, publication_registration_allowed, retained_slot_state_index,
    single_frame_slot_matches, wsm_status_from_internal, BatchPosition, MacTxStatusAccountingPlan,
    OrdinaryTxPipeCursorPlan, OrdinaryTxPipeStatusInput, OrdinaryTxPipeStatusPlan,
    PipeWatchdogAction,
};
use xr819_tx::probe::prepare_probe;
use xr819_tx::registers::slot_record_address;
use xr819_tx::tala::{tala_reduction, tala_reduction_at_decision};

#[test]
fn retry_state_indices_require_an_exact_pipe_slot_identity() {
    assert_eq!(pipe_slot_state_index(2, 3), Some(11));
    assert_eq!(pipe_slot_state_index(4, 0), None);
    assert_eq!(pipe_slot_state_index(0, 4), None);

    let slot = slot_record_address(2, 3);
    assert_eq!(retained_slot_state_index(2, slot), Some(11));
    assert_eq!(retained_slot_state_index(1, slot), None);
    assert_eq!(retained_slot_state_index(2, slot + 1), None);
    assert_eq!(retained_slot_state_index(4, slot), None);
}

#[test]
fn ampdu_publication_indices_preserve_head_slot_and_bound_members() {
    assert_eq!(ampdu_publication_indices(3, 2), Some([3, 0, usize::MAX, usize::MAX]));
    assert_eq!(ampdu_publication_indices(2, 4), Some([2, 0, 1, 3]));
    assert_eq!(ampdu_publication_indices(0, 1), None);
    assert_eq!(ampdu_publication_indices(0, 5), None);
    assert_eq!(ampdu_publication_indices(4, 2), None);
}

#[test]
fn publication_registration_rejects_overlapping_pipe_owners() {
    assert!(publication_registration_allowed([false; 4], BatchPosition::Only, 2));
    assert!(publication_registration_allowed([false; 4], BatchPosition::First, 3));
    assert!(!publication_registration_allowed([false; 4], BatchPosition::Last, 1));
    assert!(publication_registration_allowed([true, false, false, false], BatchPosition::Last, 1));
    assert!(!publication_registration_allowed([true, false, false, false], BatchPosition::Only, 1));
    assert!(!publication_registration_allowed([true, false, false, false], BatchPosition::Last, 0));
    assert!(!publication_registration_allowed(
        [true, false, false, false],
        BatchPosition::Middle,
        1,
    ));
    assert!(!publication_registration_allowed([true, false, true, false], BatchPosition::Last, 3));
    assert!(!publication_registration_allowed([false; 4], BatchPosition::Only, 4));
}

#[test]
fn class_zero_completion_queue_holds_the_configured_pipe_depth() {
    const CAPACITY: usize = 4 * 2;
    let mut completed = BoundedCompletionQueue::<u8, CAPACITY>::new();
    for value in 0..CAPACITY as u8 {
        assert_eq!(completed.push(value), Ok(()));
    }
    assert_eq!(completed.push(0xff), Err(0xff));
    for value in 0..CAPACITY as u8 {
        assert_eq!(completed.take(), Some(value));
    }
    assert_eq!(completed.take(), None);
    assert_eq!(completed.push(0xfe), Ok(()));
    assert_eq!(completed.take(), Some(0xfe));
}

#[test]
fn completion_queue_fills_the_first_hole_and_peeks_the_first_value() {
    let mut completed = BoundedCompletionQueue::<u8, 3>::new();
    assert_eq!(completed.first(), None);
    assert_eq!(completed.push(1), Ok(()));
    assert_eq!(completed.push(2), Ok(()));
    assert_eq!(completed.first(), Some(&1));
    assert_eq!(completed.take(), Some(1));
    assert_eq!(completed.first(), Some(&2));
    assert_eq!(completed.push(3), Ok(()));
    assert_eq!(completed.take(), Some(3));
    assert_eq!(completed.take(), Some(2));
}

fn unmatched_input(current: u8, last: u8) -> OrdinaryTxPipeStatusInput {
    OrdinaryTxPipeStatusInput {
        pipe_active: true,
        expected_status: 0x11,
        slot_kind: 0,
        slot_state: 3,
        global_busy: false,
        pipe_current: current,
        pipe_last: last,
        pipe_status: 5,
    }
}

#[test]
fn matching_status_still_uses_the_vendor_plan() {
    assert!(matches!(
        plan_ordinary_tx_pipe_status(unmatched_input(2, 2), 0x11),
        OrdinaryTxPipeStatusPlan::Complete { .. }
    ));
}

#[test]
fn watchdog_timer_divider_samples_once_per_sixteen_passes() {
    let mut countdown = 0;
    let mut samples = 0;
    for _ in 0..64 {
        let (next, due) = advance_watchdog_timer_divider(countdown);
        countdown = next;
        samples += usize::from(due);
    }
    assert_eq!(samples, 4);
    assert_eq!(countdown, 0);
}

#[test]
fn pipe_watchdog_ignores_unprogrammed_or_idle_pipes() {
    assert_eq!(plan_pipe_watchdog(false, true, 5), PipeWatchdogAction::Idle);
    assert_eq!(plan_pipe_watchdog(true, false, 5), PipeWatchdogAction::Idle);
}

#[test]
fn empty_retirement_rejects_retry_owned_aggregate_slots() {
    assert!(empty_retirement_allowed(0, 0, 3));
    assert!(empty_retirement_allowed(0, 1, 3));
    assert!(!empty_retirement_allowed(0, 1, 4));
    assert!(!empty_retirement_allowed(0x0400_5ad8, 0, 3));
}

#[test]
fn pipe_watchdog_counts_down_then_nudges_then_expires() {
    assert_eq!(plan_pipe_watchdog(true, true, 5), PipeWatchdogAction::Tick);
    assert_eq!(plan_pipe_watchdog(true, true, 3), PipeWatchdogAction::Tick);
    assert_eq!(plan_pipe_watchdog(true, true, 2), PipeWatchdogAction::Nudge);
    assert_eq!(plan_pipe_watchdog(true, true, 1), PipeWatchdogAction::Nudge);
    assert_eq!(plan_pipe_watchdog(true, true, 0), PipeWatchdogAction::Expired);
    assert_eq!(plan_pipe_watchdog(true, true, -1), PipeWatchdogAction::Expired);
}

#[test]
fn publication_bisect_matches_only_the_selected_nonzero_boundary() {
    assert_eq!(parse_decimal_u8("0"), 0);
    assert_eq!(parse_decimal_u8("15"), 15);
    assert_eq!(parse_decimal_u8("255"), 255);
    assert!(!publication_bisect_matches(0, 0));
    assert!(!publication_bisect_matches(0, 6));
    assert!(publication_bisect_matches(6, 6));
    assert!(!publication_bisect_matches(6, 7));
}

#[test]
fn ordinary_status_plan_marks_before_suppression_and_reuses_completion_helper_boundary() {
    let input = OrdinaryTxPipeStatusInput {
        pipe_active: true,
        expected_status: 0x0b,
        slot_kind: 0,
        slot_state: 3,
        global_busy: true,
        pipe_current: 1,
        pipe_last: 2,
        pipe_status: 0,
    };
    assert_eq!(
        plan_ordinary_tx_pipe_status(input, 0x0b),
        OrdinaryTxPipeStatusPlan::SuppressedAfterSlotMark
    );

    let input = OrdinaryTxPipeStatusInput { global_busy: false, slot_kind: 2, ..input };
    assert_eq!(
        plan_ordinary_tx_pipe_status(input, 0x0b),
        OrdinaryTxPipeStatusPlan::AdvanceWithoutCompletion {
            initialize_pipe_status: true,
            next_current: 2,
        }
    );

    let input = OrdinaryTxPipeStatusInput { slot_kind: 0, pipe_current: 2, pipe_last: 2, ..input };
    assert_eq!(
        plan_ordinary_tx_pipe_status(input, 0x0b),
        OrdinaryTxPipeStatusPlan::Complete {
            initialize_pipe_status: true,
            cursor: OrdinaryTxPipeCursorPlan::Recycle { next_head: 3 },
        }
    );
}

#[test]
fn tx_status_accounting_plan_matches_vendor_status_classes() {
    assert_eq!(
        plan_mac_tx_status_accounting(0),
        MacTxStatusAccountingPlan {
            increment_range_counter: false,
            specific_counter: Some(0xfff0_2e40),
            increment_total_counter: false,
            service_status_0e_side_effects: false,
        }
    );
    assert_eq!(
        plan_mac_tx_status_accounting(4),
        MacTxStatusAccountingPlan {
            increment_range_counter: false,
            specific_counter: Some(0xfff0_1a94),
            increment_total_counter: true,
            service_status_0e_side_effects: false,
        }
    );
    assert!(plan_mac_tx_status_accounting(6).increment_range_counter);
    assert!(plan_mac_tx_status_accounting(0x18).increment_range_counter);
    assert!(!plan_mac_tx_status_accounting(0x19).increment_range_counter);
    assert!(plan_mac_tx_status_accounting(0x0e).service_status_0e_side_effects);
}

#[test]
fn mac_event_decoder_matches_vendor_bitfields() {
    let raw = (1 << 25) | (1 << 24) | (2 << 18) | (3 << 16) | (0x37 << 8) | 0x19;
    assert_eq!(
        MacEvent::decode(raw),
        Some(MacEvent {
            raw,
            event_type: 0x37,
            pipe: 2,
            phase: 3,
            status: 0x19,
            pipe_marker: true,
            completion_marker: true,
            fatal_marker: false,
            pipe_service_marker: false,
            beacon_marker: false,
            sideband_marker: false,
        })
    );
    assert_eq!(MacEvent::decode(u32::MAX), None);
}

#[test]
fn literal_status_2_event_has_no_pipe_service_or_retry_escalation() {
    let event = MacEvent::decode(0x0140_3902).unwrap_or_else(|| panic!("status-2 event decoded empty"));
    assert_eq!(event.event_type, 0x39);
    assert_eq!(event.completion_status(), Some(2));
    assert!(event.completion_marker);
    assert!(!event.pipe_service_marker);
    let resolution = resolve_mac_status_event(
        event,
        MacStatusSnapshot {
            pre_service_scheduler_word: SchedulerWord::new(0x100),
            latched_pipe: 0,
            pipe_active: true,
            slot_expected_status: 0x11,
            slot_state: 5,
            global_busy: false,
            mismatch_count: 2,
        },
    )
    .unwrap_or_else(|| panic!("missing status-2 resolution"));
    assert!(resolution.dispatch_ordinary);
    assert!(!resolution.ordinary_completion_eligible);
    assert!(!resolution.direct_retry);
    assert_eq!(resolution.next_mismatch_count, 2);
    assert!(!resolution.escalation_retry);
}

#[test]
fn cooperative_mac_dispatch_uses_vendor_fiq_source() {
    assert!(!mac_fiq_pending(0));
    assert!(mac_fiq_pending(1 << 0x16));
    assert!(!mac_fiq_pending(1 << 0x15));
    assert!(!mac_fiq_pending(1 << 0x17));
    assert!(!mac_service_pending(0, u32::MAX));
    assert!(mac_service_pending(1 << 0x16, u32::MAX));
    assert!(mac_service_pending(0, 0));
}

#[test]
fn mac_status_uses_saved_scheduler_word_and_exact_terminal_gate() {
    let event =
        MacEvent::decode((1 << 24) | 0x0b).unwrap_or_else(|| panic!("status event decoded empty"));
    let resolution = resolve_mac_status_event(
        event,
        MacStatusSnapshot {
            pre_service_scheduler_word: SchedulerWord::new(0x100),
            latched_pipe: 0,
            pipe_active: true,
            slot_expected_status: 0x0b,
            slot_state: 3,
            global_busy: false,
            mismatch_count: 0,
        },
    )
    .unwrap_or_else(|| panic!("missing resolution"));
    assert_eq!(resolution.pending_mask, 0x100);
    assert!(resolution.dispatch_ordinary);
    assert!(resolution.ordinary_completion_eligible);
    assert!(!resolution.direct_retry);
}

#[test]
fn mac_status_mismatch_escalates_only_after_third_bit23_event() {
    let event = MacEvent::decode((1 << 24) | (1 << 23) | 0x0b)
        .unwrap_or_else(|| panic!("status event decoded empty"));
    let resolution = resolve_mac_status_event(
        event,
        MacStatusSnapshot {
            pre_service_scheduler_word: SchedulerWord::new(0x200),
            latched_pipe: 1,
            pipe_active: true,
            slot_expected_status: 4,
            slot_state: 3,
            global_busy: false,
            mismatch_count: 2,
        },
    )
    .unwrap_or_else(|| panic!("missing resolution"));
    assert!(!resolution.ordinary_completion_eligible);
    assert_eq!(resolution.next_mismatch_count, 3);
    assert!(resolution.escalation_retry);
}

#[test]
fn direct_retry_requires_saved_pending_bit_but_not_slot_state_three() {
    let event =
        MacEvent::decode((1 << 24) | 0x19).unwrap_or_else(|| panic!("status event decoded empty"));
    let resolution = resolve_mac_status_event(
        event,
        MacStatusSnapshot {
            pre_service_scheduler_word: SchedulerWord::new(0x400),
            latched_pipe: 2,
            pipe_active: true,
            slot_expected_status: 0x19,
            slot_state: 4,
            global_busy: false,
            mismatch_count: 0,
        },
    )
    .unwrap_or_else(|| panic!("missing resolution"));
    assert_eq!(resolution.pending_mask, 0x400);
    assert!(!resolution.dispatch_ordinary);
    assert!(resolution.direct_retry);
}

#[test]
fn bit23_mismatch_uses_post_dispatch_slot_and_saved_pending_mask() {
    let event = MacEvent::decode((1 << 24) | (1 << 23) | 0x0b)
        .unwrap_or_else(|| panic!("status event decoded empty"));
    let resolution = resolve_mac_status_event(
        event,
        MacStatusSnapshot {
            pre_service_scheduler_word: SchedulerWord::new(0x100),
            latched_pipe: 0,
            pipe_active: true,
            slot_expected_status: 4,
            slot_state: 5,
            global_busy: false,
            mismatch_count: 2,
        },
    )
    .unwrap_or_else(|| panic!("missing resolution"));
    assert_eq!(resolution.pending_mask, 0x100);
    assert_eq!(resolution.next_mismatch_count, 3);
    assert!(resolution.escalation_retry);

    let no_pending = resolve_mac_status_event(
        event,
        MacStatusSnapshot {
            pre_service_scheduler_word: SchedulerWord::new(0),
            latched_pipe: 0,
            pipe_active: true,
            slot_expected_status: 4,
            slot_state: 5,
            global_busy: false,
            mismatch_count: 2,
        },
    )
    .unwrap_or_else(|| panic!("missing resolution"));
    assert_eq!(no_pending.next_mismatch_count, 2);
    assert!(!no_pending.escalation_retry);
}

#[test]
fn pipe_service_plan_preserves_vendor_priority_and_acknowledgements() {
    assert_eq!(
        plan_mac_pipe_service(SchedulerWord::new(0x1095), 3),
        MacPipeServicePlan::LowNibble {
            asserted: 5,
            backoff_pipe_mask: 5,
            trigger: 5 << 25,
            acknowledgement: !5_u32,
        }
    );
    assert_eq!(
        plan_mac_pipe_service(SchedulerWord::new(0x1080), 3),
        MacPipeServicePlan::MiddleNibble {
            selected_pipe: 3,
            quantum_pointer_address: 0x0400_10e0,
            trigger: 1 << 28,
            acknowledgement: !0x80_u32,
        }
    );
    assert_eq!(
        plan_mac_pipe_service(SchedulerWord::new(0x2000), 1),
        MacPipeServicePlan::HighNibble { selected_pipe: 1, acknowledgement: !0x2000_u32 }
    );
}

#[test]
fn pipe_service_plan_without_pending_bits_does_nothing() {
    assert_eq!(plan_mac_pipe_service(SchedulerWord::new(0), 2), MacPipeServicePlan::NoService);
}

#[test]
fn completion_callback_retry_limit_offsets_follow_the_table_selector() {
    assert_eq!(completion_retry_limit_offset(false), 0x114);
    assert_eq!(completion_retry_limit_offset(true), 0x115);
}

#[test]
fn native_internal_context_pool_preserves_context_stride() {
    assert_eq!(TX_CONTEXT_SIZE, 0x170);
    assert_eq!(INTERNAL_TX_CONTEXT_COUNT, 3);
    assert_eq!(INTERNAL_CONTEXT_POOL, 0x0400_9080);
    assert_eq!(internal_context_address(0).raw(), 0x0400_9084);
    assert_eq!(
        internal_context_address(2).raw() - internal_context_address(0).raw(),
        2 * TX_CONTEXT_SIZE
    );
}

#[test]
fn completion_enqueue_scheduler_gate_matches_vendor_branches() {
    assert!(completion_drain_required(6, 0x0040, true));
    assert!(completion_drain_required(0, 0x0040, true));
    assert!(!completion_drain_required(0, 0x0048, true));
    assert!(completion_drain_required(0, 0x0048, false));
}

#[test]
fn mac_drain_tail_requires_request_and_either_idle_predicate() {
    assert_eq!(mac_drain_tail_transition(0, true, true), None);
    assert_eq!(mac_drain_tail_transition(2, false, false), None);
    assert_eq!(mac_drain_tail_transition(2, true, false), Some(4));
    assert_eq!(mac_drain_tail_transition(2, false, true), Some(4));
    assert_eq!(mac_drain_tail_transition(0xff, true, false), Some(0xfd));
}

#[test]
fn context_and_frame_node_addresses_round_trip() {
    let context = ContextAddress::from_raw(0x0400_9084).unwrap();
    let frame_node = FrameNodeAddress::from_raw(0x0400_90d8).unwrap();
    assert_eq!(context.frame_node(), frame_node);
    assert_eq!(frame_node.context(), context);
    assert_eq!(ContextAddress::from_raw(0x0400_9088), None);
    assert_eq!(FrameNodeAddress::from_raw(0x0400_90dc), None);

    let publication = PublishedSlotIdentity::new(context, 2, 3).unwrap();
    assert_eq!(publication.context, context);
    assert_eq!(publication.frame_node, frame_node);
    assert_eq!(publication.command, tx_command(2, 3));
    assert!(PublishedSlotIdentity::new(context, 4, 0).is_none());
    assert!(PublishedSlotIdentity::new(context, 0, 4).is_none());
}

#[test]
fn context_fields_use_typed_host_and_internal_layouts() {
    let internal = ContextAddress::new(0x0400_9084);
    let host = ContextAddress::new(0x0400_5a24);

    assert_eq!(internal.requested_rate_address(), 0x0400_9090);
    assert_eq!(internal.queue_id_address(), 0x0400_9091);
    assert_eq!(internal.request_flags_address(), 0x0400_9093);
    assert_eq!(internal.completion_status_address(), 0x0400_90a4);
    assert_eq!(internal.header_length_address(), 0x0400_90c8);
    assert_eq!(internal.payload_length_address(), 0x0400_90cc);
    assert_eq!(internal.sequence_or_callback_state_address(), 0x0400_90d4);
    assert_eq!(internal.submit_state_address(), 0x0400_90d6);
    assert_eq!(internal.frame_address_address(), 0x0400_90d8);
    assert_eq!(internal.expiry_time_address(), 0x0400_90e8);
    assert_eq!(internal.ownership_bits_address(), 0x0400_9104);
    assert_eq!(internal.timing_reset_32_address(), 0x0400_910a);
    assert_eq!(internal.timing_reset_34_address(), 0x0400_910c);
    assert_eq!(internal.duration_address(), 0x0400_910e);
    assert_eq!(internal.payload_extended_address(), 0x0400_9110);
    assert_eq!(internal.payload_base_address(), 0x0400_9112);
    assert_eq!(internal.word_48_address(), 0x0400_9120);
    assert_eq!(internal.insertion_mode_address(), 0x0400_912b);
    assert_eq!(internal.byte_57_address(), 0x0400_912f);
    assert_eq!(internal.retry_random_address(), 0x0400_9132);
    assert_eq!(internal.link_id_address(), 0x0400_9144);
    assert_eq!(internal.qos_control_address(), 0x0400_914c);
    assert_eq!(internal.cipher_class_address(), 0x0400_914e);
    assert_eq!(internal.word_7c_address(), 0x0400_9154);

    assert_eq!(host.requested_rate_address(), 0x0400_5a30);
    assert_eq!(host.queue_id_address(), 0x0400_5a31);
    assert_eq!(host.request_flags_address(), 0x0400_5a33);
    assert_eq!(host.completion_status_address(), 0x0400_5a44);
    assert_eq!(host.header_length_address(), 0x0400_5a68);
    assert_eq!(host.payload_length_address(), 0x0400_5a6c);
    assert_eq!(host.sequence_or_callback_state_address(), 0x0400_5a74);
    assert_eq!(host.submit_state_address(), 0x0400_5a76);
    assert_eq!(host.frame_address_address(), 0x0400_5a78);
    assert_eq!(host.expiry_time_address(), 0x0400_5a88);
    assert_eq!(host.ownership_bits_address(), 0x0400_5aa4);
    assert_eq!(host.timing_reset_32_address(), 0x0400_5aaa);
    assert_eq!(host.timing_reset_34_address(), 0x0400_5aac);
    assert_eq!(host.duration_address(), 0x0400_5aae);
    assert_eq!(host.payload_extended_address(), 0x0400_5ab0);
    assert_eq!(host.payload_base_address(), 0x0400_5ab2);
    assert_eq!(host.word_48_address(), 0x0400_5ac0);
    assert_eq!(host.insertion_mode_address(), 0x0400_5acb);
    assert_eq!(host.byte_57_address(), 0x0400_5acf);
    assert_eq!(host.retry_random_address(), 0x0400_5ad2);
    assert_eq!(host.link_id_address(), 0x0400_5ae4);
    assert_eq!(host.qos_control_address(), 0x0400_5aec);
    assert_eq!(host.cipher_class_address(), 0x0400_5aee);
    assert_eq!(host.word_7c_address(), 0x0400_5af4);
}

#[test]
fn mac_event_plan_preserves_vendor_multi_marker_order() {
    let raw = (1 << 26)
        | (1 << 25)
        | (1 << 24)
        | (1 << 23)
        | (2 << 18)
        | (3 << 16)
        | (0x37 << 8)
        | (1 << 7)
        | 0x19;
    let event = MacEvent::decode(raw).unwrap_or_else(|| panic!("valid event decoded empty"));
    assert_eq!(
        event.dispatch_plan().effects(),
        &[
            Some(MacEventEffect::Trace),
            Some(MacEventEffect::PipePhase { event_type: 0x37, phase: 3, latch_index: Some(2) }),
            Some(MacEventEffect::PipeService),
            Some(MacEventEffect::TxStatus {
                event_type: 0x37,
                status: 0x19,
                pipe_service_escalation: true,
            }),
            Some(MacEventEffect::Beacon),
            Some(MacEventEffect::Sideband),
            Some(MacEventEffect::Archive),
        ]
    );
}

#[test]
fn fatal_mac_event_stops_before_all_later_marker_effects() {
    let raw = (1 << 30) | (1 << 26) | (1 << 25) | (1 << 24) | (1 << 23) | (1 << 7);
    let event = MacEvent::decode(raw).unwrap_or_else(|| panic!("valid event decoded empty"));
    assert_eq!(
        event.dispatch_plan().effects(),
        &[Some(MacEventEffect::Trace), Some(MacEventEffect::Fatal)]
    );
}

#[test]
fn single_frame_slot_accepts_both_ack_and_no_ack_frame_kinds() {
    assert!(single_frame_slot_matches(0x0400_90d8, 0x0400_90d8, 0, 0xff, 0xff));
    assert!(single_frame_slot_matches(0x0400_90d8, 0x0400_90d8, 0, 0x11, 0x11));
    assert!(!single_frame_slot_matches(0x0400_90d8, 0x0400_90d8, 0, 0xff, 0x11));
}

#[test]
fn tx_frame_validation_rejects_short_frames_aliases_and_range_ends() {
    assert_eq!(validated_tx_frame(0x0901_4fe8, 42).map(TxFrameAddress::raw), Some(0x0901_4fe8));
    assert_eq!(validated_tx_frame(0x0901_4fe8, 23), None);
    assert_eq!(validated_tx_frame(0x0001_4fe8, 42), None);
    assert_eq!(
        validated_tx_frame(RUNTIME_CPU_END - 24, 24).map(TxFrameAddress::raw),
        Some(RUNTIME_CPU_END - 24),
    );
    assert_eq!(validated_tx_frame(RUNTIME_CPU_END - 23, 24), None);
}

#[test]
fn dot11_header_shapes_keep_software_parsing_separate_from_descriptor_split() {
    assert_eq!(core::mem::size_of::<Dot11FixedHeaderLayout>(), 24);
    let frame = TxFrameAddress::new(0x0901_4fe8);
    assert_eq!(frame.frame_control(), 0x0901_4fe8);
    assert_eq!(frame.address_1(), 0x0901_4fec);
    assert_eq!(frame.address_2_byte_unchecked(0), 0x0901_4ff2);
    assert_eq!(frame.sequence_control(), 0x0901_4ffe);
    assert_eq!(frame.payload_after_fixed_header(), 0x0901_5000);

    assert_eq!(classify_dot11_header(0x0008, false), Dot11HeaderShape { length: 24, qos_data: false });
    assert_eq!(classify_dot11_header(0x0308, false), Dot11HeaderShape { length: 30, qos_data: false });
    assert_eq!(classify_dot11_header(0x0088, false), Dot11HeaderShape { length: 26, qos_data: true });
    assert_eq!(classify_dot11_header(0x8088, false), Dot11HeaderShape { length: 30, qos_data: true });
    assert_eq!(classify_dot11_header(0x0388, false), Dot11HeaderShape { length: 32, qos_data: true });
    assert_eq!(classify_dot11_header(0x8388, false), Dot11HeaderShape { length: 36, qos_data: true });
    assert_eq!(classify_dot11_header(0x0088, true), Dot11HeaderShape { length: 24, qos_data: false });
}

#[test]
fn tx_frame_view_splits_the_second_address() {
    let frame = TxFrameAddress::new(0x0901_4fe8);
    assert_eq!(frame.address_2_byte_unchecked(5), 0x0901_4ff7);
    assert_eq!(frame.address_2_halfword_unchecked(2), 0x0901_4ff6);
}

#[test]
fn single_frame_descriptor_matches_vendor_command_shape() {
    let input = SingleFramePipeInput {
        phy_rate_word: 0x123456,
        phy_control_word: 0xabcdef,
        frame_length: 42,
        hardware_rate: 3,
        frame_control: 0x0040,
        retry_flag: true,
        metadata_address: RuntimePacketAddress::new(0x0901_2345, 1).unwrap(),
        duration: 0x0064,
        header_address: RuntimePacketAddress::new(0x0901_4fe8, 42).unwrap(),
        secondary_command: 0x2100_1234,
        address_mask: u32::MAX,
        terminal_command: 0x4e14_0000,
    };
    let descriptor = build_single_frame_pipe_descriptor(input).unwrap();
    assert_eq!(
        descriptor.words(),
        &[
            0x5112_3456,
            0x50ab_cdef,
            0x5203_002e,
            0x3100_0840,
            0x4700_0008,
            0x2081_2345,
            0x3200_0064,
            0x2901_4fec,
            0x2100_1234,
            0x4001_5000,
            0x0001_2000,
            0x4e14_0000,
            0xf000_0000,
        ]
    );
    assert_eq!(
        build_single_frame_pipe_descriptor(SingleFramePipeInput {
            frame_length: DOT11_FIXED_HEADER_LENGTH - 1,
            ..input
        }),
        Err(ProbeBuildError::PacketRamMismatch),
    );
}

#[test]
fn depth_two_block_ack_classifies_wrapped_window_members() {
    assert_eq!(
        classify_depth_two_block_ack(0x0fff, 0b11, [0x0fff, 0x0000]),
        [BlockAckMemberState::Acknowledged; 2],
    );
    assert_eq!(
        classify_depth_two_block_ack(0x0100, 0b01, [0x0100, 0x0101]),
        [BlockAckMemberState::Acknowledged, BlockAckMemberState::Missing],
    );
    let outside = classify_depth_two_block_ack(0x0100, u64::MAX, [0x0100, 0x0140]);
    assert_eq!(outside, [BlockAckMemberState::Acknowledged, BlockAckMemberState::OutsideWindow]);
    assert_eq!(
        plan_depth_two_block_ack_actions(outside, [true, true], true),
        [BlockAckMemberAction::Confirm, BlockAckMemberAction::GiveUp],
    );
    assert_eq!(
        plan_depth_two_block_ack_actions(outside, [true, true], false),
        [BlockAckMemberAction::Confirm, BlockAckMemberAction::GiveUp],
    );
    assert_eq!(
        plan_depth_two_block_ack_actions(
            [BlockAckMemberState::Missing, BlockAckMemberState::Missing],
            [true, false],
            true,
        ),
        [BlockAckMemberAction::Retry, BlockAckMemberAction::GiveUp],
    );
    assert!(depth_two_whole_retry_allowed([true; 2], true, [19; 2]));
    assert!(!depth_two_whole_retry_allowed([true, false], true, [19; 2]));
    assert!(!depth_two_whole_retry_allowed([true; 2], false, [19; 2]));
    assert!(!depth_two_whole_retry_allowed([true; 2], true, [19, 18]));
    assert!(aggregate_retry_command_owned(1, 4));
    assert!(!aggregate_retry_command_owned(1, 3));
    assert!(!aggregate_retry_command_owned(0, 4));
}

#[test]
fn depth_two_block_ack_accumulates_repeated_and_growing_bitmaps() {
    let sequences = [0x0100, 0x0101];
    let first_only = classify_depth_two_block_ack(0x0100, 0b01, sequences);
    let repeated_first = merge_depth_two_block_ack_states(Some(first_only), first_only);
    assert_eq!(repeated_first, [BlockAckMemberState::Acknowledged, BlockAckMemberState::Missing]);

    let second_only = classify_depth_two_block_ack(0x0100, 0b10, sequences);
    assert_eq!(
        merge_depth_two_block_ack_states(Some(repeated_first), second_only),
        [BlockAckMemberState::Acknowledged; 2],
    );
    assert_eq!(
        merge_depth_two_block_ack_states(Some(second_only), first_only),
        [BlockAckMemberState::Acknowledged; 2],
    );

    let total_miss = classify_depth_two_block_ack(0x0100, 0, sequences);
    assert_eq!(total_miss, [BlockAckMemberState::Missing; 2]);
    assert_eq!(
        plan_depth_two_block_ack_actions(total_miss, [true; 2], true),
        [BlockAckMemberAction::Retry; 2],
    );
    assert_eq!(
        plan_depth_two_block_ack_actions(total_miss, [true; 2], false),
        [BlockAckMemberAction::GiveUp; 2],
    );

    let shifted = classify_depth_two_block_ack(0x0101, 0b1, sequences);
    assert_eq!(
        merge_depth_two_block_ack_states(Some(first_only), shifted),
        [BlockAckMemberState::Acknowledged; 2],
    );
}

#[test]
fn planned_block_ack_handles_four_wrapped_members_and_sticky_updates() {
    let sequences = [Some(0x0ffe), Some(0x0fff), Some(0x0000), Some(0x0001)];
    let Some(first_half) = classify_planned_block_ack(0x0ffe, 0b0011, sequences) else {
        panic!("four contiguous wrapped sequences must classify");
    };
    assert_eq!(
        first_half.states,
        [
            BlockAckMemberState::Acknowledged,
            BlockAckMemberState::Acknowledged,
            BlockAckMemberState::Missing,
            BlockAckMemberState::Missing,
        ],
    );
    let Some(second_half) = classify_planned_block_ack(0x0ffe, 0b1100, sequences) else {
        panic!("shifted acknowledgement half must classify");
    };
    let Some(merged) = merge_planned_block_ack(Some(first_half), second_half) else {
        panic!("matching aggregate observations must merge");
    };
    assert_eq!(merged.states, [BlockAckMemberState::Acknowledged; 4]);
    assert_eq!(
        plan_planned_block_ack_actions(merged, [true; 4], true),
        [Some(BlockAckMemberAction::Confirm); 4],
    );
}

#[test]
fn planned_block_ack_distinguishes_partial_and_whole_retry() {
    let observation = PlannedBlockAck {
        states: [
            BlockAckMemberState::Acknowledged,
            BlockAckMemberState::Missing,
            BlockAckMemberState::OutsideWindow,
            BlockAckMemberState::Missing,
        ],
        member_count: 4,
    };
    assert_eq!(
        plan_planned_block_ack_actions(observation, [true, true, true, false], true),
        [
            Some(BlockAckMemberAction::Confirm),
            Some(BlockAckMemberAction::Retry),
            Some(BlockAckMemberAction::GiveUp),
            Some(BlockAckMemberAction::GiveUp),
        ],
    );

    let total_miss = PlannedBlockAck { states: [BlockAckMemberState::Missing; 4], member_count: 4 };
    assert!(planned_whole_retry_allowed(total_miss, [true; 4], true, [Some(18); 4]));
    assert!(!planned_whole_retry_allowed(
        total_miss,
        [true; 4],
        true,
        [Some(18), Some(18), Some(17), Some(18)],
    ));
    assert!(!planned_whole_retry_allowed(total_miss, [true; 4], false, [Some(18); 4]));
    assert!(merge_planned_block_ack(Some(PlannedBlockAck { member_count: 3, ..total_miss }), total_miss)
        .is_none());
}

#[test]
fn depth_two_ampdu_descriptor_matches_vendor_opcode_stream() {
    assert_eq!(ampdu_spacing_selector(0, 19), 0);
    assert_eq!(ampdu_spacing_selector(4, 19), 4);
    assert_eq!(ampdu_spacing_selector(7, 21), 33);
    assert_eq!(ampdu_spacing_selector(8, 19), 0);
    assert_eq!(ampdu_spacing_selector(4, 13), 0);
    let base = DepthTwoAmpduInput {
        first_frame_state: 0x0901_0000,
        second_frame_state: 0x0901_0400,
        first_frame_length: 1500,
        second_frame_length: 1500,
        phy_rate_word: 0x031407,
        phy_control_word: 0x06c006,
        hardware_rate: 0x0c,
        spacing_selector: 0,
    };
    let descriptor = build_depth_two_ampdu_descriptor(base);
    assert_eq!(descriptor.aggregate_length, 0x0bc8);
    assert_eq!(descriptor.length, 4);
    assert_eq!(
        &descriptor.words[..usize::from(descriptor.length)],
        &[0x6501_0008, 0x6600_0000, 0x6501_0408, 0xe400_0000],
    );
    assert_eq!(descriptor.phy_words, [0x5103_1407, 0x5006_c006, 0x520c_0bc8]);

    let spaced = build_depth_two_ampdu_descriptor(DepthTwoAmpduInput { spacing_selector: 2, ..base });
    assert_eq!(spaced.length, 5);
    assert_eq!(spaced.aggregate_length, 0x0bd0);
    assert_eq!(spaced.phy_words[2], 0x520c_0bd0);
    assert_eq!(Some(spaced.words[2]), ampdu_transfer_word(ampdu_spacing_word_address(2)));
}

#[test]
fn internal_completion_status_matches_vendor_wsm_switch_table() {
    assert_eq!(wsm_status_from_internal(0), 0);
    assert_eq!(wsm_status_from_internal(11), 6);
    assert_eq!(wsm_status_from_internal(10), 7);
    assert_eq!(wsm_status_from_internal(21), 4);
    assert_eq!(wsm_status_from_internal(24), 15);
    assert_eq!(wsm_status_from_internal(25), 1);
}

#[test]
fn probe_builder_substitutes_ssid_and_channel() {
    let mut template = [0_u8; 4 + 24 + 2 + 3 + 4];
    template[0] = 0;
    template[1] = 6;
    let frame_len = (template.len() - 4) as u16;
    template[2..4].copy_from_slice(&frame_len.to_le_bytes());
    let ies = 4 + 24;
    template[ies..ies + 2].copy_from_slice(&[0, 0]);
    template[ies + 2..ies + 5].copy_from_slice(&[3, 1, 11]);
    template[ies + 5..ies + 9].copy_from_slice(&[1, 2, 0x82, 0x84]);

    let probe = match prepare_probe(Some(&template), b"test", 6) {
        Ok(probe) => probe,
        Err(error) => panic!("probe build failed: {error:?}"),
    };
    assert_eq!(probe.rate(), 6);
    assert_eq!(&probe.bytes()[24..], &[0, 4, b't', b'e', b's', b't', 3, 1, 6, 1, 2, 0x82, 0x84]);
}

#[test]
fn probe_builder_rejects_non_probe_template() {
    assert_eq!(prepare_probe(Some(&[1, 0, 0, 0]), b"", 1).err(), Some(ProbeBuildError::WrongTemplateType));
}

#[test]
fn probe_builder_appends_a_missing_ssid_and_rejects_bad_inputs() {
    let mut template = [0_u8; 4 + 24 + 3];
    template[1] = 2;
    template[2] = 27;
    template[28..31].copy_from_slice(&[3, 1, 1]);
    let probe = prepare_probe(Some(&template), b"ab", 9).unwrap_or_else(|_| panic!("build failed"));
    assert_eq!(probe.rate(), 2);
    assert_eq!(&probe.bytes()[24..], &[3, 1, 9, 0, 2, b'a', b'b']);

    assert_eq!(prepare_probe(None, b"", 1).err(), Some(ProbeBuildError::MissingTemplate));
    assert_eq!(prepare_probe(Some(&template), &[b'x'; 33], 1).err(), Some(ProbeBuildError::SsidTooLong));
    assert_eq!(prepare_probe(Some(&[0, 0, 0]), b"", 1).err(), Some(ProbeBuildError::MalformedTemplate));
    let mut truncated = template;
    truncated[29] = 5;
    assert_eq!(prepare_probe(Some(&truncated), b"", 1).err(), Some(ProbeBuildError::MalformedTemplate));
    let mut short_header = template;
    short_header[2] = 20;
    assert_eq!(prepare_probe(Some(&short_header), b"", 1).err(), Some(ProbeBuildError::MalformedTemplate));
}

#[test]
fn tala_reduction_preserves_vendor_threshold_order_and_boundaries() {
    let parameters = 0x1914_0f0a;
    assert_eq!(tala_reduction(16, 4, 100, parameters, 2), (8, 0));
    assert_eq!(tala_reduction(16, 5, 100, parameters, 2), (10, 1));
    assert_eq!(tala_reduction(16, 6, 100, parameters, 2), (12, 1));
    assert_eq!(tala_reduction(16, 8, 100, parameters, 2), (14, 2));
    assert_eq!(tala_reduction(16, 11, 100, parameters, 2), (16, 2));
}

#[test]
fn tala_ampdu_length_is_read_at_the_reduction_decision() {
    let reads = core::cell::Cell::new(0);
    let result = tala_reduction_at_decision(
        || {
            reads.set(reads.get() + 1);
            16
        },
        8,
        100,
        0x1914_0f0a,
        2,
    );
    assert_eq!(reads.get(), 1);
    assert_eq!(result, (14, 2));
}

#[test]
fn tala_uses_only_the_low_byte_of_the_ampdu_length() {
    assert_eq!(tala_reduction_at_decision(|| 0x0110, 4, 100, 0x1914_0f0a, 2), (8, 0));
}

#[test]
fn planned_depth_four_ampdu_matches_the_vendor_member_loop() {
    let members = core::array::from_fn(|index| {
        Some(PlannedAmpduMember { frame_state: 0x0901_0000 + index as u32 * 0x400, frame_length: 1500 })
    });
    let input = PlannedAmpduInput {
        members,
        phy_rate_word: 0x031407,
        phy_control_word: 0x06c006,
        hardware_rate: 0x0c,
        spacing_selector: 0,
    };
    let Some(descriptor) = build_planned_ampdu_descriptor(input) else {
        panic!("four contiguous members must produce an opcode plan");
    };
    assert_eq!(descriptor.member_count, 4);
    assert_eq!(descriptor.aggregate_length, 0x1790);
    assert_eq!(descriptor.length, 8);
    assert_eq!(
        &descriptor.words[..usize::from(descriptor.length)],
        &[
            0x6501_0008,
            0x6600_0000,
            0x6501_0408,
            0x6600_0000,
            0x6501_0808,
            0x6600_0000,
            0x6501_0c08,
            0xe400_0000,
        ],
    );
    assert_eq!(descriptor.phy_words[2], 0x520c_1790);

    let Some(spaced) = build_planned_ampdu_descriptor(PlannedAmpduInput { spacing_selector: 2, ..input })
    else {
        panic!("spacing must preserve the four-member plan");
    };
    assert_eq!(spaced.length, 11);
    assert_eq!(spaced.aggregate_length, 0x17a8);
    assert_eq!(spaced.phy_words[2], 0x520c_17a8);
    assert_eq!(
        [Some(spaced.words[2]), Some(spaced.words[5]), Some(spaced.words[8])],
        [ampdu_transfer_word(ampdu_spacing_word_address(2)); 3],
    );

    assert!(build_planned_ampdu_descriptor(PlannedAmpduInput {
        members: [members[0], None, members[2], None],
        ..input
    })
    .is_none());
}

#[test]
fn planned_ampdu_rejects_an_aggregate_longer_than_sixteen_bits() {
    let member = Some(PlannedAmpduMember { frame_state: 0x0901_0000, frame_length: 0xfff0 });
    let input = PlannedAmpduInput {
        members: [member, member, None, None],
        phy_rate_word: 0,
        phy_control_word: 0,
        hardware_rate: 0,
        spacing_selector: 0,
    };
    assert!(build_planned_ampdu_descriptor(input).is_none());
    assert!(build_planned_ampdu_descriptor(PlannedAmpduInput { members: [member, None, None, None], ..input })
        .is_none());
}

#[test]
fn probe_experiment_diagnostics_pack_word_and_count() {
    assert_eq!(xr819_tx::plans::probe_experiment_diagnostic_word(0x1234), 0x1234);
    assert_eq!(xr819_tx::plans::probe_experiment_diagnostic_value(0x1234, 7), 0x0007_1234);
    assert_eq!(xr819_tx::plans::probe_experiment_diagnostic_value(0x0001, 0x0001_0002), 0x0002_0001);
}
