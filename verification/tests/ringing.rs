use qaqh_tui::ringing::{
    bootstrap_from_client, event_meta_from_client, reset_from_client, ApplyOutcome,
    BootstrapOutcome, BootstrapSnapshot, ClientV2Bootstrap, ClientV2CursorToken, ClientV2Event,
    ClientV2Reset, Delivery, DriverOutcome, DriverState, EventMeta, InteractionKind,
    InteractionOutcome, PendingInteraction, ResetReason, ResetSignal, RingingV2SessionModel,
    SnapshotCursor,
};

fn bootstrap() -> BootstrapSnapshot {
    BootstrapSnapshot {
        server_epoch: "epoch-1".into(),
        seed: "seed-1".into(),
        log_id: Some("log-1".into()),
        snapshot_cursor: "v2.snapshot".into(),
        snapshot_fact_seq: 0,
        state_revision: 7,
        pending_interactions: vec![PendingInteraction {
            interaction_id: "i1".into(),
            call_id: "c1".into(),
            turn_id: "t1".into(),
            kind: InteractionKind::Permission,
        }],
        driver: Some(DriverState { holder: None, driver_epoch: 3, can_claim: true }),
    }
}

fn model() -> RingingV2SessionModel {
    let mut model = RingingV2SessionModel::new("seed-1");
    assert_eq!(model.apply_bootstrap(bootstrap()), BootstrapOutcome::Applied);
    model
}

fn token(text: &str, log_id: &str, fact_seq: u64) -> ClientV2CursorToken {
    ClientV2CursorToken {
        text: text.into(),
        snapshot: Some(SnapshotCursor { log_id: log_id.into(), fact_seq }),
    }
}

#[test]
fn bootstrap_sets_pending_and_driver() {
    let model = model();
    assert_eq!(model.server_epoch(), Some("epoch-1"));
    assert_eq!(model.cursor(), Some("v2.snapshot"));
    assert_eq!(model.state_revision(), 7);
    assert_eq!(model.pending_interactions().len(), 1);
    assert_eq!(model.driver().expect("driver").driver_epoch, 3);
    assert!(!model.is_driver("cs-1"));
}

#[test]
fn v2_c1_snapshot_then_subscribe_is_gap_free_and_duplicate_free() {
    let mut model = model();
    assert_eq!(model.position(), (0, 0));
    assert_eq!(model.cursor(), Some("v2.snapshot"));

    let first = EventMeta::reliable("epoch-1", "log-1", 8, 1, "v2.8.1", 8);
    assert_eq!(
        model.apply_event(first.clone()),
        ApplyOutcome::ReliableApplied { fact_seq: 8, projection_index: 1 }
    );
    assert_eq!(model.position(), (8, 1));
    assert_eq!(model.cursor(), Some("v2.8.1"));
    assert_eq!(model.apply_event(first), ApplyOutcome::Duplicate);
}

#[test]
fn v2_c2_reliable_reconnect_advances_in_global_lexicographic_order() {
    let mut model = model();
    for (fact_seq, projection_index) in [(8u64, 0u16), (8, 1), (9, 0)] {
        assert_eq!(
            model.apply_event(EventMeta::reliable(
                "epoch-1",
                "log-1",
                fact_seq,
                projection_index,
                &format!("v2.{fact_seq}.{projection_index}"),
                fact_seq,
            )),
            ApplyOutcome::ReliableApplied { fact_seq, projection_index }
        );
    }
    assert_eq!(model.position(), (9, 0));
    assert_eq!(
        model.apply_event(EventMeta::reliable("epoch-1", "log-1", 8, 99, "v2.stale", 99)),
        ApplyOutcome::Stale
    );
}

#[test]
fn v2_c3_replaceable_reconnect_is_latest_current_without_cursor_advance() {
    let mut model = model();
    let cursor = model.cursor().map(str::to_string);
    let event = EventMeta::replaceable("epoch-1", Some("log-1".into()), 8);
    assert_eq!(
        model.apply_event(event.clone()),
        ApplyOutcome::ReplaceableApplied { revision: 8 }
    );
    assert_eq!(model.cursor(), cursor.as_deref());
    assert_eq!(model.state_revision(), 8);
    assert_eq!(model.apply_event(event), ApplyOutcome::Duplicate);
}

#[test]
fn v2_c4_ephemeral_never_persists_or_replays() {
    let mut model = model();
    let before = model.clone();
    assert_eq!(model.apply_event(EventMeta::ephemeral("epoch-1")), ApplyOutcome::Ephemeral);
    assert_eq!(model, before);
}

#[test]
fn v2_c5_epoch_log_mismatch_is_rejected_and_log_reset_maps_typed_reason() {
    let mut model = model();
    let wrong_epoch = EventMeta::reliable("epoch-2", "log-1", 8, 1, "v2.8.1", 8);
    assert_eq!(model.apply_event(wrong_epoch), ApplyOutcome::EpochMismatch);

    let wrong_log = EventMeta::reliable("epoch-1", "log-2", 8, 1, "v2.8.1", 8);
    assert_eq!(model.apply_event(wrong_log), ApplyOutcome::LogMismatch);

    let reset = reset_from_client(ClientV2Reset {
        server_epoch: "epoch-1".into(),
        session_id: "seed-1".into(),
        log_id: Some("log-2".into()),
        snapshot_cursor: Some(token("v2.log-2.8", "log-2", 8)),
        reason: ResetReason::LogIdMismatch,
    });
    assert_eq!(reset.reason, ResetReason::LogIdMismatch);
    assert!(model.begin_reset(reset));
    assert!(model.is_reset_pending());
    assert!(!model.is_read_only());
}

#[test]
fn v2_c6_cursor_expired_keeps_old_state_until_rebaseline() {
    let mut model = model();
    let old_cursor = model.cursor().map(str::to_string);
    let signal = ResetSignal {
        server_epoch: "epoch-1".into(),
        seed: "seed-1".into(),
        log_id: Some("log-1".into()),
        snapshot_cursor: Some("v2.new".into()),
        snapshot_fact_seq: Some(8),
        reason: ResetReason::CursorExpired,
    };
    assert!(model.begin_reset(signal));
    assert!(model.is_reset_pending());
    assert_eq!(model.cursor(), old_cursor.as_deref());
    assert_eq!(
        model.apply_event(EventMeta::reliable("epoch-1", "log-1", 8, 1, "v2.8.1", 8)),
        ApplyOutcome::ResetPending
    );

    let mut next = bootstrap();
    next.snapshot_cursor = "v2.new".into();
    next.snapshot_fact_seq = 8;
    next.state_revision = 9;
    assert_eq!(model.apply_bootstrap(next), BootstrapOutcome::Applied);
    assert!(!model.is_reset_pending());
    assert_eq!(model.cursor(), Some("v2.new"));
    assert_eq!(model.state_revision(), 9);
}

#[test]
fn v2_c7_snapshot_missing_is_read_only_and_does_not_guess_history() {
    let mut model = model();
    let old_cursor = model.cursor().map(str::to_string);
    let old_revision = model.state_revision();
    let signal = reset_from_client(ClientV2Reset {
        server_epoch: "epoch-1".into(),
        session_id: "seed-1".into(),
        log_id: None,
        snapshot_cursor: None,
        reason: ResetReason::SnapshotMissing,
    });

    assert!(model.begin_reset(signal));
    assert!(model.is_reset_pending());
    assert!(model.is_read_only());
    assert_eq!(model.cursor(), old_cursor.as_deref());
    assert_eq!(model.state_revision(), old_revision);
    assert_eq!(
        model.apply_event(EventMeta::reliable("epoch-1", "log-1", 8, 1, "v2.8.1", 8)),
        ApplyOutcome::ResetPending
    );
}

#[test]
fn v2_r4_first_answer_wins_and_terminal_interaction_cannot_reopen() {
    let mut model = model();
    let request = PendingInteraction {
        interaction_id: "i2".into(),
        call_id: "c2".into(),
        turn_id: "t2".into(),
        kind: InteractionKind::Ask,
    };
    assert_eq!(
        model.apply_interaction_requested(request.clone()),
        InteractionOutcome::Requested
    );
    assert_eq!(model.apply_interaction_requested(request), InteractionOutcome::Duplicate);
    assert_eq!(model.apply_interaction_resolved("i2"), InteractionOutcome::Resolved);
    assert_eq!(
        model.apply_interaction_requested(PendingInteraction {
            interaction_id: "i2".into(),
            call_id: "c2".into(),
            turn_id: "t2".into(),
            kind: InteractionKind::Ask,
        }),
        InteractionOutcome::AlreadyTerminal
    );
    assert_eq!(model.apply_interaction_resolved("i2"), InteractionOutcome::AlreadyTerminal);
}

#[test]
fn v2_r1_r3_reconnect_restores_permission_ask_and_plan_by_stable_id() {
    for (wire_kind, expected_kind) in [
        ("permission", InteractionKind::Permission),
        ("ask", InteractionKind::Ask),
        ("plan", InteractionKind::PlanReview),
    ] {
        let interaction_id = format!("int-{wire_kind}");
        let call_id = format!("call-{wire_kind}");
        let turn_id = format!("turn-{wire_kind}");
        let client = ClientV2Bootstrap {
            server_epoch: "epoch-1".into(),
            session_id: "seed-1".into(),
            snapshot_cursor: token("v2.log-1.7", "log-1", 7),
            control_revision: 7,
            conversation_revision: 7,
            tool_revision: 7,
            interactions: vec![PendingInteraction {
                interaction_id: interaction_id.clone(),
                call_id: call_id.clone(),
                turn_id: turn_id.clone(),
                kind: expected_kind,
            }],
            driver: None,
        };
        let snapshot = bootstrap_from_client(client).expect("typed bootstrap adapter");
        let mut model = RingingV2SessionModel::new("seed-1");
        assert_eq!(model.apply_bootstrap(snapshot), BootstrapOutcome::Applied);

        let pending = model.pending_interactions();
        assert_eq!(pending.len(), 1);
        assert_eq!(pending[0].interaction_id, interaction_id);
        assert_eq!(pending[0].call_id, call_id);
        assert_eq!(pending[0].turn_id, turn_id);
        assert_eq!(pending[0].kind, expected_kind);
    }
}

#[test]
fn v2_d1_vacant_seat_claim_is_applied_with_monotonic_epoch() {
    let mut model = model();
    let vacant = model.driver().expect("bootstrap driver");
    assert_eq!(vacant.holder, None);
    assert!(vacant.can_claim);

    let claimed = DriverState { holder: Some("cs-1".into()), driver_epoch: 4, can_claim: false };
    assert_eq!(model.apply_driver_state(claimed.clone()), DriverOutcome::Applied);
    assert!(model.is_driver("cs-1"));
    assert_eq!(model.apply_driver_state(claimed), DriverOutcome::Duplicate);
}

#[test]
fn v2_d2_busy_driver_rejects_other_claimants_stably() {
    let mut model = model();
    assert_eq!(
        model.apply_driver_state(DriverState {
            holder: Some("cs-1".into()),
            driver_epoch: 4,
            can_claim: false,
        }),
        DriverOutcome::Applied
    );
    assert_eq!(
        model.apply_driver_state(DriverState {
            holder: Some("cs-2".into()),
            driver_epoch: 4,
            can_claim: true,
        }),
        DriverOutcome::Conflict
    );
    assert!(model.is_driver("cs-1"));
    assert!(!model.is_driver("cs-2"));
}

#[test]
fn v2_d3_handover_rejects_old_epoch_and_same_epoch_conflicts() {
    let mut model = model();
    let current = DriverState { holder: Some("cs-1".into()), driver_epoch: 4, can_claim: false };
    assert_eq!(model.apply_driver_state(current.clone()), DriverOutcome::Applied);
    assert_eq!(model.apply_driver_state(current), DriverOutcome::Duplicate);
    assert_eq!(
        model.apply_driver_state(DriverState {
            holder: Some("cs-2".into()),
            driver_epoch: 4,
            can_claim: false,
        }),
        DriverOutcome::Conflict
    );
    assert_eq!(
        model.apply_driver_state(DriverState {
            holder: Some("cs-2".into()),
            driver_epoch: 5,
            can_claim: false,
        }),
        DriverOutcome::Applied
    );
    assert!(model.is_driver("cs-2"));
    assert_eq!(
        model.apply_driver_state(DriverState {
            holder: Some("cs-1".into()),
            driver_epoch: 4,
            can_claim: false,
        }),
        DriverOutcome::Stale
    );
    assert!(model.is_driver("cs-2"));
}

#[test]
fn v2_t2_stale_bootstrap_cannot_rollback_newer_snapshot() {
    let mut model = model();

    let mut newer = bootstrap();
    newer.snapshot_cursor = "v2.new".into();
    newer.state_revision = 9;
    assert_eq!(model.apply_bootstrap(newer), BootstrapOutcome::Applied);

    let mut stale = bootstrap();
    stale.snapshot_cursor = "v2.old".into();
    stale.state_revision = 8;
    assert_eq!(model.apply_bootstrap(stale), BootstrapOutcome::Stale);
    assert_eq!(model.cursor(), Some("v2.new"));
    assert_eq!(model.state_revision(), 9);
}

#[test]
fn v2_t2_old_bootstrap_after_reset_must_match_reset_epoch_and_log() {
    let mut model = model();
    assert!(model.begin_reset(ResetSignal {
        server_epoch: "epoch-2".into(),
        seed: "seed-1".into(),
        log_id: Some("log-2".into()),
        snapshot_cursor: None,
        snapshot_fact_seq: None,
        reason: ResetReason::CursorExpired,
    }));

    let mut stale = bootstrap();
    stale.server_epoch = "epoch-1".into();
    stale.log_id = Some("log-1".into());
    assert_eq!(model.apply_bootstrap(stale), BootstrapOutcome::ResetMismatch);
    assert!(model.is_reset_pending());
    assert_eq!(model.server_epoch(), Some("epoch-1"));

    let mut wrong_log = bootstrap();
    wrong_log.server_epoch = "epoch-2".into();
    wrong_log.log_id = Some("log-1".into());
    assert_eq!(model.apply_bootstrap(wrong_log), BootstrapOutcome::ResetMismatch);
    assert!(model.is_reset_pending());

    let mut fresh = bootstrap();
    fresh.server_epoch = "epoch-2".into();
    fresh.log_id = Some("log-2".into());
    fresh.snapshot_cursor = "v2.fresh".into();
    fresh.state_revision = 1;
    assert_eq!(model.apply_bootstrap(fresh), BootstrapOutcome::Applied);
    assert!(!model.is_reset_pending());
    assert_eq!(model.server_epoch(), Some("epoch-2"));
    assert_eq!(model.cursor(), Some("v2.fresh"));
}

#[test]
fn v2_t2_old_bootstrap_before_reset_baseline_is_rejected() {
    let mut model = model();
    assert!(model.begin_reset(ResetSignal {
        server_epoch: "epoch-1".into(),
        seed: "seed-1".into(),
        log_id: Some("log-1".into()),
        snapshot_cursor: Some("v2.reset.9".into()),
        snapshot_fact_seq: Some(9),
        reason: ResetReason::CursorExpired,
    }));

    let mut old = bootstrap();
    old.snapshot_fact_seq = 8;
    old.state_revision = 8;
    assert_eq!(model.apply_bootstrap(old), BootstrapOutcome::ResetMismatch);
    assert!(model.is_reset_pending());

    let mut fresh = bootstrap();
    fresh.snapshot_fact_seq = 9;
    fresh.state_revision = 9;
    assert_eq!(model.apply_bootstrap(fresh), BootstrapOutcome::Applied);
    assert!(!model.is_reset_pending());
}

#[test]
fn client_bootstrap_adapter_maps_pending_driver_and_revision() {
    let client = ClientV2Bootstrap {
        server_epoch: "epoch-1".into(),
        session_id: "seed-1".into(),
        snapshot_cursor: token("v2.log-1.42", "log-1", 42),
        control_revision: 7,
        conversation_revision: 19,
        tool_revision: 11,
        interactions: vec![PendingInteraction {
            interaction_id: "i1".into(),
            call_id: "c1".into(),
            turn_id: "t1".into(),
            kind: InteractionKind::Permission,
        }],
        driver: Some(DriverState {
            holder: Some("cs-1".into()),
            driver_epoch: 4,
            can_claim: false,
        }),
    };
    let mapped = bootstrap_from_client(client.clone()).expect("adapter");
    assert_eq!(mapped.log_id.as_deref(), Some("log-1"));
    assert_eq!(mapped.state_revision, 19);
    assert_eq!(mapped.pending_interactions.len(), 1);
    assert_eq!(mapped.pending_interactions[0].kind, InteractionKind::Permission);
    assert_eq!(mapped.driver.expect("driver").driver_epoch, 4);

    let mut unreadable = client;
    unreadable.snapshot_cursor.snapshot = None;
    assert_eq!(bootstrap_from_client(unreadable), Err("invalid_snapshot_cursor"));
}

#[test]
fn client_event_adapter_maps_delivery_and_cursor() {
    let cursor = ClientV2CursorToken { text: "v2.log-1.8.1".into(), snapshot: None };
    let event = ClientV2Event {
        server_epoch: "epoch-1".into(),
        log_id: Some("log-1".into()),
        fact_seq: Some(8),
        projection_index: Some(1),
        cursor: Some(cursor.clone()),
        delivery: Delivery::Reliable,
        revision: Some(8),
    };
    let meta = event_meta_from_client(event);
    assert_eq!(meta.delivery, Delivery::Reliable);
    assert_eq!(meta.log_id.as_deref(), Some("log-1"));
    assert_eq!(meta.fact_seq, Some(8));
    assert_eq!(meta.projection_index, Some(1));
    assert_eq!(meta.cursor.as_deref(), Some(cursor.text.as_str()));
}

#[test]
fn client_reset_adapter_preserves_read_only_reason() {
    let reset = ClientV2Reset {
        server_epoch: "epoch-1".into(),
        session_id: "seed-1".into(),
        log_id: Some("log-1".into()),
        snapshot_cursor: Some(token("v2.log-1.42", "log-1", 42)),
        reason: ResetReason::SnapshotMissing,
    };
    let signal = reset_from_client(reset.clone());
    assert_eq!(signal.reason, ResetReason::SnapshotMissing);
    assert!(signal.reason.is_read_only());
    assert_eq!(
        signal.snapshot_cursor.as_deref(),
        Some(reset.snapshot_cursor.as_ref().expect("cursor").text.as_str())
    );
    assert_eq!(signal.snapshot_fact_seq, Some(42));
}
