use qaqh_tui::app::App;
use qaqh_tui::ask::{AskMode, AskPanel, AskQuestion};
use qaqh_tui::composer::ContentRef;
use qaqh_tui::conn::{
    reconcile_conn, timeline_lost_effect, ConnPhase, StreamIssues, StreamKey, TimelineLostEffect,
    TimelineLostReason,
};
use qaqh_tui::keymap::{KeyCode, KeyEvent, KeyModifiers};
use qaqh_tui::message::{
    AckStatus, ActionResult, AppMsg, CommandAck, ConnEvent, ContentValue, ConversationDelta,
    Effect, InteractionBody, InteractionKind, MetaDelta, NoticeLevel, PendingInteraction,
    RuntimeMsg, SessionBootstrap, SessionListEntry, TimelineStep, V2Payload,
};
use qaqh_tui::overlay::{
    prune_seed_bound_overlays, AttachSubmit, ConfirmAction, Overlay, SettingsState,
};
use qaqh_tui::seg::TranscriptCache;
use qaqh_tui::session::{ActivityState, Dashboard, SessionState, SubagentEntry, SubagentState};
use qaqh_tui::timeline::{ThinkingStats, TimelineModel, TimelineTurnState, Turn};

fn new_app() -> App {
    App::new_with_cwd(None, None)
}

fn session<'a>(app: &'a App, seed: &str) -> &'a SessionState {
    app.sessions.iter().find(|s| s.seed == seed).expect("a session")
}

fn session_mut<'a>(app: &'a mut App, seed: &str) -> &'a mut SessionState {
    app.sessions.iter_mut().find(|s| s.seed == seed).expect("a session")
}

fn app_with_tabs(seeds: &[&str], active: usize) -> App {
    let mut app = new_app();
    for seed in seeds {
        app.tabs.push((*seed).to_string());
        app.sessions.push(SessionState::new((*seed).to_string()));
    }
    app.active = active;
    app
}

fn entry(seed: &str, created_at: u64, cwd: Option<&str>) -> SessionListEntry {
    SessionListEntry {
        seed: seed.to_string(),
        title: None,
        cwd: cwd.map(str::to_owned),
        created_at,
        archived: false,
        ephemeral: false,
        running: false,
    }
}

fn key(code: KeyCode, modifiers: KeyModifiers) -> AppMsg {
    AppMsg::Key(KeyEvent::new(code, modifiers))
}

fn bare(code: KeyCode) -> KeyEvent {
    KeyEvent::new(code, KeyModifiers::bare_key())
}

fn conn(ev: ConnEvent) -> AppMsg {
    AppMsg::Runtime(RuntimeMsg::Conn(ev))
}

fn v2_event(seed: &str, payload: V2Payload) -> AppMsg {
    AppMsg::Runtime(RuntimeMsg::V2Event { seed: seed.into(), causation_id: None, payload })
}

fn channel(name: &str) -> StreamKey {
    StreamKey::V2(name.to_string())
}

fn timeline(seed: &str) -> StreamKey {
    StreamKey::Timeline(seed.into())
}

#[test]
fn bootstrap_restores_pending_ask_from_snapshot() {
    let mut app = new_app();
    app.sessions.push(SessionState::new("seed".into()));
    let text = r#"{"kind":"ask","mode":"single","questions":[{"id":"q1","question":"选哪个？","options":["甲","乙"],"allow_custom":false}]}"#;
    app.handle(AppMsg::Action(ActionResult::Bootstrap {
        seed: "seed".into(),
        result: Ok(SessionBootstrap {
            activity: ActivityState::Idle,
            model: None,
            usage: None,
            interactions: vec![PendingInteraction {
                interaction_id: "int-ask-1".into(),
                call_id: "call-ask-1".into(),
                kind: InteractionKind::Ask,
                request: ContentValue::Inline(InteractionBody {
                    text: text.into(),
                    mode: Some(AskMode::Single),
                    questions: Some(vec![AskQuestion {
                        id: "q1".into(),
                        question: "选哪个？".into(),
                        options: vec!["甲".into(), "乙".into()],
                        allow_custom: false,
                    }]),
                    todo_items: None,
                }),
            }],
        }),
    }));
    let ask = session(&app, "seed").pending_ask.as_ref().expect("ask restored");
    assert_eq!(ask.interaction_id, "int-ask-1");
    assert_eq!(ask.questions[0].question, "选哪个？");
}

#[test]
fn turn_completed_requests_forced_redraw() {
    let mut app = new_app();
    app.sessions.push(SessionState::new("seed".into()));
    app.handle(v2_event(
        "seed",
        V2Payload::ConversationDelta(ConversationDelta::TurnFinished {
            turn_id: "turn-1".into(),
            usage: None,
        }),
    ));
    assert!(app.force_redraw);
}

#[test]
fn timeline_turn_sealed_requests_forced_redraw() {
    let mut app = new_app();
    app.sessions.push(SessionState::new("seed".into()));
    let mut model = TimelineModel::new();
    model.turns.push(Turn {
        turn_id: "turn-1".into(),
        turn_index: None,
        user_text: String::new(),
        state: TimelineTurnState::Completed,
        failure: None,
        sealed: true,
        offloaded: false,
        thinking: ThinkingStats { segments: 0, lines: 0 },
        rounds: Vec::new(),
    });
    app.handle_runtime(RuntimeMsg::Timeline {
        seed: "seed".into(),
        step: TimelineStep {
            timeline: model,
            tool: None,
            turn_sealed: true,
            terminal: Some("turn-1".into()),
        },
    });
    assert!(app.force_redraw);
}

#[test]
fn draft_enter_queues_first_prompt_before_create() {
    let mut app = new_app();
    app.draft_composer.insert_str("第一句");
    app.handle(key(KeyCode::Enter, KeyModifiers::bare_key()));
    assert!(app.draft_composer.value().is_empty());
    assert_eq!(app.pending_initial_prompt.as_deref(), Some("第一句"));
    assert_eq!(app.pending_creates.len(), 1);
}

#[test]
fn pending_initial_prompt_is_transferred_when_create_lands() {
    let mut app = new_app();
    app.pending_initial_prompt = Some("hello".into());
    app.pending_creates.push(("cmd-create".into(), 0));
    app.handle(AppMsg::Action(ActionResult::SessionList(Ok(vec![entry("new-seed", 200, None)]))));
    assert_eq!(app.tabs, vec!["new-seed".to_string()]);
    assert!(app.pending_initial_prompt.is_none());
    assert_eq!(session(&app, "new-seed").composer.value(), "hello");
}

#[test]
fn resume_cwd_filter_keeps_current_directory_tree_only() {
    let mut app = new_app();
    app.session_list_cache = vec![
        entry("a", 0, Some("/work/project")),
        entry("b", 0, Some("/work/project/sub")),
        entry("c", 0, Some("/work/other")),
        entry("d", 0, None),
    ];
    app.session_cwd_filter = Some("/work/project".into());
    assert_eq!(app.filtered_sessions(false), vec![0, 1]);
}

#[test]
fn pending_create_opens_newest_session_from_list() {
    let mut app = new_app();
    app.pending_creates.push(("cmd-create-3".to_string(), 0));
    app.handle(AppMsg::Action(ActionResult::SessionList(Ok(vec![
        entry("old-seed", 100, None),
        entry("new-seed", 200, None),
    ]))));
    assert_eq!(app.tabs, vec!["new-seed".to_string()]);
    assert!(app.pending_creates.is_empty());
}

#[test]
fn list_refresh_without_pending_create_opens_nothing() {
    let mut app = new_app();
    app.handle(AppMsg::Action(ActionResult::SessionList(Ok(vec![entry("old-seed", 100, None)]))));
    assert!(app.tabs.is_empty());
}

fn create_ack(command_id: &str, status: AckStatus) -> CommandAck {
    CommandAck {
        command_id: command_id.to_string(),
        status,
        code: Some("rate_limited".into()),
        message: Some("too many sessions".into()),
    }
}

#[test]
fn rejected_create_ack_from_handler_clears_pending_create() {
    let mut app = new_app();
    app.pending_creates.push(("cmd-create-1".to_string(), 0));
    app.handle(AppMsg::Action(ActionResult::CommandAck {
        seed: None,
        label: "新会话".into(),
        result: Ok(create_ack("cmd-create-1", AckStatus::Rejected)),
    }));
    assert!(app.pending_creates.is_empty());
    let toast = app.toasts.last().expect("a notice");
    assert!(toast.text.contains("未创建"), "{}", toast.text);
}

#[test]
fn accepted_create_ack_from_handler_keeps_pending_create() {
    let mut app = new_app();
    app.pending_creates.push(("cmd-create-2".to_string(), 0));
    app.handle(AppMsg::Action(ActionResult::CommandAck {
        seed: None,
        label: "新会话".into(),
        result: Ok(create_ack("cmd-create-2", AckStatus::Accepted)),
    }));
    assert_eq!(app.pending_creates.len(), 1);
}

#[test]
fn rejected_ack_for_other_command_from_handler_keeps_pending_create() {
    let mut app = new_app();
    app.pending_creates.push(("cmd-create-3".to_string(), 0));
    app.handle(AppMsg::Action(ActionResult::CommandAck {
        seed: Some("seed-x".into()),
        label: "撤销回合".into(),
        result: Ok(create_ack("cmd-other-9", AckStatus::Rejected)),
    }));
    assert_eq!(app.pending_creates.len(), 1);
}

#[test]
fn stream_alert_is_cleared_only_by_its_own_recovery() {
    let mut issues = StreamIssues::default();
    issues.raise(timeline("A"), "timeline[A] 断开，3000ms 后重连".into());
    let (phase, error) = reconcile_conn(&ConnPhase::Ready, &issues, None);
    assert_eq!(phase, ConnPhase::ReadyWithIssue);
    assert!(error.as_deref().unwrap_or_default().contains("timeline[A]"));

    assert!(!issues.clear(&channel("conversation")));
    let (phase, error) = reconcile_conn(&phase, &issues, error);
    assert_eq!(phase, ConnPhase::ReadyWithIssue);
    assert!(error.as_deref().unwrap_or_default().contains("timeline[A]"));

    assert!(issues.clear(&timeline("A")));
    let (phase, error) = reconcile_conn(&phase, &issues, error);
    assert_eq!(phase, ConnPhase::Ready);
    assert!(error.is_none());
}

#[test]
fn ready_is_restored_only_when_every_stream_recovers() {
    let mut issues = StreamIssues::default();
    issues.raise(channel("control"), "control 断开".into());
    issues.raise(timeline("A"), "timeline[A] 断开".into());
    let (phase, error) = reconcile_conn(&ConnPhase::Ready, &issues, None);
    assert_eq!(phase, ConnPhase::ReadyWithIssue);
    assert_eq!(error.as_deref(), Some("timeline[A] 断开"));

    issues.clear(&channel("control"));
    let (phase, error) = reconcile_conn(&phase, &issues, error);
    assert_eq!(phase, ConnPhase::ReadyWithIssue);
    assert_eq!(error.as_deref(), Some("timeline[A] 断开"));

    issues.clear(&timeline("A"));
    let (phase, error) = reconcile_conn(&phase, &issues, error);
    assert_eq!(phase, ConnPhase::Ready);
    assert!(error.is_none());
}

#[test]
fn repeated_issue_for_same_stream_overwrites() {
    let mut issues = StreamIssues::default();
    assert!(issues.raise(timeline("A"), "第一次".into()));
    assert!(!issues.raise(timeline("A"), "第二次".into()));
    assert_eq!(issues.messages.len(), 1);
    assert_eq!(issues.order.len(), 1);
    assert_eq!(issues.latest(), Some("第二次"));
}

#[test]
fn lost_phase_keeps_its_reason_across_stream_events() {
    let mut issues = StreamIssues::default();
    issues.raise(timeline("A"), "timeline[A] 断开".into());
    let reason = "与 daemon 失联（20s 内无任何频道连接）——按 R 重连".to_string();

    let (phase, error) = reconcile_conn(&ConnPhase::Lost, &issues, Some(reason.clone()));
    assert_eq!(phase, ConnPhase::Lost);
    assert_eq!(error.as_deref(), Some(reason.as_str()));

    issues.clear(&timeline("A"));
    let (phase, error) = reconcile_conn(&phase, &issues, error);
    assert_eq!(phase, ConnPhase::Lost);
    assert!(error.is_some());
}

#[test]
fn opening_phase_ignores_stream_alerts() {
    let mut issues = StreamIssues::default();
    issues.raise(channel("tool"), "tool 断开".into());
    let (phase, _) = reconcile_conn(&ConnPhase::Opening, &issues, None);
    assert_eq!(phase, ConnPhase::Opening);
}

#[test]
fn thinking_overlay_e_requests_pager() {
    let mut app = new_app();
    app.overlays.push(Overlay::Thinking {
        seed: "s".into(),
        scroll: 0,
        body: "第一段\n第二段".into(),
    });
    assert!(app.overlay_key(bare(KeyCode::Char('e'))));
    assert_eq!(app.pending_pager.as_deref(), Some("第一段\n第二段"));
    assert!(matches!(app.overlays.last(), Some(Overlay::Thinking { .. })));
}

#[test]
fn handle_conn_keeps_lost_reason_across_stream_events() {
    let mut app = new_app();
    let reason = "与 daemon 失联（20s 内无任何频道连接）——按 R 重连";
    app.handle(conn(ConnEvent::Lost(reason.into())));
    assert_eq!(app.conn_phase, ConnPhase::Lost);
    assert_eq!(app.conn_error.as_deref(), Some(reason));

    app.handle(conn(ConnEvent::StreamRecovered { stream: channel("control") }));
    assert_eq!(app.conn_phase, ConnPhase::Lost);
    assert!(app.conn_error.is_some());

    app.handle(conn(ConnEvent::StreamIssue {
        stream: timeline("A"),
        error: "timeline[A] 断开，3000ms 后重连".into(),
    }));
    assert_eq!(app.conn_phase, ConnPhase::Lost);
    assert_eq!(app.conn_error.as_deref(), Some(reason));
}

#[test]
fn handle_conn_ready_clears_the_stream_issue_ledger() {
    let mut app = new_app();
    app.handle(conn(ConnEvent::Ready { epoch: "e1".into(), epoch_changed: false }));
    assert_eq!(app.conn_phase, ConnPhase::Ready);
    app.handle(conn(ConnEvent::StreamIssue {
        stream: timeline("A"),
        error: "timeline[A] 断开".into(),
    }));
    assert_eq!(app.conn_phase, ConnPhase::ReadyWithIssue);
    assert!(!app.stream_issues.is_empty());

    app.handle(conn(ConnEvent::Ready { epoch: "e2".into(), epoch_changed: true }));
    assert!(app.stream_issues.is_empty());
    assert_eq!(app.conn_phase, ConnPhase::Ready);
    assert!(app.conn_error.is_none());
}

#[test]
fn alt_tab_prunes_the_previous_seeds_confirm_overlay() {
    let mut app = app_with_tabs(&["A", "B"], 0);
    app.overlays.push(Overlay::Confirm { action: ConfirmAction::CloseTab("A".into()) });
    app.overlays.push(Overlay::Help);

    app.handle(key(KeyCode::Char('2'), KeyModifiers::with_alt()));
    assert_eq!(app.active, 1);
    assert!(!app.overlays.iter().any(|o| matches!(o, Overlay::Confirm { .. })));
    assert!(matches!(app.overlays.as_slice(), [Overlay::Help]));

    app.handle(key(KeyCode::Char('y'), KeyModifiers::bare_key()));
    assert!(app.tabs.iter().any(|t| t == "A"));
}

fn app_with_running_subagent() -> (App, String) {
    let mut app = new_app();
    let sub = "seed-sub".to_string();
    app.sessions.push(SessionState::new(sub.clone()));
    app.subagent_seeds.push(sub.clone());
    let mut parent = SessionState::new("parent".into());
    parent.subagents.push(SubagentEntry {
        tool_call_id: "c1".into(),
        seed: Some(sub.clone()),
        name: "explore".into(),
        state: SubagentState::Running,
    });
    app.sessions.push(parent);
    (app, sub)
}

fn subagent_state(app: &App, seed: &str) -> SubagentState {
    session(app, "parent")
        .subagents
        .iter()
        .find(|e| e.seed.as_deref() == Some(seed))
        .expect("a subagent")
        .state
}

#[test]
fn timeline_lost_keeps_subagent_on_non_404_and_warns() {
    let (mut app, sub) = app_with_running_subagent();
    app.handle_runtime(RuntimeMsg::TimelineLost {
        seed: sub.clone(),
        reason: TimelineLostReason::Other(
            "HTTP 401: /ringing/v1/sessions/seed-sub/timeline".into(),
        ),
    });
    assert_eq!(subagent_state(&app, &sub), SubagentState::Running);
    assert!(app.subagent_seeds.contains(&sub));
    assert!(app.toasts.iter().any(|t| t.level == NoticeLevel::Error && t.text.contains(&sub)));
}

#[test]
fn timeline_lost_closes_subagent_on_404() {
    let (mut app, sub) = app_with_running_subagent();
    app.handle_runtime(RuntimeMsg::TimelineLost {
        seed: sub.clone(),
        reason: TimelineLostReason::SessionMissing,
    });
    assert_eq!(subagent_state(&app, &sub), SubagentState::Closed);
    assert!(!app.subagent_seeds.contains(&sub));
}

#[test]
fn timeline_lost_effect_requires_404_and_subagent() {
    assert_eq!(
        timeline_lost_effect(true, &TimelineLostReason::SessionMissing),
        TimelineLostEffect::CloseSubagent
    );
    assert_eq!(
        timeline_lost_effect(true, &TimelineLostReason::Other("boom".into())),
        TimelineLostEffect::Notice
    );
    assert_eq!(
        timeline_lost_effect(false, &TimelineLostReason::SessionMissing),
        TimelineLostEffect::Notice
    );
}

#[test]
fn closed_event_for_non_tab_parent_reclaims_subagents() {
    let mut app = new_app();
    let mut parent = SessionState::new("parent".into());
    parent.subagents.push(SubagentEntry {
        tool_call_id: "c1".into(),
        seed: Some("sub".into()),
        name: "explore".into(),
        state: SubagentState::Running,
    });
    app.sessions.push(parent);
    app.sessions.push(SessionState::new("sub".into()));
    for s in ["parent", "sub"] {
        app.subagent_seeds.push(s.into());
    }
    let mut root = SessionState::new("root".into());
    root.subagents.push(SubagentEntry {
        tool_call_id: "c0".into(),
        seed: Some("parent".into()),
        name: "nested".into(),
        state: SubagentState::Running,
    });
    app.sessions.push(root);
    assert!(!app.tabs.contains(&"parent".to_string()));

    app.handle(v2_event("parent", V2Payload::MetaDelta(MetaDelta::Deleted)));

    assert!(!app.subagent_seeds.contains(&"sub".to_string()));
    assert!(!app.subagent_seeds.contains(&"parent".to_string()));
    assert!(!app.sessions.iter().any(|s| s.seed == "sub"));
    assert_eq!(session(&app, "root").subagents[0].state, SubagentState::Closed);
}

#[test]
fn opening_todo_workspace_refreshes_dashboard() {
    let mut app = app_with_tabs(&["seed"], 0);
    app.show_workspace = false;
    app.handle(key(KeyCode::F(4), KeyModifiers::bare_key()));
    assert!(app.show_workspace);
    assert!(app.dashboard_fetching.contains(&"seed".to_string()));
}

#[test]
fn todo_tool_update_refreshes_dashboard() {
    let mut app = app_with_tabs(&["seed"], 0);
    app.handle(AppMsg::Runtime(RuntimeMsg::Timeline {
        seed: "seed".into(),
        step: TimelineStep {
            timeline: TimelineModel::new(),
            tool: Some(("call-todo-1".into(), "todo_write".into())),
            turn_sealed: false,
            terminal: None,
        },
    }));
    assert!(app.dashboard_fetching.contains(&"seed".to_string()));
}

#[test]
fn dashboard_updates_must_not_clear_transcript_cache() {
    let mut app = app_with_tabs(&["seed"], 0);
    session_mut(&mut app, "seed").block_cache = Some(TranscriptCache::new(80));
    app.handle(AppMsg::Action(ActionResult::Dashboard {
        seed: "seed".into(),
        result: Ok(Dashboard {
            documents: Vec::new(),
            recent_edits: vec!["src/lib.rs".into()],
            tasks: Vec::new(),
        }),
    }));
    assert!(session(&app, "seed").block_cache.is_some());
}

fn confirm_close(seed: &str) -> Overlay {
    Overlay::Confirm { action: ConfirmAction::CloseTab(seed.into()) }
}

fn attach(seed: &str) -> Overlay {
    Overlay::AttachPath { input: Vec::new(), cursor: 0, seed: seed.into() }
}

fn attach_with_path(seed: &str, path: &str) -> Overlay {
    Overlay::AttachPath {
        input: path.chars().collect(),
        cursor: path.chars().count(),
        seed: seed.into(),
    }
}

fn submit_of(ov: &Overlay) -> Option<AttachSubmit> {
    match ov {
        Overlay::AttachPath { input, seed, .. } => Overlay::attach_submit(input, seed),
        _ => None,
    }
}

#[test]
fn attach_submit_targets_its_own_seed() {
    let submit = submit_of(&attach_with_path("a", "/tmp/shot.png")).expect("a path");
    let (target, path) = submit.into_parts();
    assert_eq!(target, "a");
    assert_eq!(path, "/tmp/shot.png");

    assert!(submit_of(&attach("a")).is_none());
    assert!(submit_of(&attach_with_path("a", "   ")).is_none());
    assert_eq!(
        submit_of(&attach_with_path("a", "  /tmp/x.png ")).map(|s| s.into_parts()),
        Some(("a".to_string(), "/tmp/x.png".to_string()))
    );
}

#[test]
fn attach_target_and_pruning_agree_on_the_seed() {
    let mut overlays = vec![attach_with_path("a", "/tmp/x.png")];
    assert_eq!(submit_of(&overlays[0]).map(|s| s.into_parts().0), Some("a".to_string()));
    prune_seed_bound_overlays(&mut overlays, Some("b"));
    assert!(overlays.is_empty());
    assert!(overlays.iter().filter_map(submit_of).next().is_none());
}

fn uploads(app: &App) -> Vec<String> {
    app.effects
        .iter()
        .filter_map(|e| match e {
            Effect::Upload { seed, .. } => Some(seed.clone()),
            _ => None,
        })
        .collect()
}

#[test]
fn enter_uploads_to_the_overlays_own_seed_not_the_active_tab() {
    let mut app = app_with_tabs(&["A", "B"], 1);
    app.overlays.push(attach_with_path("A", "/nonexistent/qaqh-test-attach.png"));
    app.handle(key(KeyCode::Enter, KeyModifiers::bare_key()));
    assert!(app.overlays.is_empty());
    assert_eq!(uploads(&app), ["A"]);
}

#[test]
fn enter_on_an_empty_path_closes_without_uploading() {
    let mut app = app_with_tabs(&["A"], 0);
    app.overlays.push(attach("A"));
    app.handle(key(KeyCode::Enter, KeyModifiers::bare_key()));
    assert!(app.overlays.is_empty());
    assert!(uploads(&app).is_empty());
}

#[test]
fn enter_on_a_closed_target_session_toasts_and_skips_upload() {
    let mut app = app_with_tabs(&["B"], 0);
    app.overlays.push(attach_with_path("gone", "/tmp/x.png"));
    app.handle(key(KeyCode::Enter, KeyModifiers::bare_key()));
    assert!(app.overlays.is_empty());
    assert!(app.toasts.last().is_some_and(|t| t.text.contains("附件目标会话已关闭")));
    assert!(uploads(&app).is_empty());
}

fn uploaded(seed: &str, path: &str) -> AppMsg {
    AppMsg::Action(ActionResult::Uploaded {
        seed: seed.into(),
        path: path.into(),
        result: Ok(ContentRef {
            content_id: "c1".into(),
            media_type: "image/png".into(),
            sha256: "0".repeat(64),
            truncated: false,
        }),
    })
}

#[test]
fn upload_result_for_a_vanished_session_is_visible() {
    let mut app = new_app();
    app.handle(uploaded("gone", "/tmp/x.png"));
    assert!(app.toasts.last().is_some_and(|t| t.text.contains("目标会话已关闭")));
}

#[test]
fn upload_result_lands_on_the_seed_it_carries() {
    let mut app = app_with_tabs(&["A", "B"], 1);
    app.handle(uploaded("A", "/tmp/shot.png"));
    assert_eq!(session(&app, "A").composer.attachments.len(), 1);
    assert_eq!(session(&app, "B").composer.attachments.len(), 0);
}

#[test]
fn seed_bound_overlays_do_not_survive_a_tab_switch() {
    let mut overlays =
        vec![confirm_close("a"), Overlay::Settings(SettingsState::default()), attach("a")];
    prune_seed_bound_overlays(&mut overlays, Some("b"));
    assert_eq!(overlays.len(), 1);
    assert!(matches!(overlays[0], Overlay::Settings(_)));
}

#[test]
fn pruning_is_seed_scoped_not_a_blanket_clear() {
    let mut same = vec![confirm_close("a"), attach("a")];
    prune_seed_bound_overlays(&mut same, Some("a"));
    assert_eq!(same.len(), 2);

    let mut home = vec![confirm_close("a"), Overlay::Help];
    prune_seed_bound_overlays(&mut home, None);
    assert_eq!(home.len(), 1);
    assert!(matches!(home[0], Overlay::Help));
}

#[test]
fn pruning_keeps_global_layers_in_order() {
    let mut overlays = vec![
        Overlay::Settings(SettingsState::default()),
        confirm_close("a"),
        Overlay::Help,
        attach("a"),
    ];
    prune_seed_bound_overlays(&mut overlays, Some("b"));
    assert_eq!(overlays.len(), 2);
    assert!(matches!(overlays[0], Overlay::Settings(_)));
    assert!(matches!(overlays[1], Overlay::Help));
    assert!(overlays.last().is_some_and(|o| o.bound_seed().is_none()));

    prune_seed_bound_overlays(&mut overlays, Some("a"));
    prune_seed_bound_overlays(&mut overlays, None);
    assert_eq!(overlays.len(), 2);
    assert!(matches!(overlays[1], Overlay::Help));
}

#[test]
fn bound_seed_classifies_overlays() {
    assert_eq!(confirm_close("a").bound_seed(), Some("a"));
    assert_eq!(
        Overlay::Confirm { action: ConfirmAction::DeleteSession("x".into()) }.bound_seed(),
        Some("x")
    );
    assert_eq!(
        Overlay::Confirm { action: ConfirmAction::ArchiveSession("y".into()) }.bound_seed(),
        Some("y")
    );
    assert_eq!(attach("s").bound_seed(), Some("s"));
    assert_eq!(Overlay::Settings(SettingsState::default()).bound_seed(), None);
    assert_eq!(Overlay::Help.bound_seed(), None);
    assert_eq!(Overlay::SessionList { selected: 0, show_archived: false }.bound_seed(), None);
    assert_eq!(Overlay::CwdInput { input: Vec::new(), cursor: 0 }.bound_seed(), None);
}

fn app_with_ask() -> App {
    let mut app = new_app();
    let seed = "seed-ask".to_string();
    let mut session = SessionState::new(seed.clone());
    session.pending_ask = Some(AskPanel::new(
        "interaction-1".into(),
        "turn-1".into(),
        AskMode::Batch,
        vec![
            AskQuestion {
                id: "q1".into(),
                question: "第一题".into(),
                options: vec!["A".into(), "B".into(), "C".into()],
                allow_custom: true,
            },
            AskQuestion {
                id: "q2".into(),
                question: "第二题".into(),
                options: vec!["D".into(), "E".into()],
                allow_custom: true,
            },
        ],
    ));
    app.tabs.push(seed);
    app.sessions.push(session);
    app
}

fn ask(app: &App) -> &AskPanel {
    session(app, "seed-ask").pending_ask.as_ref().expect("ask panel")
}

fn ask_mut(app: &mut App) -> &mut AskPanel {
    session_mut(app, "seed-ask").pending_ask.as_mut().expect("ask panel")
}

#[test]
fn number_shortcut_selects_one_based_option_and_advances() {
    let mut app = app_with_ask();
    app.ask_key("seed-ask", bare(KeyCode::Char('2')));
    assert_eq!(ask(&app).focus, 1);
    assert_eq!(ask(&app).selections[0], Some(1));
}

#[test]
fn left_and_right_switch_question_pages() {
    let mut app = app_with_ask();
    app.ask_key("seed-ask", bare(KeyCode::Right));
    assert_eq!(ask(&app).focus, 1);
    app.ask_key("seed-ask", bare(KeyCode::Left));
    assert_eq!(ask(&app).focus, 0);
}

#[test]
fn enter_on_last_question_submits_complete_answers() {
    let mut app = app_with_ask();
    {
        let ask = ask_mut(&mut app);
        ask.selections[0] = Some(0);
        ask.focus = 1;
        ask.option_cursor[1] = 1;
    }
    app.ask_key("seed-ask", bare(KeyCode::Enter));
    assert!(session(&app, "seed-ask").pending_ask.is_none());
    let sent: Vec<String> = app
        .effects
        .iter()
        .filter_map(|e| match e {
            Effect::AskRespond { answers, .. } => {
                Some(answers.iter().map(|a| format!("{}={}", a.question_id, a.answer)).collect())
            }
            _ => None,
        })
        .map(|v: Vec<String>| v.join(","))
        .collect();
    assert_eq!(sent, ["q1=A,q2=E"]);
}

#[test]
fn enter_on_custom_row_enters_input_mode() {
    let mut app = app_with_ask();
    {
        let ask = ask_mut(&mut app);
        ask.option_cursor[0] = ask.questions[0].options.len();
    }
    app.ask_key("seed-ask", bare(KeyCode::Enter));
    assert_eq!(ask(&app).editing_custom, Some(0));
}

#[test]
fn blocking_modal_consumes_global_workspace_keys() {
    let mut app = app_with_ask();
    app.handle(key(KeyCode::Char('l'), KeyModifiers::with_control()));
    assert!(app.overlays.is_empty());
}

#[test]
fn incomplete_submit_returns_to_first_missing_question() {
    let mut app = app_with_ask();
    {
        let ask = ask_mut(&mut app);
        ask.focus = 1;
        ask.selections[1] = Some(0);
    }
    app.ask_key("seed-ask", bare(KeyCode::Enter));
    assert_eq!(ask(&app).focus, 0);
    assert!(ask(&app).error.is_some());
}
