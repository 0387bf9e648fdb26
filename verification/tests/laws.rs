use qaqh_tui::anim::{claude_spinner_glyph, spinner_glyph, thinking_glyph, AnimKind, AnimSink};
use qaqh_tui::app::{App, TOAST_LIMIT};
use qaqh_tui::approval::{PermissionPanel, PermissionRisk, PlanPanel};
use qaqh_tui::ask::{AskMode, AskPanel, AskQuestion};
use qaqh_tui::composer::Composer;
use qaqh_tui::conn::TimelineLostReason;
use qaqh_tui::estimates::{
    estimate_block_lines, estimate_post_lines, estimate_pre_lines, estimate_wrapped_lines,
};
use qaqh_tui::highlight::Highlighter;
use qaqh_tui::keymap::{alt_tab_target, KeyCode, KeyEvent, KeyModifiers};
use qaqh_tui::markdown::render_markdown;
use qaqh_tui::md_code::render_highlighted_code_block;
use qaqh_tui::md_detect::is_markdown;
use qaqh_tui::md_wrap::wrap_spans;
use qaqh_tui::message::{
    ActionResult, AppMsg, CommandState, ContentValue, ControlDelta, ConversationDelta, Effect,
    InteractionBody, InteractionKind, MouseEvent, MouseKind, NoticeLevel, PendingInteraction,
    RuntimeMsg, SessionBootstrap, SessionListEntry, V2Payload,
};
use qaqh_tui::overlay::{edit_line, ConfirmAction, Overlay};
use qaqh_tui::pager::shell_quote;
use qaqh_tui::plan::{plan_turn, Shown};
use qaqh_tui::refresh::refresh;
use qaqh_tui::render_line::{wrap_text, RenderLine, RenderStyle, SpanStyle};
use qaqh_tui::render_transcript::{render_block_lines, render_transcript, render_turn};
use qaqh_tui::ringing::{InteractionOutcome, PendingInteraction as Waiting, RingingV2SessionModel};
use qaqh_tui::seg::{block_cache_key, TranscriptCache, ViewportSlot};
use qaqh_tui::session::{ActivityState, Scroll, SessionState, SubagentEntry, SubagentState};
use qaqh_tui::session_info::render_session_info;
use qaqh_tui::timeline::{
    Block, Round, ThinkingStats, TimelineBlockKind, TimelineBlockState, TimelineToolState,
    TimelineTurnState, ToolCard, Turn,
};
use qaqh_tui::tool_card::{format_args_preview, push_tool_card_anim, render_group_line};
use qaqh_tui::viewport::{place_slots, refresh_at_viewport, viewport_top, Area};

fn bare(code: KeyCode) -> KeyEvent {
    KeyEvent::new(code, KeyModifiers::bare_key())
}

fn control(c: char) -> AppMsg {
    AppMsg::Key(KeyEvent::new(KeyCode::Char(c), KeyModifiers::with_control()))
}

fn app_with(seeds: &[&str]) -> App {
    let mut app = App::new_with_cwd(None, None);
    for s in seeds {
        app.tabs.push(s.to_string());
        app.sessions.push(SessionState::new(s.to_string()));
    }
    app
}

fn text_block(id: &str, state: TimelineBlockState, text: &str) -> Block {
    Block {
        block_id: id.into(),
        block_order: 0,
        kind: TimelineBlockKind::Text,
        state,
        text: text.into(),
        tool: None,
        last_fragment: 0,
        rev: 1,
    }
}

fn tool_block(id: &str, state: TimelineToolState) -> Block {
    Block {
        block_id: id.into(),
        block_order: 0,
        kind: TimelineBlockKind::Tool,
        state: TimelineBlockState::Sealed,
        text: String::new(),
        tool: Some(ToolCard {
            tool_call_id: id.into(),
            name: "bash".into(),
            state,
            summary: Some("ls".into()),
            args_json: None,
            output: Some("total 0".into()),
            diff: None,
            progress: String::new(),
            progress_truncated: false,
            progress_bytes_total: 0,
            progress_stream: None,
            failure: None,
            permission: None,
            display: None,
        }),
        last_fragment: 0,
        rev: 1,
    }
}

fn turn(id: &str, blocks: Vec<Block>) -> Turn {
    Turn {
        turn_id: id.into(),
        turn_index: None,
        user_text: "问".into(),
        state: TimelineTurnState::Completed,
        failure: None,
        sealed: true,
        offloaded: false,
        thinking: ThinkingStats { segments: 0, lines: 0 },
        rounds: vec![Round { round_num: 0, sealed: true, is_final: true, blocks }],
    }
}

fn plain(l: &RenderLine) -> String {
    l.spans.iter().map(|s| s.text.as_str()).collect()
}

#[test]
fn frames_repeat() {
    for f in 0..20u64 {
        assert_eq!(claude_spinner_glyph(f), claude_spinner_glyph(f + 6));
        assert_eq!(spinner_glyph(f), spinner_glyph(f + 8));
        assert_eq!(thinking_glyph(f), thinking_glyph(f + 4));
    }
    assert_ne!(spinner_glyph(0), spinner_glyph(1));
}

#[test]
fn notices_stay_few_and_new() {
    let mut app = app_with(&[]);
    for i in 0..20 {
        app.toast(NoticeLevel::Info, format!("n{i}"));
    }
    assert_eq!(app.toasts.len(), TOAST_LIMIT);
    assert_eq!(app.toasts[0].text, "n12");
    assert_eq!(app.toasts.last().unwrap().text, "n19");
}

#[test]
fn quitting_takes_two_presses() {
    let mut app = app_with(&[]);
    app.handle(control('c'));
    assert!(!app.quit);
    app.handle(control('c'));
    assert!(app.quit);
    let mut app = app_with(&[]);
    app.handle(control('q'));
    assert!(app.quit);
}

#[test]
fn an_opened_session_is_shown() {
    let mut app = app_with(&["a"]);
    app.open_session_tab("b");
    assert_eq!(app.active_seed().as_deref(), Some("b"));
    assert_eq!(app.tabs, ["a", "b"]);
    app.open_session_tab("a");
    assert_eq!(app.active_seed().as_deref(), Some("a"));
    assert_eq!(app.tabs, ["a", "b"]);
}

#[test]
fn a_closed_session_is_gone() {
    let mut app = app_with(&["a", "b"]);
    app.active = 1;
    app.close_tab_by_seed("b");
    assert_eq!(app.tabs, ["a"]);
    assert!(app.find_session("b").is_none());
    assert_eq!(app.active, 0);
}

fn question(id: &str) -> AskQuestion {
    AskQuestion {
        id: id.into(),
        question: id.into(),
        options: vec!["甲".into(), "乙".into()],
        allow_custom: true,
    }
}

fn ask(id: &str) -> AskPanel {
    AskPanel::new(id.into(), "t".into(), AskMode::Batch, vec![question("q1"), question("q2")])
}

#[test]
fn the_first_and_the_last_row_are_one_key_away() {
    let mut app = app_with(&["s"]);
    app.sessions[0].pending_ask = Some(ask("i1"));
    let last = KeyEvent::new(KeyCode::Char('G'), KeyModifiers::with_shift());
    app.handle(AppMsg::Key(last));
    let panel = app.sessions[0].pending_ask.as_ref().unwrap();
    assert_eq!(panel.option_count(0), 3);
    assert_eq!(panel.option_cursor[0], 2);
    app.handle(AppMsg::Key(bare(KeyCode::Char('g'))));
    assert_eq!(app.sessions[0].pending_ask.as_ref().unwrap().option_cursor[0], 0);
}

#[test]
fn an_answered_permission_does_not_come_back() {
    let mut app = app_with(&["s"]);
    app.sessions[0].queue_permission(permission("c1"));
    app.handle(AppMsg::Key(bare(KeyCode::Char('a'))));
    assert!(app.sessions[0].pending_permissions.is_empty());
    assert!(matches!(
        &app.effects[0],
        Effect::PermissionRespond { tool_call_id, approved: true, .. } if tool_call_id == "c1"
    ));
    app.sessions[0].queue_permission(permission("c1"));
    assert!(app.sessions[0].pending_permissions.is_empty());
    app.handle(AppMsg::Key(bare(KeyCode::Char('x'))));
    app.handle(AppMsg::Paste("y".into()));
    app.handle(AppMsg::Tick);
    app.handle(AppMsg::Resize);
    app.handle(AppMsg::Action(ActionResult::Bootstrap {
        seed: "s".into(),
        result: Ok(SessionBootstrap {
            activity: ActivityState::Idle,
            model: None,
            usage: None,
            interactions: vec![PendingInteraction {
                interaction_id: "i1".into(),
                call_id: "c1".into(),
                kind: InteractionKind::Permission,
                request: ContentValue::Unavailable,
            }],
        }),
    }));
    assert!(app.sessions[0].pending_permissions.is_empty());
}

#[test]
fn an_answered_plan_does_not_come_back() {
    let mut app = app_with(&["s"]);
    app.sessions[0].pending_plan = Some(PlanPanel {
        interaction_id: "i1".into(),
        turn_id: "t".into(),
        plan_content: "p".into(),
        review_type: "plan".into(),
        todo_items: Vec::new(),
        message: String::new(),
        entering_message: false,
        scroll: 0,
    });
    app.respond_plan(true, false);
    assert!(app.sessions[0].pending_plan.is_none());
    app.handle(AppMsg::Action(ActionResult::Bootstrap {
        seed: "s".into(),
        result: Ok(SessionBootstrap {
            activity: ActivityState::Idle,
            model: None,
            usage: None,
            interactions: vec![PendingInteraction {
                interaction_id: "i1".into(),
                call_id: String::new(),
                kind: InteractionKind::Plan,
                request: ContentValue::Inline(InteractionBody {
                    text: r#"{"kind":"plan","plan_content":"p"}"#.into(),
                    mode: None,
                    questions: None,
                    todo_items: None,
                }),
            }],
        }),
    }));
    assert!(app.sessions[0].pending_plan.is_none());
}

#[test]
fn dropped_turns_can_be_loaded_again() {
    let mut s = SessionState::new("s".into());
    for i in 0..3 {
        s.timeline.turns.push(turn(&format!("t{i}"), Vec::new()));
    }
    s.timeline.cap_turns(3);
    assert!(!s.timeline.has_more);
    s.timeline.cap_turns(2);
    assert!(s.timeline.has_more);
    assert_eq!(s.timeline.turns[0].turn_id, "t1");
    s.timeline.cap_turns(2);
    assert!(s.timeline.has_more);
}

#[test]
fn underscores_within_words_are_no_emphasis() {
    assert!(!is_markdown("foo_bar_baz"));
    assert!(is_markdown("foo _bar_ baz"));
    assert!(is_markdown("_foo_"));
    assert!(!is_markdown("变量_名_值"));
    assert!(is_markdown("a-_b_-c"));
}

#[test]
fn the_directory_cursor_starts_at_the_bytes() {
    let mut app = App::new_with_cwd(Some("/工".into()), None);
    app.tabs.push("s".into());
    app.sessions.push(SessionState::new("s".into()));
    app.execute_slash_text("/new ?");
    let line = |app: &App| match app.overlays.last() {
        Some(Overlay::CwdInput { input, cursor }) => {
            (input.iter().collect::<String>(), *cursor)
        }
        _ => panic!("no directory asked for"),
    };
    assert_eq!(line(&app), ("/工".to_string(), 4));
    let back = || AppMsg::Key(bare(KeyCode::Backspace));
    assert!(!app.accepts(&back()));
    app.handle(AppMsg::Key(bare(KeyCode::Delete)));
    app.handle(AppMsg::Key(bare(KeyCode::Right)));
    assert_eq!(line(&app), ("/工".to_string(), 4));
    app.handle(AppMsg::Key(bare(KeyCode::Char('x'))));
    assert_eq!(line(&app), ("/工x".to_string(), 5));
    app.handle(AppMsg::Key(bare(KeyCode::Left)));
    assert_eq!(line(&app), ("/工x".to_string(), 4));
    app.handle(AppMsg::Key(bare(KeyCode::End)));
    assert!(app.accepts(&back()));
    app.handle(back());
    assert_eq!(line(&app), ("/工".to_string(), 2));
}

#[test]
fn an_answered_interaction_does_not_come_back() {
    let mut app = app_with(&["s"]);
    app.sessions[0].pending_ask = Some(ask("i1"));
    app.handle(AppMsg::Key(bare(KeyCode::Char('1'))));
    app.handle(AppMsg::Key(bare(KeyCode::Char('2'))));
    assert!(app.sessions[0].pending_ask.is_none());
    assert!(app.effects.iter().any(|e| matches!(e, Effect::AskRespond { .. })));
    app.handle(AppMsg::Action(ActionResult::Bootstrap {
        seed: "s".into(),
        result: Ok(SessionBootstrap {
            activity: ActivityState::Idle,
            model: None,
            usage: None,
            interactions: vec![PendingInteraction {
                interaction_id: "i1".into(),
                call_id: "c1".into(),
                kind: InteractionKind::Ask,
                request: ContentValue::Inline(InteractionBody {
                    text: r#"{"kind":"ask"}"#.into(),
                    mode: None,
                    questions: Some(vec![question("q1")]),
                    todo_items: None,
                }),
            }],
        }),
    }));
    assert!(app.sessions[0].pending_ask.is_none());
}

#[test]
fn nothing_is_sent_while_an_answer_is_missing() {
    let mut app = app_with(&["s"]);
    app.sessions[0].pending_ask = Some(ask("i1"));
    app.handle(AppMsg::Key(bare(KeyCode::Right)));
    app.handle(AppMsg::Key(bare(KeyCode::Enter)));
    let panel = app.sessions[0].pending_ask.as_ref().unwrap();
    assert_eq!(panel.error.as_deref(), Some("第 1 题尚未回答"));
    assert_eq!(panel.selections[1], Some(0));
    assert!(!app.effects.iter().any(|e| matches!(e, Effect::AskRespond { .. })));
}

#[test]
fn skipping_a_question_is_sent() {
    let mut app = app_with(&["s"]);
    app.sessions[0].pending_ask = Some(ask("i1"));
    app.handle(AppMsg::Key(bare(KeyCode::Esc)));
    assert!(app.sessions[0].pending_ask.is_none());
    assert!(app.effects.iter().any(|e| matches!(e, Effect::AskDismiss { .. })));
}

fn permission(id: &str) -> PermissionPanel {
    PermissionPanel {
        tool_call_id: id.into(),
        tool_name: "bash".into(),
        risk: PermissionRisk::High,
        paths: vec!["/work".into()],
        trust_folder: false,
    }
}

#[test]
fn a_settled_call_is_not_asked_about_again() {
    let mut s = SessionState::new("s".into());
    s.queue_permission(permission("c1"));
    s.queue_permission(permission("c1"));
    assert_eq!(s.pending_permissions.len(), 1);
    s.resolve_permission("c1");
    assert!(s.active_permission().is_none());
    s.queue_permission(permission("c1"));
    assert!(s.active_permission().is_none());
    s.restore_permission_from_snapshot(permission("c1"));
    assert!(s.active_permission().is_some());
}

#[test]
fn permission_keys_answer_the_first_call() {
    let mut app = app_with(&["s"]);
    app.sessions[0].queue_permission(permission("c1"));
    app.sessions[0].queue_permission(permission("c2"));
    app.handle(AppMsg::Key(bare(KeyCode::Char('t'))));
    assert!(app.sessions[0].pending_permissions[0].trust_folder);
    app.handle(AppMsg::Key(bare(KeyCode::Char('a'))));
    assert_eq!(app.sessions[0].active_permission().unwrap().tool_call_id, "c2");
    assert!(app.effects.iter().any(|e| matches!(
        e,
        Effect::PermissionRespond { tool_call_id, approved: true, trust_folder: true, .. }
            if tool_call_id == "c1"
    )));
    app.handle(AppMsg::Key(bare(KeyCode::Char('d'))));
    assert!(app.sessions[0].active_permission().is_none());
}

#[test]
fn a_plan_is_rejected_with_a_reason() {
    let mut app = app_with(&["s"]);
    app.sessions[0].pending_plan = Some(PlanPanel {
        interaction_id: "i".into(),
        turn_id: "t".into(),
        plan_content: "p".into(),
        review_type: "plan".into(),
        todo_items: Vec::new(),
        message: String::new(),
        entering_message: false,
        scroll: 0,
    });
    for code in [KeyCode::Char('r'), KeyCode::Char('不'), KeyCode::Enter] {
        app.handle(AppMsg::Key(bare(code)));
    }
    assert!(app.sessions[0].pending_plan.is_none());
    assert!(app.effects.iter().any(|e| matches!(
        e,
        Effect::PlanRespond { approved: false, message: Some(m), .. } if m == "不"
    )));
}

#[test]
fn sessions_do_not_mix() {
    let mut app = app_with(&["a", "b"]);
    app.handle(AppMsg::Runtime(RuntimeMsg::V2Event {
        seed: "a".into(),
        causation_id: None,
        payload: V2Payload::ControlDelta(ControlDelta::Activity(ActivityState::Working)),
    }));
    app.handle(AppMsg::Runtime(RuntimeMsg::V2Event {
        seed: "a".into(),
        causation_id: None,
        payload: V2Payload::ConversationDelta(ConversationDelta::TurnStarted {
            turn_id: "t1".into(),
        }),
    }));
    assert_eq!(app.sessions[0].activity, Some(ActivityState::Working));
    assert!(app.sessions[0].streaming.is_some());
    assert_eq!(app.sessions[1].activity, None);
    assert!(app.sessions[1].streaming.is_none());
}

#[test]
fn a_created_session_is_recognised_by_its_command() {
    let mut app = app_with(&["old"]);
    app.fresh_id = "cmd-1".into();
    app.handle(control('t'));
    assert!(app.effects.iter().any(
        |e| matches!(e, Effect::CreateSession { command_id, .. } if command_id == "cmd-1")
    ));
    for (id, opened) in [("cmd-0", false), ("cmd-1", true)] {
        app.handle(AppMsg::Runtime(RuntimeMsg::V2Event {
            seed: "new".into(),
            causation_id: Some(id.into()),
            payload: V2Payload::ControlDelta(ControlDelta::SessionCreated),
        }));
        assert_eq!(app.tabs.len() == 2, opened);
    }
    assert!(app.pending_creates.is_empty());
}

#[test]
fn a_lost_timeline_of_a_tab_is_only_noticed() {
    let mut app = app_with(&["a"]);
    app.handle_runtime(RuntimeMsg::TimelineLost {
        seed: "a".into(),
        reason: TimelineLostReason::SessionMissing,
    });
    assert_eq!(app.tabs, ["a"]);
    assert_eq!(app.toasts.len(), 1);
}

#[test]
fn a_finished_subagent_is_not_followed() {
    let mut app = app_with(&["a"]);
    app.subagent_seeds.push("c".into());
    app.sessions[0].subagents.push(SubagentEntry {
        tool_call_id: "call".into(),
        seed: None,
        name: "explore".into(),
        state: SubagentState::Running,
    });
    let event = |d: ControlDelta| {
        AppMsg::Runtime(RuntimeMsg::V2Event {
            seed: "a".into(),
            causation_id: None,
            payload: V2Payload::ControlDelta(d),
        })
    };
    app.handle(event(ControlDelta::SubagentSpawned {
        child_session_id: "c".into(),
        parent_call_id: "call".into(),
    }));
    assert_eq!(app.sessions[0].subagents[0].seed.as_deref(), Some("c"));
    app.handle(event(ControlDelta::SubagentFinished {
        child_session_id: "c".into(),
        status: SubagentState::Completed,
    }));
    assert_eq!(app.sessions[0].subagents[0].state, SubagentState::Completed);
    assert!(app.subagent_seeds.is_empty());
}

#[test]
fn deleting_what_was_typed_restores_the_line() {
    let mut c = Composer::default();
    c.insert_str("你好 world");
    c.left();
    let before = (c.input.clone(), c.cursor);
    c.insert('x');
    c.backspace();
    assert_eq!((c.input.clone(), c.cursor), before);

    let mut line: Vec<char> = "ab".chars().collect();
    let mut cursor = 1usize;
    edit_line(&mut line, &mut cursor, bare(KeyCode::Char('x')));
    assert_eq!(line, ['a', 'x', 'b']);
    edit_line(&mut line, &mut cursor, bare(KeyCode::Backspace));
    assert_eq!((line.as_slice(), cursor), (['a', 'b'].as_slice(), 1));
}

#[test]
fn tab_arrows_undo_each_other() {
    for n in 1..6usize {
        for a in 0..n {
            let left = alt_tab_target(a, n, KeyCode::Left).unwrap();
            assert!(left < n);
            assert_eq!(alt_tab_target(left, n, KeyCode::Right), Some(a));
        }
    }
}

fn unquoted(s: &str) -> String {
    let mut out = String::new();
    let mut inside = false;
    let mut chars = s.chars();
    while let Some(c) = chars.next() {
        match c {
            '\'' => inside = !inside,
            '\\' if !inside => out.extend(chars.next()),
            c => out.push(c),
        }
    }
    out
}

#[test]
fn quoting_is_undone_by_a_shell() {
    for s in ["", "a", "a'b", "'", "it''s \\ $HOME `x`", "файл"] {
        assert_eq!(unquoted(&shell_quote(s)), s);
    }
}

#[test]
fn nothing_is_estimated_to_take_no_line() {
    for w in [0usize, 1, 80] {
        assert!(estimate_block_lines(&text_block("b", TimelineBlockState::Sealed, ""), w) > 0);
        assert!(estimate_block_lines(&tool_block("b", TimelineToolState::Failed), w) > 0);
        assert!(estimate_pre_lines(&turn("t", Vec::new()), w) > 0);
        assert!(estimate_post_lines(&None, w) > 0);
    }
    assert_eq!(
        estimate_block_lines(&text_block("b", TimelineBlockState::Sealed, "一二三"), 4),
        2
    );
}

#[test]
fn a_card_is_estimated_exactly() {
    let hl = Highlighter::new();
    for st in [TimelineToolState::Running, TimelineToolState::Succeeded, TimelineToolState::Failed] {
        let b = tool_block("b", st);
        for w in [20usize, 80] {
            let mut sink = AnimSink::Slots(Vec::new());
            let drawn = render_block_lines(&hl, &b, w, &mut sink);
            assert_eq!(estimate_block_lines(&b, w), drawn.len());
        }
    }
}

#[test]
fn a_plan_has_one_item_per_block() {
    let t = turn(
        "t",
        vec![
            text_block("a", TimelineBlockState::Sealed, "x"),
            tool_block("b", TimelineToolState::Succeeded),
            tool_block("c", TimelineToolState::Succeeded),
        ],
    );
    assert_eq!(plan_turn(&t, &Vec::new()).len(), 3);
    assert_eq!(plan_turn(&t, &vec![("t".to_string(), 0)]).len(), 3);
}

#[test]
fn a_text_key_goes_by_the_revision() {
    let a = text_block("b", TimelineBlockState::Open, "x");
    let mut b = text_block("b", TimelineBlockState::Open, "xy");
    assert_eq!(block_cache_key(&a, 80), block_cache_key(&b, 80));
    b.rev += 1;
    assert_ne!(block_cache_key(&a, 80), block_cache_key(&b, 80));
}

#[test]
fn wrapping_keeps_the_text() {
    let text = "alpha  beta 你好世界，gamma";
    for w in [3usize, 5, 9, 50] {
        let lines = wrap_text(text, w);
        let squeezed = |s: &str| s.chars().filter(|c| *c != ' ').collect::<String>();
        assert_eq!(squeezed(&lines.concat()), squeezed(text));
    }
}

#[test]
fn the_view_stays_within_the_transcript() {
    let follow = Scroll { follow: true, offset: 0 };
    assert_eq!(viewport_top(100, 30, follow), 70);
    assert_eq!(viewport_top(10, 30, follow), 0);
    let at = |offset: usize| Scroll { follow: false, offset };
    for offset in [0usize, 5, 70, 500] {
        assert!(viewport_top(100, 30, at(offset)) <= 70);
    }
}

#[test]
fn drawing_at_the_view_settles() {
    let hl = Highlighter::new();
    let mut s = SessionState::new("s".into());
    for i in 0..60 {
        let blocks = vec![
            text_block(&format!("a{i}"), TimelineBlockState::Sealed, "# 题\n\n正文 **粗**"),
            tool_block(&format!("b{i}"), TimelineToolState::Failed),
        ];
        s.timeline.turns.push(turn(&format!("t{i}"), blocks));
    }
    let full: Vec<String> = render_transcript(&hl, &s, 60, 0).iter().map(plain).collect();
    let mut cache = TranscriptCache::new(60);
    refresh_at_viewport(&hl, &s, 60, 20, &mut cache);
    let top = viewport_top(cache.total_lines(), 20, s.scroll);
    let shown: Vec<String> = cache.window(top, 20).iter().map(|l| plain(l)).collect();
    assert_eq!(shown.len(), 20);
    assert_eq!(shown, full[full.len() - 20..]);
}

#[test]
fn a_changed_block_is_drawn_alone() {
    let hl = Highlighter::new();
    let mut s = SessionState::new("s".into());
    for i in 0..5 {
        let b = text_block(&format!("a{i}"), TimelineBlockState::Sealed, "正文");
        s.timeline.turns.push(turn(&format!("t{i}"), vec![b]));
    }
    let mut cache = TranscriptCache::new(60);
    refresh(&hl, &s, 60, None, &mut cache);
    assert_eq!(refresh(&hl, &s, 60, None, &mut cache).rebuilt_blocks, 0);
    let b = &mut s.timeline.turns[2].rounds[0].blocks[0];
    b.text.push_str("变了");
    b.rev += 1;
    assert_eq!(refresh(&hl, &s, 60, None, &mut cache).rebuilt_blocks, 1);
    let flat: Vec<String> = cache.flatten_lines().iter().map(|l| plain(l)).collect();
    let full: Vec<String> = render_transcript(&hl, &s, 60, 0).iter().map(plain).collect();
    assert_eq!(flat, full);
}

#[test]
fn glyphs_stay_within_the_area() {
    let area = Area { x: 5, y: 3, width: 10, height: 4 };
    let slot = |row: u16, col: u16| ViewportSlot { row, col, kind: AnimKind::Cursor };
    let placed = place_slots(area, &vec![slot(0, 0), slot(3, 8), slot(4, 0), slot(0, 10)], 0);
    let at: Vec<(u16, u16)> = placed.iter().map(|g| (g.x, g.y)).collect();
    assert_eq!(at, [(5, 3), (13, 6)]);
    assert!(placed.iter().all(|g| g.glyph == "▌"));
}

#[test]
fn a_card_moves_no_line_with_the_frame() {
    let b = tool_block("b", TimelineToolState::Running);
    let tool = b.tool.as_ref().unwrap();
    let draw = |sink: &mut AnimSink| {
        let mut lines = Vec::new();
        push_tool_card_anim(&mut lines, tool, 60, sink);
        lines
    };
    let a = draw(&mut AnimSink::Bake(0));
    let c = draw(&mut AnimSink::Bake(3));
    assert_eq!(a.len(), c.len());
    assert_ne!(a, c);
    let mut sink = AnimSink::Slots(Vec::new());
    let s = draw(&mut sink);
    assert_eq!(s.len(), a.len());
    assert_eq!(sink.into_vec().len(), 1);
}

#[test]
fn a_turn_is_drawn_as_in_the_transcript() {
    let hl = Highlighter::new();
    let mut s = SessionState::new("s".into());
    s.timeline.turns.push(turn("t", vec![text_block("a", TimelineBlockState::Sealed, "答")]));
    let whole = render_transcript(&hl, &s, 60, 0);
    assert_eq!(render_turn(&hl, &s, 0, 60, 0), whole);
}

#[test]
fn an_expired_interaction_stays_over() {
    let mut m = RingingV2SessionModel::new("s");
    let waiting = || Waiting {
        interaction_id: "i".into(),
        call_id: "c".into(),
        turn_id: "t".into(),
        kind: qaqh_tui::ringing::InteractionKind::Ask,
    };
    assert_eq!(m.apply_interaction_expired("other"), InteractionOutcome::Unknown);
    assert_eq!(m.apply_interaction_requested(waiting()), InteractionOutcome::Requested);
    assert_eq!(m.apply_interaction_expired("i"), InteractionOutcome::Expired);
    assert_eq!(m.apply_interaction_expired("i"), InteractionOutcome::AlreadyTerminal);
    assert_eq!(m.apply_interaction_requested(waiting()), InteractionOutcome::AlreadyTerminal);
}

#[test]
fn code_is_coloured_word_by_word() {
    let hl = Highlighter::new();
    let lines = render_markdown(&hl, "```rs\nlet x = \"s\"; // c\n```", 60);
    let code = lines.iter().find(|l| plain(l).contains("let x")).unwrap();
    let mut colours = Vec::new();
    for s in &code.spans {
        if let RenderStyle::Direct(d) = s.style {
            if d.fg.is_some() && !colours.contains(&d.fg) {
                colours.push(d.fg);
            }
        }
    }
    assert!(colours.len() >= 3, "{colours:?}");
    let unknown = render_markdown(&hl, "```nosuchlang\nlet x\n```", 60);
    assert!(unknown.iter().any(|l| plain(l).contains("let x")));
}

#[test]
fn markup_is_taken_apart() {
    let hl = Highlighter::new();
    let shown = |md: &str| -> Vec<String> {
        render_markdown(&hl, md, 60).iter().map(plain).filter(|l| !l.is_empty()).collect()
    };
    assert_eq!(shown("**a** ~~b~~ `c`"), ["a b c"]);
    assert!(shown("- [x] done\n- [ ] open").len() == 2);
    assert!(shown("---")[0].contains('─'));
    assert!(shown("[t](https://e.org)").concat().contains("https://e.org"));
    assert!(is_markdown("`code`") || is_markdown("- item\n- item"));
}

#[test]
fn arguments_are_read_as_json() {
    assert_eq!(format_args_preview(r#"{"n":1.50,"b":true,"s":"x"}"#), "[n=1.5, b=true, s=x]");
    assert_eq!(format_args_preview("{}"), "");
    assert!(format_args_preview("not json").contains("not json"));
}

#[test]
fn a_group_line_counts_its_calls() {
    let states = vec![
        TimelineToolState::Succeeded,
        TimelineToolState::Failed,
        TimelineToolState::Succeeded,
    ];
    let line = plain(&render_group_line(&states, false, 60));
    assert!(line.contains("3 tool calls") && line.contains("2✓") && line.contains("1✗"), "{line}");
}

#[test]
fn the_information_line_fits() {
    let mut s = SessionState::new("seed-1".into());
    s.model = Some("m1".into());
    let out = render_session_info(&s, 60, "");
    assert_eq!(out.len(), 1);
    let line = plain(&out[0]);
    assert!(line.contains("m1") && line.contains("seed-1"), "{line}");
}

#[test]
fn exports_are_asked_for() {
    let mut app = app_with(&["seed-abcdef123"]);
    app.sessions[0].timeline.turns.push(turn("t", Vec::new()));
    app.stamp = "2026-01-02 03:04:05".into();
    app.file_stamp = "20260102-030405".into();
    app.export_active_session(None);
    app.export_history_turn(0);
    app.export_history_turn(7);
    let paths: Vec<(String, bool)> = app
        .effects
        .iter()
        .filter_map(|e| match e {
            Effect::WriteFile { path, turn, .. } => Some((path.clone(), *turn)),
            _ => None,
        })
        .collect();
    assert_eq!(paths.len(), 2);
    assert_eq!(paths[0], ("qaqh-export-seed-abc-20260102-030405.md".to_string(), false));
    assert!(paths[1].1);
    let mut none = app_with(&[]);
    none.export_active_session(None);
    assert_eq!(none.toasts.last().unwrap().text, "无活动会话，无法导出");
}

#[test]
fn the_shown_session_is_drawn() {
    let hl = Highlighter::new();
    let mut app = app_with(&["a", "b"]);
    app.sessions[0].timeline.turns.push(turn(
        "t",
        vec![text_block("x", TimelineBlockState::Sealed, "答")],
    ));
    app.ensure_render_caches(&hl, 60, 10);
    assert!(app.sessions[0].block_cache.as_ref().unwrap().total_lines() > 0);
    assert!(app.sessions[1].block_cache.is_none());
    app.handle(AppMsg::Resize);
    assert!(app.sessions[0].block_cache.is_none());
}

#[test]
fn sessions_out_of_sight_give_up_their_transcripts() {
    let hl = Highlighter::new();
    let mut app = app_with(&["a", "b", "c", "d", "e", "f"]);
    for i in 0..6 {
        app.sessions[i].timeline.turns.push(turn(
            "t",
            vec![text_block("x", TimelineBlockState::Sealed, "答")],
        ));
        app.sessions[i].title = Some(format!("{i}"));
    }
    for i in 0..6 {
        app.active = i;
        app.ensure_render_caches(&hl, 60, 10);
    }
    assert_eq!(app.focus_order, ["f", "e", "d", "c", "b", "a"]);
    assert_eq!(app.last_focused.as_deref(), Some("f"));
    for i in 0..6 {
        let s = &app.sessions[i];
        assert_eq!(s.block_cache.is_some(), i == 5);
        assert_eq!(s.timeline.turns.is_empty(), i < 2);
        assert_eq!(s.needs_rebaseline, i < 2);
        assert_eq!(s.title, Some(format!("{i}")));
    }
    assert!(app.effects.is_empty());

    app.ensure_render_caches(&hl, 60, 10);
    assert_eq!(app.focus_order.len(), 6);

    app.active = 0;
    app.ensure_render_caches(&hl, 60, 10);
    assert_eq!(app.focus_order, ["a", "f", "e", "d", "c", "b"]);
    assert!(!app.sessions[0].needs_rebaseline);
    assert!(app.sessions[2].needs_rebaseline);
    assert_eq!(app.effects.len(), 1);
    assert!(matches!(&app.effects[0], Effect::Rebaseline(s) if s == "a"));
}

#[test]
fn closed_sessions_leave_the_order_of_focus() {
    let hl = Highlighter::new();
    let mut app = app_with(&["a", "b"]);
    app.ensure_render_caches(&hl, 60, 10);
    app.active = 1;
    app.ensure_render_caches(&hl, 60, 10);
    assert_eq!(app.focus_order, ["b", "a"]);
    app.close_tab_by_seed("b");
    app.ensure_render_caches(&hl, 60, 10);
    assert_eq!(app.focus_order, ["a"]);
}

fn listed(seed: &str, archived: bool) -> SessionListEntry {
    SessionListEntry {
        seed: seed.into(),
        title: None,
        cwd: None,
        created_at: 0,
        archived,
        ephemeral: false,
        running: false,
    }
}

#[test]
fn the_home_list_is_walked() {
    let mut app = app_with(&[]);
    app.session_list_cache = vec![listed("a", false), listed("b", true), listed("c", false)];
    assert_eq!(app.filtered_sessions(false), [0, 2]);
    assert_eq!(app.filtered_sessions(true), [0, 1, 2]);
    assert!(app.home_key(bare(KeyCode::Down)));
    assert_eq!(app.home_selected, 1);
    assert!(app.home_key(bare(KeyCode::Enter)));
    assert_eq!(app.tabs, ["c"]);
    assert!(!app.home_key(bare(KeyCode::Char('z'))));
}

#[test]
fn closing_a_tab_is_confirmed() {
    let mut app = app_with(&["a", "b"]);
    app.handle(AppMsg::Key(KeyEvent::new(KeyCode::Char('w'), KeyModifiers::with_alt())));
    assert!(matches!(
        app.overlays.last(),
        Some(Overlay::Confirm { action: ConfirmAction::CloseTab(s) }) if s == "a"
    ));
    app.handle(AppMsg::Key(bare(KeyCode::Char('n'))));
    assert_eq!(app.tabs.len(), 2);
    app.handle(AppMsg::Key(KeyEvent::new(KeyCode::Char('w'), KeyModifiers::with_alt())));
    app.handle(AppMsg::Key(bare(KeyCode::Char('y'))));
    assert_eq!(app.tabs, ["b"]);
}

#[test]
fn pasted_text_goes_into_the_input_line() {
    let mut app = app_with(&["a"]);
    app.handle(AppMsg::Paste("两\n行".into()));
    assert_eq!(app.sessions[0].composer.value(), "两\n行");
    app.handle(AppMsg::Key(bare(KeyCode::Enter)));
    assert!(app.effects.iter().any(|e| matches!(e, Effect::SendMessage)));
}

#[test]
fn the_wheel_scrolls() {
    let mut app = app_with(&["a"]);
    app.handle(AppMsg::Mouse(MouseEvent { kind: MouseKind::ScrollUp, column: 1, row: 5 }));
    assert!(app.effects.iter().any(|e| matches!(e, Effect::ScrollUp(_))));
}

#[test]
fn errors_are_shown() {
    let mut app = app_with(&["a"]);
    let mut shown = |r: ActionResult| -> String {
        app.handle(AppMsg::Action(r));
        app.toasts.last().unwrap().text.clone()
    };
    assert_eq!(
        shown(ActionResult::Bootstrap { seed: "a".into(), result: Err("e1".into()) }),
        "bootstrap 失败[a]: e1"
    );
    assert_eq!(
        shown(ActionResult::InteractionBody {
            seed: "a".into(),
            interaction_id: "i".into(),
            result: Err("e2".into()),
        }),
        "交互正文取回失败[a]: e2"
    );
    assert_eq!(shown(ActionResult::SessionList(Err("e3".into()))), "session.list: e3");
    assert_eq!(shown(ActionResult::ConfigLoaded(Err("e4".into()))), "config.load: e4");
    assert_eq!(shown(ActionResult::ConfigUnreadable("e5".into())), "config.load 解析失败: e5");
    assert_eq!(
        shown(ActionResult::Uploaded {
            seed: "a".into(),
            path: "/p".into(),
            result: Err("e6".into()),
        }),
        "附件上传失败 /p: e6"
    );
    assert_eq!(
        shown(ActionResult::Receipt {
            label: "撤销".into(),
            seed: None,
            result: Err("e7".into()),
        }),
        "撤销: e7"
    );
    assert_eq!(
        shown(ActionResult::Receipt {
            label: "撤销".into(),
            seed: None,
            result: Ok(CommandState::Succeeded),
        }),
        "撤销 完成"
    );
    assert_eq!(
        shown(ActionResult::Written { path: "/x".into(), turn: true, result: Ok(()) }),
        "已导出回合：/x"
    );
    assert_eq!(
        shown(ActionResult::Written { path: "/x".into(), turn: false, result: Err("e8".into()) }),
        "导出失败：e8"
    );
}

#[test]
fn without_tabs_the_arrows_stay() {
    assert_eq!(alt_tab_target(3, 0, KeyCode::Left), Some(3));
    assert_eq!(alt_tab_target(2, 0, KeyCode::Right), Some(2));
    assert_eq!(alt_tab_target(0, 0, KeyCode::Left), Some(0));
}

#[test]
fn two_keys_start_a_new_line() {
    let alt = KeyModifiers { shift: false, control: false, alt: true };
    for key in [
        KeyEvent::new(KeyCode::Enter, alt),
        KeyEvent::new(KeyCode::Char('j'), KeyModifiers::with_control()),
    ] {
        let mut app = app_with(&["s"]);
        app.sessions[0].composer.insert_str("ab");
        app.handle(AppMsg::Key(key));
        assert_eq!(app.sessions[0].composer.value(), "ab\n");
        assert!(app.effects.is_empty());
    }
}

#[test]
fn estimated_lines_are_the_wrapped_ones() {
    assert_eq!(estimate_wrapped_lines("abc def", 3), 2);
    for text in ["", "abc def", "a b c d", "\n\n", "一二三 四五", "word toolongforit x", "  a  b "] {
        for width in 1..9 {
            assert_eq!(estimate_wrapped_lines(text, width), wrap_text(text, width).len());
        }
    }
}

#[test]
fn unknown_languages_are_plain_text() {
    let hl = Highlighter::new();
    let code = "fn main() { let x = 1; }";
    let spans = |lang| render_highlighted_code_block(&hl, code, lang, 60)[0].spans.len();
    assert!(spans(Some("rust")) > 2);
    assert_eq!(spans(Some("no such language")), 2);
    assert_eq!(spans(None), 2);
}

#[test]
fn a_run_that_starts_with_its_failure_keeps_its_line() {
    let t = turn(
        "t",
        vec![
            tool_block("a", TimelineToolState::Failed),
            tool_block("b", TimelineToolState::Succeeded),
            tool_block("c", TimelineToolState::Succeeded),
        ],
    );
    let plan = plan_turn(&t, &Vec::new());
    assert!(matches!(&plan[0].shown, Shown::Line(states, _) if states.len() == 3));
    assert_eq!(plan[0].block, 1);
    assert!(matches!(plan[1].shown, Shown::Hidden(_)));
    assert!(matches!(plan[2].shown, Shown::Whole));
    assert_eq!(plan[2].block, 0);
}

#[test]
fn the_first_end_of_an_interaction_wins() {
    let waiting = |id: &str| Waiting {
        interaction_id: id.into(),
        call_id: "c".into(),
        turn_id: "t".into(),
        kind: qaqh_tui::ringing::InteractionKind::Ask,
    };
    let mut m = RingingV2SessionModel::new("s");
    for id in ["c", "a", "b"] {
        assert_eq!(m.apply_interaction_requested(waiting(id)), InteractionOutcome::Requested);
    }
    assert_eq!(m.apply_interaction_resolved("b"), InteractionOutcome::Resolved);
    assert_eq!(m.apply_interaction_expired("b"), InteractionOutcome::AlreadyTerminal);
    let ids: Vec<&str> =
        m.pending_interactions().iter().map(|p| p.interaction_id.as_str()).collect();
    assert_eq!(ids, ["a", "c"]);
    assert_eq!(m.apply_interaction_requested(waiting("a")), InteractionOutcome::Duplicate);
}

#[test]
fn styles_change_no_line() {
    let parts = [("ab cd", SpanStyle::Plain), (" ef gh\n\n", SpanStyle::Bold), ("ij", SpanStyle::Dim)];
    let runs: Vec<(String, SpanStyle)> = parts.iter().map(|(t, s)| (t.to_string(), *s)).collect();
    let text: String = parts.iter().map(|(t, _)| *t).collect();
    for width in 2..12 {
        let rows: Vec<String> = wrap_spans(&runs, width)
            .iter()
            .map(|row| row.iter().map(|r| r.0.as_str()).collect())
            .collect();
        let lines: Vec<String> =
            wrap_text(&text, width).into_iter().filter(|l| !l.is_empty()).collect();
        assert_eq!(rows, lines);
    }
}
