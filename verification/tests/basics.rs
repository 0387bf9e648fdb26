use qaqh_tui::anim::{anim_glyph, claude_spinner_glyph, frame_at, AnimKind};
use qaqh_tui::export::{default_export_path, export_markdown, export_turn_markdown};
use qaqh_tui::keymap::{
    alt_tab_target, map_global_key, modal_route, GlobalKey, KeyCode, KeyEvent, KeyModifiers,
    ModalRoute,
};
use qaqh_tui::pager::{pager_cmd, shell_quote};
use qaqh_tui::paste_guard::{PasteGuard, PASTE_BURST_KEYS};
use qaqh_tui::path::{file_name, guess_media_type};
use qaqh_tui::render_line::{edit_window, wrap_text, WrapState};
use qaqh_tui::retry::{poll_step, timeout_text, BootstrapRetry, PollStep};
use qaqh_tui::session::SessionState;
use qaqh_tui::slash::{
    completions_for, expand_tilde, is_absolute_path, parse, slash_command, SlashCmd,
    SLASH_COMMAND_COUNT,
};
use qaqh_tui::text::{is_white_space, lines_of, truncate_str};
use qaqh_tui::timeline::{
    Block, Round, ThinkingStats, TimelineBlockKind, TimelineBlockState, TimelineFailure,
    TimelineToolBody, TimelineToolDisplay, TimelineToolHeader, TimelineToolState, TimelineTurnState,
    ToolCard, Turn,
};
use qaqh_tui::decimal::{human_bytes, kilo_text, mega_text, milli_text};
use qaqh_tui::message::CommandState;

#[test]
fn claude_spinner_cycles_six_frames() {
    let glyphs: Vec<&str> = (0..6).map(claude_spinner_glyph).collect();
    assert_eq!(glyphs, ["·", "✢", "✳", "✶", "✻", "✽"]);
    assert_eq!(claude_spinner_glyph(6), claude_spinner_glyph(0));
}

#[test]
fn glyphs_by_kind() {
    assert_eq!(anim_glyph(AnimKind::Cursor, 3), Some("▌"));
    assert_eq!(anim_glyph(AnimKind::ProgressIndeterminate, 3), None);
    assert!(anim_glyph(AnimKind::Spinner, 0).is_some());
    assert!(anim_glyph(AnimKind::Thinking, 0).is_some());
    assert!(frame_at(10_000) > frame_at(0));
}

#[test]
fn wrap_text_handles_ascii_cjk_and_blank_lines() {
    assert_eq!(wrap_text("hello world foo", 11), ["hello world", "foo"]);
    assert_eq!(wrap_text("你好世界测试", 6), ["你好世", "界测试"]);
    assert_eq!(wrap_text("a\n\nb", 10), ["a", "", "b"]);
    assert_eq!(wrap_text("abc", 0), ["abc"]);
}

#[test]
fn wrapping_in_pieces_gives_the_same_lines() {
    let text = "alpha beta gamma 你好世界 delta\nepsilon";
    for width in [4usize, 7, 12, 40] {
        let mut w = WrapState::new(width);
        for c in text.chars() {
            w.push_str(&c.to_string());
        }
        assert_eq!(w.into_lines(), wrap_text(text, width));
    }
}

#[test]
fn edit_window_keeps_cursor_visible() {
    let buf: Vec<char> = "hello world".chars().collect();
    let (text, offset) = edit_window(&buf, buf.len(), 6);
    assert_eq!(offset, 5);
    assert_eq!(text, "world");

    let (text, offset) = edit_window(&buf, 0, 6);
    assert_eq!(offset, 0);
    assert_eq!(text, "hello ");

    let cjk: Vec<char> = "你好世界".chars().collect();
    let (text, offset) = edit_window(&cjk, 4, 8);
    assert_eq!(offset, 6);
    assert_eq!(text, "好世界");
}

#[test]
fn pager_cmd_falls_back_to_less() {
    assert_eq!(pager_cmd(None), "less -R");
    assert_eq!(pager_cmd(Some("")), "less -R");
    assert_eq!(pager_cmd(Some("   ")), "less -R");
    assert_eq!(pager_cmd(Some("bat -p")), "bat -p");
    assert_eq!(pager_cmd(Some("  more  ")), "more");
}

#[test]
fn shell_quote_escapes_single_quotes() {
    assert_eq!(shell_quote("/tmp/a.md"), "'/tmp/a.md'");
    assert_eq!(shell_quote("a'b"), "'a'\\''b'");
    assert_eq!(shell_quote("my dir/файл.md"), "'my dir/файл.md'");
}

#[test]
fn human_typing_never_floods() {
    let mut g = PasteGuard::default();
    for i in 0..200u64 {
        g.observe(1_000 + i * 80);
        assert!(!g.flooding());
    }
}

#[test]
fn burst_crosses_threshold_at_40() {
    let mut g = PasteGuard::default();
    let base = 1_000u64;
    for i in 0..PASTE_BURST_KEYS - 1 {
        g.observe(base + i as u64);
    }
    assert!(!g.flooding());
    g.observe(base + PASTE_BURST_KEYS as u64);
    assert!(g.flooding());
}

#[test]
fn flood_toast_fires_once_per_episode() {
    let mut g = PasteGuard::default();
    for i in 0..=PASTE_BURST_KEYS {
        g.observe(1_000 + i as u64);
    }
    assert!(g.take_toast());
    assert!(!g.take_toast());
    assert!(!g.take_toast());
}

#[test]
fn window_expiry_resets_guard() {
    let mut g = PasteGuard::default();
    let base = 1_000u64;
    for i in 0..=PASTE_BURST_KEYS {
        g.observe(base + i as u64);
    }
    assert!(g.flooding());
    g.observe(base + PASTE_BURST_KEYS as u64 + 250);
    assert!(!g.flooding());
    for i in 0..=PASTE_BURST_KEYS {
        g.observe(base + 1_000 + i as u64);
    }
    assert!(g.take_toast());
}

fn key(code: KeyCode, mods: KeyModifiers) -> KeyEvent {
    KeyEvent::new(code, mods)
}

#[test]
fn global_keys_map_to_intents() {
    let ctrl = KeyModifiers::with_control();
    assert_eq!(map_global_key(&key(KeyCode::Char('c'), ctrl)), Some(GlobalKey::QuitArmed));
    assert_eq!(map_global_key(&key(KeyCode::Char('q'), ctrl)), Some(GlobalKey::QuitNow));
    assert_eq!(map_global_key(&key(KeyCode::Char('t'), ctrl)), Some(GlobalKey::NewSession));
    assert_eq!(map_global_key(&key(KeyCode::Char('l'), ctrl)), Some(GlobalKey::SessionList));
    assert_eq!(map_global_key(&key(KeyCode::Char(','), ctrl)), Some(GlobalKey::ToggleSettings));
    assert_eq!(
        map_global_key(&key(KeyCode::F(10), KeyModifiers::bare_key())),
        Some(GlobalKey::ToggleSettings)
    );
}

#[test]
fn alt_w_requires_alt_not_ctrl() {
    assert_eq!(
        map_global_key(&key(KeyCode::Char('w'), KeyModifiers::with_alt())),
        Some(GlobalKey::CloseTab)
    );
    assert_eq!(map_global_key(&key(KeyCode::Char('w'), KeyModifiers::with_control())), None);
}

#[test]
fn plain_and_unknown_keys_are_not_global() {
    assert_eq!(map_global_key(&key(KeyCode::Char('t'), KeyModifiers::bare_key())), None);
    assert_eq!(map_global_key(&key(KeyCode::F(2), KeyModifiers::bare_key())), None);
    assert_eq!(map_global_key(&key(KeyCode::Char('x'), KeyModifiers::with_control())), None);
}

#[test]
fn alt_digit_targets_tab_by_index() {
    assert_eq!(alt_tab_target(0, 3, KeyCode::Char('1')), Some(0));
    assert_eq!(alt_tab_target(0, 3, KeyCode::Char('3')), Some(2));
}

#[test]
fn alt_digit_out_of_range_consumes_without_switching() {
    assert_eq!(alt_tab_target(2, 5, KeyCode::Char('7')), Some(2));
    assert_eq!(alt_tab_target(0, 0, KeyCode::Char('1')), Some(0));
}

#[test]
fn alt_arrows_wrap_around() {
    assert_eq!(alt_tab_target(2, 3, KeyCode::Left), Some(1));
    assert_eq!(alt_tab_target(0, 3, KeyCode::Left), Some(2));
    assert_eq!(alt_tab_target(0, 0, KeyCode::Left), Some(0));
    assert_eq!(alt_tab_target(1, 3, KeyCode::Right), Some(2));
    assert_eq!(alt_tab_target(2, 3, KeyCode::Right), Some(0));
}

#[test]
fn non_tab_keys_return_none() {
    assert_eq!(alt_tab_target(0, 3, KeyCode::Char('x')), None);
    assert_eq!(alt_tab_target(0, 3, KeyCode::Up), None);
    assert_eq!(alt_tab_target(0, 3, KeyCode::Char('0')), None);
}

#[test]
fn modal_route_priority_permission_ask_plan() {
    assert_eq!(modal_route(true, true, true), Some(ModalRoute::Permission));
    assert_eq!(modal_route(false, true, true), Some(ModalRoute::Ask));
    assert_eq!(modal_route(false, false, true), Some(ModalRoute::Plan));
    assert_eq!(modal_route(false, false, false), None);
}

fn block_text(id: &str, order: u32, text: &str) -> Block {
    Block {
        block_id: id.into(),
        block_order: order,
        kind: TimelineBlockKind::Text,
        state: TimelineBlockState::Sealed,
        text: text.into(),
        tool: None,
        last_fragment: 0,
        rev: 1,
    }
}

fn block_tool(id: &str, order: u32, tool: ToolCard) -> Block {
    Block {
        block_id: id.into(),
        block_order: order,
        kind: TimelineBlockKind::Tool,
        state: TimelineBlockState::Sealed,
        text: String::new(),
        tool: Some(tool),
        last_fragment: 0,
        rev: 1,
    }
}

fn card(name: &str, state: TimelineToolState) -> ToolCard {
    ToolCard {
        tool_call_id: format!("{name}-1"),
        name: name.into(),
        state,
        summary: None,
        args_json: None,
        output: None,
        diff: None,
        progress: String::new(),
        progress_truncated: false,
        progress_bytes_total: 0,
        progress_stream: None,
        failure: None,
        permission: None,
        display: None,
    }
}

fn sess_with(turns: Vec<Turn>) -> SessionState {
    let mut s = SessionState::new("seed-abcdef123".to_string());
    s.timeline.turns = turns;
    s
}

fn exported_turn() -> Turn {
    let mut shell = card("bash", TimelineToolState::Succeeded);
    shell.display = Some(TimelineToolDisplay {
        summary: Some("cargo test 通过".into()),
        header: Some(TimelineToolHeader::Shell { command: "cargo test".into() }),
        body: Some(TimelineToolBody::Shell {
            output: "202 passed".into(),
            exit_code: Some(0),
            truncated: false,
        }),
        metrics: None,
    });
    let mut edit = card("edit", TimelineToolState::Failed);
    edit.failure = Some(TimelineFailure { code: "E1".into(), message: "补丁不匹配".into() });
    Turn {
        turn_id: "t1".into(),
        turn_index: Some(1),
        user_text: "修复登录 bug".into(),
        state: TimelineTurnState::Completed,
        failure: None,
        sealed: true,
        offloaded: false,
        thinking: ThinkingStats { segments: 3, lines: 120 },
        rounds: vec![Round {
            round_num: 0,
            sealed: true,
            is_final: true,
            blocks: vec![
                block_text("b1", 0, "已修复。"),
                block_tool("b2", 1, shell),
                block_tool("b3", 2, edit),
            ],
        }],
    }
}

#[test]
fn export_contains_turn_head_user_and_tool_card() {
    let sess = sess_with(vec![exported_turn()]);
    let md = export_markdown(&sess, "2026-01-02 03:04:05");

    assert!(md.contains("# qaqh 会话导出"), "{md}");
    assert!(md.contains("- 会话：`seed-abcdef123`"), "{md}");
    assert!(
        md.contains("## Turn 1 · 已完成 · 思考 3 段/120 行 · 2 工具（1✗）"),
        "{md}"
    );
    assert!(md.contains("**❯ 用户**"), "{md}");
    assert!(md.contains("> 修复登录 bug"), "{md}");
    assert!(md.contains("已修复。"), "{md}");
    assert!(md.contains("### ⚙ bash · 已完成"), "{md}");
    assert!(md.contains("- 命令：`cargo test`"), "{md}");
    assert!(md.contains("- 摘要：cargo test 通过"), "{md}");
    assert!(md.contains("```sh\n202 passed\n```"), "{md}");
    assert!(md.contains("> ✗ 失败（E1）：补丁不匹配"), "{md}");
    assert!(md.contains("2026-01-02 03:04:05"), "{md}");

    let one = export_turn_markdown(&exported_turn(), 7);
    assert!(one.contains("## Turn 7 · 已完成"), "{one}");
}

#[test]
fn export_marks_folded_history_and_offload() {
    let mut sess = sess_with(vec![]);
    sess.timeline.has_more = true;
    let md = export_markdown(&sess, "now");
    assert!(md.contains("更早回合已折叠"), "{md}");

    let mut sess2 = sess_with(vec![]);
    sess2.timeline.truncated_before = true;
    let md2 = export_markdown(&sess2, "now");
    assert!(md2.contains("仅存于 daemon 归档"), "{md2}");
}

#[test]
fn default_path_shape() {
    let s = default_export_path("seed-abcdef123", "20260102-030405");
    assert!(s.starts_with("qaqh-export-seed-abc-"), "{s}");
    assert!(s.ends_with(".md"), "{s}");
    assert_eq!(s, "qaqh-export-seed-abc-20260102-030405.md");
}

#[test]
fn names_and_media_types_of_paths() {
    assert_eq!(file_name("/tmp/shot.png").as_deref(), Some("shot.png"));
    assert_eq!(file_name("/tmp/dir/").as_deref(), Some("dir"));
    assert_eq!(file_name("/tmp/.").as_deref(), Some("tmp"));
    assert_eq!(file_name("/tmp/.."), None);
    assert_eq!(file_name("/"), None);
    assert_eq!(file_name(""), None);
    for path in ["a/b.c", "x", "/tmp/dir/", "/tmp/..", "/", "a/./b", ".hidden", "a/..b"] {
        let std_name = std::path::Path::new(path)
            .file_name()
            .map(|s| s.to_string_lossy().to_string());
        assert_eq!(file_name(path), std_name, "{path}");
    }
    assert_eq!(guess_media_type("/a/B.PNG"), "image/png");
    assert_eq!(guess_media_type("x.jpeg"), "image/jpeg");
    assert_eq!(guess_media_type("x.jpg"), "image/jpeg");
    assert_eq!(guess_media_type("x.gif"), "image/gif");
    assert_eq!(guess_media_type("x.webp"), "image/webp");
    assert_eq!(guess_media_type("x.svg"), "image/svg+xml");
    assert_eq!(guess_media_type("x.pdf"), "application/pdf");
    assert_eq!(guess_media_type("x.json"), "application/json");
    assert_eq!(guess_media_type(".png"), "text/plain");
    assert_eq!(guess_media_type("png"), "text/plain");
    assert_eq!(guess_media_type("a.png/b"), "text/plain");
}

#[test]
fn numbers_as_text_agree_with_floats() {
    for n in [0u64, 1, 51, 52, 1023, 1024, 1075, 1126, 1127, 12_600, 999_999, u64::MAX] {
        assert_eq!(kilo_text(n), format!("{:.1}", n as f64 / 1024.0), "{n}");
    }
    for n in [0u64, 1_048_576, 1_100_000, 1_572_864, 123_456_789, (1 << 60) + 1] {
        assert_eq!(mega_text(n), format!("{:.1}", n as f64 / 1_048_576.0), "{n}");
    }
    for ms in 0..2000u64 {
        assert_eq!(milli_text(ms), format!("{:.1}", ms as f64 / 1000.0), "{ms}");
    }
    for ms in [61_234u64, 1_150_050, 9_007_199_254_740_993, u64::MAX - 1, u64::MAX] {
        assert_eq!(milli_text(ms), format!("{:.1}", ms as f64 / 1000.0), "{ms}");
    }
    assert_eq!(human_bytes(0), "0 B");
    assert_eq!(human_bytes(1023), "1023 B");
    assert_eq!(human_bytes(12_600), "12.3 KB");
    assert_eq!(human_bytes(3 * 1_048_576), "3.0 MB");
}

#[test]
fn white_space_is_that_of_char() {
    for n in 0u32..=0x3100 {
        if let Some(c) = char::from_u32(n) {
            assert_eq!(is_white_space(c), c.is_whitespace(), "{n:#x}");
        }
    }
}

#[test]
fn lines_are_those_of_str() {
    for s in ["", "a", "a\n", "a\nb", "a\r\nb\r\n", "\n\n", "a\r", "x\n\ny"] {
        let want: Vec<String> = s.lines().map(str::to_owned).collect();
        assert_eq!(lines_of(s), want, "{s:?}");
    }
}

#[test]
fn truncating_keeps_short_texts() {
    assert_eq!(truncate_str("abc", 3), "abc");
    assert_eq!(truncate_str("abcd", 3), "ab…");
    assert_eq!(truncate_str("你好世界", 3), "你好…");
    assert_eq!(truncate_str("ab", 0), "…");
}

#[test]
fn slash_commands_parse_and_complete() {
    assert_eq!(parse("/new"), Some(SlashCmd::New { cwd: None }));
    assert_eq!(parse("/n /tmp"), Some(SlashCmd::New { cwd: Some("/tmp".into()) }));
    assert_eq!(parse("/HELP"), Some(SlashCmd::Help));
    assert_eq!(parse("/export  a b "), Some(SlashCmd::Export { path: Some("a b".into()) }));
    assert_eq!(parse("/nope"), Some(SlashCmd::Unknown("nope".into())));
    assert_eq!(parse("hello"), None);
    assert_eq!(parse(""), None);
    let names = |s: &str| -> Vec<&str> { completions_for(s).iter().map(|d| d.name).collect() };
    assert_eq!(names("/se"), ["sessions", "settings"]);
    assert_eq!(names("/").len(), SLASH_COMMAND_COUNT);
    assert_eq!(names("/new "), [] as [&str; 0]);
    assert_eq!(names("x"), [] as [&str; 0]);
    assert_eq!(slash_command(0).name, "new");
}

#[test]
fn tilde_is_the_home_directory() {
    let home = Some("/home/u".to_string());
    assert_eq!(expand_tilde("~", &home), "/home/u");
    assert_eq!(expand_tilde("~/a", &home), "/home/u/a");
    assert_eq!(expand_tilde("/a~", &home), "/a~");
    assert_eq!(expand_tilde("~/a", &None), "~/a");
    assert!(is_absolute_path("/a"));
    assert!(!is_absolute_path("a"));
}

#[test]
fn waiting_for_a_command() {
    assert!(matches!(poll_step(CommandState::Succeeded, &None), PollStep::Done));
    assert!(matches!(poll_step(CommandState::Running, &None), PollStep::Wait));
    assert!(matches!(poll_step(CommandState::Accepted, &None), PollStep::Wait));
    match poll_step(CommandState::Failed, &Some("boom".into())) {
        PollStep::Failed(t) => assert_eq!(t, "命令未成功：boom"),
        _ => panic!("a failed command fails"),
    }
    match poll_step(CommandState::Rejected, &None) {
        PollStep::Failed(t) => assert_eq!(t, "命令未成功：command_failed"),
        _ => panic!("a rejected command fails"),
    }
    assert_eq!(timeout_text(), "应答超时（10s 未收到 daemon 确认）");
}

#[test]
fn snapshots_are_not_asked_for_forever() {
    let mut r = BootstrapRetry::new();
    for _ in 0..119 {
        assert_eq!(r.failed("404".into(), true), None);
    }
    assert_eq!(
        r.failed("404".into(), true).as_deref(),
        Some("bootstrap: 会话未在预期时间内物化（最后一次：404）")
    );
    let mut r = BootstrapRetry::new();
    assert_eq!(r.failed("500".into(), false).as_deref(), Some("500"));
}
