use qaqh_tui::highlight::Highlighter;
use qaqh_tui::render_line::RenderLine;
use qaqh_tui::render_transcript::{render_transcript, render_transcript_with_opts};
use qaqh_tui::session::SessionState;
use qaqh_tui::timeline::{
    Block, Round, ThinkingStats, TimelineBlockKind, TimelineBlockState, TimelineFailure,
    TimelinePathOp, TimelineToolBody, TimelineToolDisplay, TimelineToolHeader,
    TimelineToolMetrics, TimelineToolState, TimelineTurnState, ToolCard, Turn,
};
use qaqh_tui::tool_card::{
    extract_shell_output_text, format_args_preview, is_panel_owned_tool, push_tool_card,
    PROGRESS_TRUNCATED_MARK,
};
use qaqh_tui::tool_diff::parse_hunk_header;

fn test_display(summary: Option<&str>, body: Option<TimelineToolBody>) -> TimelineToolDisplay {
    TimelineToolDisplay { summary: summary.map(str::to_string), header: None, body, metrics: None }
}

fn flatten(lines: &[RenderLine]) -> String {
    lines
        .iter()
        .flat_map(|l| l.spans.iter().map(|s| s.text.clone()))
        .collect::<Vec<_>>()
        .join("\n")
}

fn turn_with_offload(offloaded: bool) -> SessionState {
    let mut sess = SessionState::new("seed-1".into());
    sess.timeline.turns.push(Turn {
        thinking: ThinkingStats { segments: 0, lines: 0 },
        turn_index: None,
        turn_id: "t1".into(),
        user_text: "hi".into(),
        state: TimelineTurnState::Completed,
        failure: None,
        sealed: true,
        offloaded,
        rounds: Vec::new(),
    });
    sess
}

#[test]
fn offloaded_turn_is_marked_as_preview() {
    let flat = flatten(&render_transcript(&Highlighter::new(), &turn_with_offload(true), 100, 0));
    assert!(flat.contains("已归档"));
    assert!(flat.contains("预览"));
}

#[test]
fn normal_turn_has_no_preview_warning() {
    let flat = flatten(&render_transcript(&Highlighter::new(), &turn_with_offload(false), 100, 0));
    assert!(!flat.contains("已归档"));
}

#[test]
fn ask_result_json_is_not_dumped() {
    let ask = ToolCard {
        tool_call_id: "c-ask".into(),
        name: "ask".into(),
        state: TimelineToolState::Succeeded,
        summary: None,
        args_json: Some(r#"{"questions":[{"id":"q1","question":"想做什么"}]}"#.into()),
        output: Some(
            r#"{"status":"ok","data":{"answers":[{"question_id":"q1","answer":"其他"}]}}"#
                .into(),
        ),
        diff: None,
        progress: String::new(),
        progress_truncated: false,
        progress_bytes_total: 0,
        progress_stream: None,
        failure: None,
        permission: None,
        display: None,
    };
    let mut lines = Vec::new();
    push_tool_card(&mut lines, &ask, 100, 0);
    let flat: String = lines
        .iter()
        .flat_map(|l| l.spans.iter().map(|s| s.text.clone()))
        .collect::<Vec<_>>()
        .join("\n");
    assert!(flat.contains("ask"));
    assert!(flat.contains("已回答"));
    assert!(!flat.contains("\"status\""));
    assert!(!flat.contains("question_id"));
    assert!(!flat.contains("F7"));
}

#[test]
fn todo_result_json_is_not_dumped() {
    for name in ["todo_write", "todo_update", "todo_list"] {
        let todo = ToolCard {
            tool_call_id: "c-todo".into(),
            name: name.into(),
            state: TimelineToolState::Succeeded,
            summary: None,
            args_json: Some(r#"{"items":[{"title":"分析项目"}]}"#.into()),
            output: Some(
                r#"{"timeis":"UTC+8 2026-09-09 00:00","status":"ok","created":[],"count":1,"message":"Created 1 todo(s): T1"}"#
                    .into(),
            ),
            diff: None,
            progress: String::new(),
            progress_truncated: false,
            progress_bytes_total: 0,
            progress_stream: None,
            failure: None,
            permission: None,
        display: None,
        };
        let mut lines = Vec::new();
        push_tool_card(&mut lines, &todo, 100, 0);
        let flat: String = lines
            .iter()
            .flat_map(|l| l.spans.iter().map(|s| s.text.clone()))
            .collect::<Vec<_>>()
            .join("\n");
        assert!(flat.contains(name));
        assert!(!flat.contains("\"status\""));
        assert!(!flat.contains("timeis"));
        assert!(!flat.contains("F7"));
    }
}

#[test]
fn skills_result_json_is_not_dumped() {
    let skills = ToolCard {
        tool_call_id: "c-skills".into(),
        name: "skills".into(),
        state: TimelineToolState::Succeeded,
        summary: None,
        args_json: Some(r#"{"action":"activate","name":"foo"}"#.into()),
        output: Some(
            r#"{"status":"ok","skill":"foo","resources":["a.md"],"content":"[OK] skill 'foo' activated."}"#
                .into(),
        ),
        diff: None,
        progress: String::new(),
        progress_truncated: false,
        progress_bytes_total: 0,
        progress_stream: None,
        failure: None,
        permission: None,
    display: None,
    };
    let mut lines = Vec::new();
    push_tool_card(&mut lines, &skills, 100, 0);
    let flat: String = lines
        .iter()
        .flat_map(|l| l.spans.iter().map(|s| s.text.clone()))
        .collect::<Vec<_>>()
        .join("\n");
    assert!(flat.contains("skills"));
    assert!(flat.contains("已载入"));
    assert!(!flat.contains("\"resources\""));
}

#[test]
fn spawn_subagent_result_json_is_not_dumped() {
    let spawn = ToolCard {
        tool_call_id: "c-spawn".into(),
        name: "spawn_subagent".into(),
        state: TimelineToolState::Succeeded,
        summary: None,
        args_json: Some(r#"{"agent_name":"explore"}"#.into()),
        output: Some(r#"{"status":"ok","seed":"abc-123","process_id":42}"#.into()),
        diff: None,
        progress: String::new(),
        progress_truncated: false,
        progress_bytes_total: 0,
        progress_stream: None,
        failure: None,
        permission: None,
        display: None,
    };
    let mut lines = Vec::new();
    push_tool_card(&mut lines, &spawn, 100, 0);
    let flat: String = lines
        .iter()
        .flat_map(|l| l.spans.iter().map(|s| s.text.clone()))
        .collect::<Vec<_>>()
        .join("\n");
    assert!(flat.contains("spawn_subagent"));
    assert!(flat.contains("已派发"));
    assert!(!flat.contains("abc-123"));
}

#[test]
fn panel_owned_tool_failure_still_rendered() {
    let failed = ToolCard {
        tool_call_id: "c-todo-fail".into(),
        name: "todo".into(),
        state: TimelineToolState::Failed,
        summary: None,
        args_json: None,
        output: Some(r#"{"status":"error"}"#.into()),
        diff: None,
        progress: String::new(),
        progress_truncated: false,
        progress_bytes_total: 0,
        progress_stream: None,
        failure: Some(TimelineFailure {
            code: "invalid_input".into(),
            message: "items 为空".into(),
        }),
        permission: None,
        display: None,
    };
    let mut lines = Vec::new();
    push_tool_card(&mut lines, &failed, 100, 0);
    let flat: String = lines
        .iter()
        .flat_map(|l| l.spans.iter().map(|s| s.text.clone()))
        .collect::<Vec<_>>()
        .join("\n");
    assert!(flat.contains("invalid_input"));
    assert!(flat.contains("items 为空"));
}

#[test]
fn non_panel_tools_still_render_output() {
    let read = ToolCard {
        tool_call_id: "c-read2".into(),
        name: "read".into(),
        state: TimelineToolState::Succeeded,
        summary: None,
        args_json: Some(r#"{"filePath":"src/lib.rs"}"#.into()),
        output: Some("fn main() {}\n".into()),
        diff: None,
        progress: String::new(),
        progress_truncated: false,
        progress_bytes_total: 0,
        progress_stream: None,
        failure: None,
        permission: None,
        display: None,
    };
    let mut lines = Vec::new();
    push_tool_card(&mut lines, &read, 100, 0);
    let flat: String = lines
        .iter()
        .flat_map(|l| l.spans.iter().map(|s| s.text.clone()))
        .collect::<Vec<_>>()
        .join("\n");
    assert!(flat.contains("fn main()"));
}

#[test]
fn panel_owned_tool_classification() {

    assert!(is_panel_owned_tool("todo_write"));
    assert!(is_panel_owned_tool("todo_update"));
    assert!(is_panel_owned_tool("todo_list"));
    assert!(is_panel_owned_tool("ask"));
    assert!(is_panel_owned_tool("skills"));

    assert!(is_panel_owned_tool("todo"));

    assert!(!is_panel_owned_tool("exec"));
    assert!(!is_panel_owned_tool("read"));
    assert!(!is_panel_owned_tool("edit"));
    assert!(!is_panel_owned_tool("grep"));
    assert!(!is_panel_owned_tool("glob"));
    assert!(!is_panel_owned_tool("journal"));
    assert!(!is_panel_owned_tool("process"));
    assert!(!is_panel_owned_tool("web_fetch"));
    assert!(!is_panel_owned_tool("apply_patch"));
    assert!(!is_panel_owned_tool("write"));
    assert!(!is_panel_owned_tool("copy_range"));
    assert!(!is_panel_owned_tool("confirm_apply"));
}

#[test]
fn serde_json_map_iteration_order_is_source_order() {
    let v: serde_json::Value = serde_json::from_str(r#"{"zeta":1,"alpha":2,"mid":3}"#).unwrap();
    let keys: Vec<&str> = v.as_object().unwrap().keys().map(String::as_str).collect();
    assert_eq!(keys, ["zeta", "alpha", "mid"]);
}

#[test]
fn format_args_preview_follows_source_key_order() {
    let preview = format_args_preview(r#"{"zeta":"z","alpha":"a","mid":"m"}"#);
    assert_eq!(preview, "[zeta=z, alpha=a, mid=m]");
}

#[test]
fn format_args_preview_truncates_to_first_three_keys_in_source_order() {
    let preview = format_args_preview(r#"{"zeta":"z","alpha":"a","mid":"m","beta":"b"}"#);
    assert_eq!(preview, "[zeta=z, alpha=a, mid=m]");
    assert!(!preview.contains("beta"));
    assert_ne!(preview, "[alpha=a, beta=b, mid=m]");
}

#[test]
fn exec_title_from_display_and_honest_fallback() {
    let mk = |display: Option<TimelineToolDisplay>| ToolCard {
        tool_call_id: "c-exec".into(),
        name: "exec".into(),
        state: TimelineToolState::Succeeded,

        summary: Some(
            r#"{"status":"completed","command":"cargo ...","exit_code":0,"output":""}"#.into(),
        ),
        args_json: Some(r#"{"command":"cargo build"}"#.into()),
        output: Some(r#"{"status":"completed","exit_code":0,"output":"l1"}"#.into()),
        diff: None,
        progress: String::new(),
        progress_truncated: false,
        progress_bytes_total: 0,
        progress_stream: None,
        failure: None,
        permission: None,
        display,
    };
    let d = TimelineToolDisplay {
        summary: None,
        header: Some(TimelineToolHeader::Shell {
            command: "cargo build".into(),
        }),
        body: Some(TimelineToolBody::Shell {
            output: "l1\nl2\nl3".into(),
            exit_code: Some(0),
            truncated: false,
        }),
        metrics: Some(TimelineToolMetrics {
            elapsed_ms: 1500,
            output_bytes: 4096,
        }),
    };
    let mut lines = Vec::new();
    push_tool_card(&mut lines, &mk(Some(d)), 80, 0);
    let flat = flatten(&lines);
    assert!(flat.contains("cargo build"));
    assert!(!flat.contains("status"));
    assert!(flat.contains("1.5s"));
    assert!(flat.contains("4.0 KB"));
    assert!(flat.contains("l1"));

    let mut fallback = mk(None);
    fallback.args_json = None;
    let mut lines = Vec::new();
    push_tool_card(&mut lines, &fallback, 80, 0);
    let flat = flatten(&lines);

    assert!(flat.contains("\nexec\n"));
    assert!(!flat.contains("cargo build"));
}

#[test]
fn panel_owned_tools_consume_display_summary() {
    let mk = |name: &str, summary: &str, body: TimelineToolBody| ToolCard {
        tool_call_id: "c".into(),
        name: name.into(),
        state: TimelineToolState::Succeeded,
        summary: None,
        args_json: None,
        output: None,
        diff: None,
        progress: String::new(),
        progress_truncated: false,
        progress_bytes_total: 0,
        progress_stream: None,
        failure: None,
        permission: None,
        display: Some(TimelineToolDisplay {
            summary: Some(summary.into()),
            header: Some(TimelineToolHeader::Other { label: name.into() }),
            body: Some(body),
            metrics: None,
        }),
    };

    let mut lines = Vec::new();
    push_tool_card(&mut lines, &mk("ask", "asked 2 questions", TimelineToolBody::Empty), 80, 0);
    let flat = flatten(&lines);
    assert!(flat.contains("asked 2 questions"));
    assert!(flat.contains("已回答"));

    let mut lines = Vec::new();
    push_tool_card(&mut lines, &mk(
            "skills",
            "resource · rust-style-guide",
            TimelineToolBody::Text {
                text: "指南全文".into(),
                truncated: false,
            },
        ), 80, 0);
    let flat = flatten(&lines);
    assert!(flat.contains("resource · rust-style-guide"));
    assert!(!flat.contains("指南全文"));
}

#[test]
fn display_path_header_and_text_body() {
    let card = ToolCard {
        tool_call_id: "c-read".into(),
        name: "read".into(),
        state: TimelineToolState::Succeeded,
        summary: None,
        args_json: None,
        output: None,
        diff: None,
        progress: String::new(),
        progress_truncated: false,
        progress_bytes_total: 0,
        progress_stream: None,
        failure: None,
        permission: None,
        display: Some(TimelineToolDisplay {
            summary: Some("42 行".into()),
            header: Some(TimelineToolHeader::Path {
                path: "src/app/mod.rs".into(),
                op: TimelinePathOp::Read,
            }),
            body: Some(TimelineToolBody::Text {
                text: "use ratatui::Frame;".into(),
                truncated: true,
            }),
            metrics: None,
        }),
    };
    let mut lines = Vec::new();
    push_tool_card(&mut lines, &card, 80, 0);
    let flat = flatten(&lines);
    assert!(flat.contains("src/app/mod.rs"));
    assert!(flat.contains("use ratatui::Frame;"));
    assert!(flat.contains("正文已截断"));
}

#[test]
fn hunk_header_parsing() {
    assert_eq!(parse_hunk_header("@@ -1,3 +1,4 @@"), Some((1, 1)));
    assert_eq!(parse_hunk_header("@@ -10 +20 @@"), Some((10, 20)));
    assert_eq!(parse_hunk_header("@@ -0,0 +1 @@"), Some((0, 1)));
    assert!(parse_hunk_header("--- a/file").is_none());
}

#[test]
fn tool_card_renders_inline_and_block() {
    let tool_inline = ToolCard {
        tool_call_id: "c1".into(),
        name: "read".into(),
        state: TimelineToolState::Succeeded,
        summary: Some("ok".into()),
        args_json: Some(r#"{"filePath":"src/lib.rs"}"#.into()),
        output: Some("content".into()),
        diff: None,
        progress: String::new(),
        progress_truncated: false,
        progress_bytes_total: 0,
        progress_stream: None,
        failure: None,
        permission: None,
        display: None,
    };
    let mut lines = Vec::new();
    push_tool_card(&mut lines, &tool_inline, 80, 0);
    assert!(lines
            .iter()
            .any(|l| l.spans.iter().any(|s| s.text.contains("read"))));

    let diff = "--- a/src/lib.rs\n+++ b/src/lib.rs\n@@ -1,2 +1,2 @@\n-old\n+new\n";
    let tool_block = ToolCard {
        tool_call_id: "c2".into(),
        name: "edit".into(),
        state: TimelineToolState::Succeeded,
        summary: None,
        args_json: Some(r#"{"filePath":"src/lib.rs"}"#.into()),
        output: Some("ok".into()),
        diff: Some(diff.into()),
        progress: String::new(),
        progress_truncated: false,
        progress_bytes_total: 0,
        progress_stream: None,
        failure: None,
        permission: None,
        display: None,
    };
    let mut lines2 = Vec::new();
    push_tool_card(&mut lines2, &tool_block, 130, 0);
    assert!(lines2
            .iter()
            .any(|l| l.spans.iter().any(|s| s.text.contains("Δ"))));
    assert!(lines2
            .iter()
            .any(|l| l.spans.iter().any(|s| s.text.contains("split"))));
    let mut lines3 = Vec::new();
    push_tool_card(&mut lines3, &tool_block, 80, 0);
    assert!(lines3
            .iter()
            .any(|l| l.spans.iter().any(|s| s.text.contains("Δ"))));
}

#[test]
fn shell_output_unwrap_and_streaming_slice() {
    let raw = r#"{"status":"completed","command":"bash ...","exit_code":0,"output":"line1\nline2\nline3","truncated":false,"timed_out":false,"cancelled":false}"#;
    let inner = extract_shell_output_text(raw).unwrap();
    assert_eq!(inner, "line1\nline2\nline3");

    let mut long = String::new();
    for i in 1..=20 {
        long.push_str(&format!("line{i}\n"));
    }
    let tool = ToolCard {
        tool_call_id: "c1".into(),
        name: "bash".into(),
        state: TimelineToolState::Running,
        summary: None,
        args_json: None,
        output: Some(raw.to_string()),
        diff: None,
        progress: long.clone(),
        progress_truncated: false,
        progress_bytes_total: 0,
        progress_stream: None,
        failure: None,
        permission: None,
        display: None,
    };
    let mut lines = Vec::new();
    push_tool_card(&mut lines, &tool, 80, 0);

    assert!(lines
            .iter()
            .any(|l| l.spans.iter().any(|s| s.text.contains("line20"))));
    assert!(!lines
            .iter()
            .any(|l| l.spans.iter().any(|s| s.text.contains("\"command\""))));
    assert!(lines
            .iter()
            .any(|l| l.spans.iter().any(|s| s.text.contains("▌"))));
}

fn joined(l: &RenderLine) -> String {
    l.spans.iter().map(|s| s.text.as_str()).collect()
}

fn streaming_bash_card(id: &str, truncated: bool) -> ToolCard {
    let mut progress = String::new();
    for i in 1..=20 {
        progress.push_str(&format!("line{i}\n"));
    }
    ToolCard {
        tool_call_id: id.into(),
        name: "bash".into(),
        state: TimelineToolState::Running,
        summary: None,
        args_json: None,
        output: None,
        diff: None,
        progress,
        progress_truncated: truncated,
        progress_bytes_total: 0,
        progress_stream: None,
        failure: None,
        permission: None,
        display: None,
    }
}

#[test]
fn truncated_progress_is_marked_per_card() {
    let a = streaming_bash_card("c-trunc-a", true);
    let b = streaming_bash_card("c-trunc-b", true);
    let mut lines = Vec::new();
    push_tool_card(&mut lines, &a, 80, 0);
    push_tool_card(&mut lines, &b, 80, 0);
    let marked = lines
        .iter()
        .filter(|l| joined(l).contains(PROGRESS_TRUNCATED_MARK))
        .count();
    assert_eq!(marked, 2);
}

#[test]
fn truncation_mark_renders_single_glyph() {
    let tool = streaming_bash_card("c-glyph", true);
    let mut lines = Vec::new();
    push_tool_card(&mut lines, &tool, 80, 0);
    let line = lines
        .iter()
        .map(joined)
        .find(|t| t.contains(PROGRESS_TRUNCATED_MARK))
        .expect("a mark");
    assert!(line.contains("◌ 进度前段已丢弃（仅保留末尾）"));
    assert!(!line.contains("◌ ◌"));
}

#[test]
fn truncation_mark_follows_body() {
    let tool = streaming_bash_card("c-order", true);
    let mut lines = Vec::new();
    push_tool_card(&mut lines, &tool, 80, 0);
    let body_idx = lines
        .iter()
        .position(|l| joined(l).contains('▌'))
        .expect("a cursor");
    let mark_idx = lines
        .iter()
        .position(|l| joined(l).contains(PROGRESS_TRUNCATED_MARK))
        .expect("a mark");
    assert!(mark_idx > body_idx);
}

#[test]
fn streaming_cursor_stays_on_last_body_line() {
    let tool = streaming_bash_card("c-cursor", true);
    let mut lines = Vec::new();
    push_tool_card(&mut lines, &tool, 80, 0);
    let idx = lines
        .iter()
        .position(|l| joined(l).contains('▌'))
        .expect("a cursor");
    let text = joined(&lines[idx]);
    assert!(text.contains("line20"));
    assert!(!text.contains("F7") && !text.contains(PROGRESS_TRUNCATED_MARK));
}

#[test]
fn complete_progress_has_no_truncation_mark() {
    let tool = ToolCard {
        tool_call_id: "c-full".into(),
        name: "bash".into(),
        state: TimelineToolState::Running,
        summary: None,
        args_json: None,
        output: None,
        diff: None,
        progress: "line1\nline2\n".into(),
        progress_truncated: false,
        progress_bytes_total: 0,
        progress_stream: None,
        failure: None,
        permission: None,
        display: None,
    };
    let mut lines = Vec::new();
    push_tool_card(&mut lines, &tool, 80, 0);
    let flat = flatten(&lines);
    assert!(!flat.contains(PROGRESS_TRUNCATED_MARK));
}

#[test]
fn finished_shell_output_supersedes_truncated_progress_mark() {
    let raw = r#"{"status":"completed","command":"bash ...","exit_code":0,"output":"full result","truncated":false,"timed_out":false,"cancelled":false}"#;
    let tool = ToolCard {
        tool_call_id: "c-done".into(),
        name: "bash".into(),
        state: TimelineToolState::Succeeded,
        summary: None,
        args_json: None,
        output: Some(raw.to_string()),
        diff: None,
        progress: "tail only\n".into(),
        progress_truncated: true,
        progress_bytes_total: 0,
        progress_stream: None,
        failure: None,
        permission: None,
        display: None,
    };
    let mut lines = Vec::new();
    push_tool_card(&mut lines, &tool, 80, 0);
    let flat = flatten(&lines);
    assert!(flat.contains("full result"));
    assert!(!flat.contains(PROGRESS_TRUNCATED_MARK));
}

#[test]
fn truncated_progress_is_marked_for_non_shell_tool() {
    let tool = ToolCard {
        tool_call_id: "c-read".into(),
        name: "read".into(),
        state: TimelineToolState::Running,
        summary: None,
        args_json: None,
        output: None,
        diff: None,
        progress: "tail of a long stream\n".into(),
        progress_truncated: true,
        progress_bytes_total: 0,
        progress_stream: None,
        failure: None,
        permission: None,
        display: None,
    };
    let mut lines = Vec::new();
    push_tool_card(&mut lines, &tool, 80, 0);
    let flat = flatten(&lines);
    assert!(flat.contains(PROGRESS_TRUNCATED_MARK));
}

#[test]
fn non_shell_truncation_mark_follows_what_is_actually_shown() {
    let long = (1..=30)
        .map(|i| format!("out line {i}"))
        .collect::<Vec<_>>()
        .join("\n");
    let six = (1..=6)
        .map(|i| format!("out line {i}"))
        .collect::<Vec<_>>()
        .join("\n");
    let cases: [(&str, &str, bool); 4] = [
        (long.as_str(), "tail only\n", true),
        (six.as_str(), "tail only\n", true),
        ("short output", "tail only\n", true),
        (long.as_str(), "", false),
    ];
    for (output, progress, expect_mark) in cases {
        let tool = ToolCard {
            tool_call_id: "c-read-gate".into(),
            name: "read".into(),
            state: TimelineToolState::Succeeded,
            summary: None,
            args_json: None,
            output: Some(output.to_string()),
            diff: None,
            progress: progress.into(),
            progress_truncated: true,
            progress_bytes_total: 0,
            progress_stream: None,
            failure: None,
            permission: None,
            display: None,
        };
        let mut lines = Vec::new();
        push_tool_card(&mut lines, &tool, 80, 0);
        let flat = flatten(&lines);
        assert_eq!(flat.contains(PROGRESS_TRUNCATED_MARK), expect_mark);
    }
}

#[test]
fn turn_header_shows_thinking_aggregate() {
    let mut sess = SessionState::new("s".into());
    let t = Turn {
        turn_id: "t1".into(),
        turn_index: None,
        user_text: "问".into(),
        state: TimelineTurnState::Completed,
        failure: None,
        sealed: true,
        offloaded: false,
        thinking: ThinkingStats {
            segments: 6,
            lines: 412,
        },
        rounds: Vec::new(),
    };
    sess.timeline.turns.push(t);
    let lines = render_transcript_with_opts(&Highlighter::new(), &sess, 80, 0);
    let header: String = lines[0].spans.iter().map(|s| s.text.as_str()).collect();
    assert!(header.contains("思考 6 段/412 行"));
}

#[test]
fn shell_done_shows_unwrapped_tail_and_no_stderr_prefix() {
    let raw = r#"{"status":"completed","command":"bash ...","exit_code":1,"output":"out line\nerr line","truncated":false,"timed_out":false,"cancelled":false}"#;
    let tool = ToolCard {
        tool_call_id: "c2".into(),
        name: "bash".into(),
        state: TimelineToolState::Failed,
        summary: None,
        args_json: None,
        output: Some(raw.to_string()),
        diff: None,
        progress: String::new(),
        progress_truncated: false,
        progress_bytes_total: 0,
        progress_stream: None,
        failure: None,
        permission: None,
        display: None,
    };
    let mut lines = Vec::new();
    push_tool_card(&mut lines, &tool, 80, 0);
    let flat: String = lines
        .iter()
        .flat_map(|l| l.spans.iter().map(|s| s.text.clone()))
        .collect::<Vec<_>>()
        .join("\n");
    assert!(flat.contains("out line"));
    assert!(flat.contains("err line"));
    assert!(!flat.contains("[stderr]"));
    assert!(!flat.contains("\"status\""));
}

#[test]
fn streams_body_keeps_stdout_and_stderr_distinguishable() {
    let tool = ToolCard {
        tool_call_id: "c-streams".into(),
        name: "bash".into(),
        state: TimelineToolState::Failed,
        summary: None,
        args_json: None,
        output: None,
        diff: None,
        progress: String::new(),
        progress_truncated: false,
        progress_bytes_total: 0,
        progress_stream: None,
        failure: None,
        permission: None,
        display: Some(test_display(
            None,
            Some(TimelineToolBody::Streams {
                stdout: "out line".into(),
                stderr: "err line".into(),
                exit_code: Some(1),
                truncated: false,
                interleaved: false,
            }),
        )),
    };
    let mut lines = Vec::new();
    push_tool_card(&mut lines, &tool, 80, 0);
    let flat: String = lines
        .iter()
        .flat_map(|l| l.spans.iter().map(|s| s.text.clone()))
        .collect::<Vec<_>>()
        .join("\n");
    let stdout_at = flat.find("stdout:").expect("stdout label");
    let stderr_at = flat.find("stderr:").expect("stderr label");
    assert!(stdout_at < flat.find("out line").expect("stdout body"));
    assert!(stderr_at < flat.find("err line").expect("stderr body"));
    assert!(flat.contains("exit 1"));
}

#[test]
fn tool_body_window_matrix() {
    let card = |rows: usize, state: TimelineToolState| -> ToolCard {
        let out = (1..=rows)
            .map(|i| format!("ROW{i:02}"))
            .collect::<Vec<_>>()
            .join("\n");
        ToolCard {
            tool_call_id: "c-bash".into(),
            name: "bash".into(),
            state,
            summary: None,
            args_json: None,
            output: Some(format!(
                r#"{{"status":"completed","output":{out:?},"exit_code":0}}"#
            )),
            diff: None,
            progress: String::new(),
            progress_truncated: false,
            progress_bytes_total: 0,
            progress_stream: None,
            failure: None,
            permission: None,
            display: None,
        }
    };

    let body = |t: &ToolCard| -> Vec<String> {
        let mut lines = Vec::new();
        push_tool_card(&mut lines, t, 80, 0);
        lines
            .iter()
            .map(|l| l.spans.iter().map(|s| s.text.as_str()).collect::<String>())
            .filter(|r| r.contains('│'))
            .collect()
    };

    let r6 = body(&card(6, TimelineToolState::Succeeded));
    assert_eq!(r6.len(), 6);
    assert!(!r6.iter().any(|r| r.contains("折叠")));

    let r7 = body(&card(7, TimelineToolState::Succeeded));
    assert_eq!(r7.len(), 7);
    assert!(r7[0].contains("ROW01") && r7[1].contains("ROW02") && r7[2].contains("ROW03"));
    assert!(r7[3].contains("…折叠 1 行…"));
    assert!(r7[4].contains("ROW05") && r7[6].contains("ROW07"));

    let r30 = body(&card(30, TimelineToolState::Succeeded));
    assert_eq!(r30.len(), 7);
    assert!(r30[0].contains("ROW01") && r30[2].contains("ROW03"));
    assert!(r30[3].contains("…折叠 24 行…"));
    assert!(r30[4].contains("ROW28") && r30[6].contains("ROW30"));

    for n in [10usize, 100] {
        let r = body(&card(n, TimelineToolState::Running));
        assert_eq!(r.len(), 6);
        assert!(r[5].contains(&format!("ROW{n:02}")));
        assert!(!r.iter().any(|x| x.contains("折叠")));
    }

    let mut lines = Vec::new();
    push_tool_card(&mut lines, &card(30, TimelineToolState::Succeeded), 80, 0);
    let flat: String = lines
        .iter()
        .flat_map(|l| l.spans.iter().map(|s| s.text.as_str()))
        .collect();
    assert!(!flat.contains("F7"));
}

fn sess_with_turns(n: usize) -> SessionState {
    let mut sess = SessionState::new("seg".into());
    for i in 0..n {
        sess.timeline.turns.push(Turn {
            thinking: ThinkingStats { segments: 0, lines: 0 },
            turn_index: None,
            turn_id: format!("t{i}"),
            user_text: format!("问题 {i}"),
            state: TimelineTurnState::Completed,
            failure: None,
            sealed: true,
            offloaded: false,
            rounds: vec![Round {
                round_num: 0,
                sealed: true,
                is_final: true,
                blocks: vec![Block {
                    block_id: format!("b{i}"),
                    block_order: 0,
                    kind: TimelineBlockKind::Text,
                    state: TimelineBlockState::Sealed,
                    text: format!("回答 {i} 的正文"),
                    tool: None,
                    last_fragment: 0,
                    rev: 1,
                }],
            }],
        });
    }
    sess
}

#[test]
fn turn_number_is_stable_across_cap() {
    let mut sess = sess_with_turns(20);

    let before = sess.timeline.turn_number(5);
    sess.timeline.cap_turns(15);
    assert_eq!(sess.timeline.dropped_turns, 5);

    assert_eq!(sess.timeline.turn_number(0), before);

    assert!(sess.timeline.turn_total() >= before);
}
