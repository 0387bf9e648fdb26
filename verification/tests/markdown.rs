use qaqh_tui::estimates::estimate_block_lines;
use qaqh_tui::highlight::Highlighter;
use qaqh_tui::markdown::render_markdown;
use qaqh_tui::md_detect::is_markdown;
use qaqh_tui::render_line::{wrap_text, RenderLine, RenderStyle, SpanStyle};
use qaqh_tui::render_transcript::render_transcript;
use qaqh_tui::session::SessionState;
use qaqh_tui::timeline::{
    Block, Round, ThinkingStats, TimelineBlockKind, TimelineBlockState, TimelineTurnState, Turn,
};
use std::time::Instant;
use unicode_width::UnicodeWidthChar;

fn line_width(l: &RenderLine) -> usize {
    l.spans
        .iter()
        .map(|s| s.text.chars().map(|c| UnicodeWidthChar::width(c).unwrap_or(0)).sum::<usize>())
        .sum()
}

#[test]
fn detects_markdown() {
    assert!(is_markdown("# hi"));
    assert!(is_markdown("**bold**"));
    assert!(is_markdown("| a | b |\n|---|---|"));
    assert!(!is_markdown("hello world"));
}

#[test]
fn wrap_keeps_line_integrity() {
    let hl = Highlighter::new();
    let cases: &[(&str, usize, usize)] = &[
        ("**bold** and *italic* and `code` and plain text", 40, 1),
        ("[text](https://example.com) and more text after", 40, 2),
        ("> quote **bold** inside", 40, 1),
        ("这是**加粗**的一段中文文本内容测试换行", 20, 2),
        ("[a](u1) [b](u2) middle", 40, 1),
    ];
    for (md, w, expect_lines) in cases {
        let lines = render_markdown(&hl, md, *w);
        let content: Vec<&RenderLine> = lines.iter().filter(|l| !l.spans.is_empty()).collect();
        assert_eq!(content.len(), *expect_lines, "md={md:?}");
        for l in &content {
            let dw = line_width(l);
            assert!(dw <= *w, "md={md:?} {dw} > {w}");
        }
    }
    let quote = render_markdown(&hl, "> quote **bold** inside", 40);
    let text: String =
        quote.iter().flat_map(|l| l.spans.iter().map(|s| s.text.as_str())).collect();
    assert!(text.starts_with("▎ quote bold inside"), "got: {text:?}");
}

#[test]
fn wrap_handles_hardbreak_and_list() {
    let hl = Highlighter::new();
    let lines = render_markdown(&hl, "line1  \nline2", 40);
    let content: Vec<&RenderLine> = lines.iter().filter(|l| !l.spans.is_empty()).collect();
    assert_eq!(content.len(), 2);

    let list = render_markdown(&hl, "- first **bold** item text\n- second item", 30);
    let content: Vec<&RenderLine> = list.iter().filter(|l| !l.spans.is_empty()).collect();
    assert_eq!(content.len(), 2);
    let merged: String =
        content.iter().flat_map(|l| l.spans.iter().map(|s| s.text.as_str())).collect();
    assert!(merged.starts_with("• first bold item text"), "got: {merged:?}");
    let dw_map: Vec<usize> = content.iter().map(|l| line_width(l)).collect();
    assert!(dw_map.iter().all(|w| *w <= 30), "got {dw_map:?}");
}

fn has_style(lines: &[RenderLine], style: SpanStyle) -> bool {
    lines.iter().any(|l| l.spans.iter().any(|s| s.style == RenderStyle::Semantic(style)))
}

#[test]
fn renders_heading_and_bold() {
    let hl = Highlighter::new();
    let lines = render_markdown(&hl, "# Title\n\n**bold** and *italic* `code`", 40);
    assert!(has_style(&lines, SpanStyle::MdH1));
    assert!(has_style(&lines, SpanStyle::Bold));
    assert!(has_style(&lines, SpanStyle::MdInlineCode));
}

#[test]
fn renders_table() {
    let hl = Highlighter::new();
    let md = "| a | b |\n|---|---|\n| 1 | 2 |\n| 3 | 4 |";
    let lines = render_markdown(&hl, md, 20);
    assert!(lines.iter().any(|l| l.spans.iter().any(|s| s.text.contains('┌'))));
    assert!(has_style(&lines, SpanStyle::MdTableHead));
}

#[test]
fn renders_code_block() {
    let hl = Highlighter::new();
    let md = "```rs\nfn main() {}\n```";
    let lines = render_markdown(&hl, md, 30);
    assert!(lines
        .iter()
        .any(|l| l.spans.iter().any(|s| matches!(s.style, RenderStyle::Direct(_)))));
    assert!(lines.iter().any(|l| l.spans.iter().any(|s| s.text.contains("fn"))));
}

#[test]
fn perf_baseline() {
    let hl = Highlighter::new();
    let chunk = "# Title\n\n**bold** text with `inline` and [link](https://example.com)\n\n```rs\nfn main() { println!(\"hello\"); }\n```\n\n| a | b | c |\n|---|---|---|\n| 1 | 2 | 3 |\n| 4 | 5 | 6 |\n";
    let md = chunk.repeat(20);
    let start = Instant::now();
    for _ in 0..100 {
        let _ = render_markdown(&hl, &md, 80);
    }
    let elapsed = start.elapsed();
    assert!(elapsed.as_millis() < 2000, "markdown 5k x100 should be <2s, got {:?}", elapsed);

    let big_table =
        (0..50).map(|i| format!("| {} | {} | {} |", i, i * 2, i * 3)).collect::<Vec<_>>().join("\n");
    let md_table = format!("| a | b | c |\n|---|---|---|\n{}", big_table);
    let start = Instant::now();
    let lines = render_markdown(&hl, &md_table, 80);
    assert!(lines.len() < 600);
    assert!(start.elapsed().as_millis() < 500);

    let mut s = String::new();
    let start = Instant::now();
    for i in 0..1000 {
        s.push('a');
        let _ = wrap_text(&format!("{}▌", s), 80);
        if i % 100 == 0 {
            let _ = render_markdown(&hl, &s, 80);
        }
    }
    assert!(start.elapsed().as_millis() < 1000);
}

#[test]
fn perf_cjk_150tps() {
    let hl = Highlighter::new();
    let cjk_tokens = [
        "自动", "压缩", "阈值", "配置", "子代理", "工具", "模型", "思考", "强度", "表格", "代码",
        "高亮", "流式", "批处理", "内存", "控制",
    ];
    let mut s = String::new();
    let start = Instant::now();
    for i in 0..750 {
        s.push_str(cjk_tokens[i % cjk_tokens.len()]);
        let _ = wrap_text(&format!("{}▌", s), 80);
        if i % 150 == 149 {
            let lines = render_markdown(&hl, &s, 80);
            for l in &lines {
                let w = line_width(l);
                assert!(w <= 80, "CJK line width overflow: {} vs 80", w);
            }
            assert!(lines.len() < 500, "CJK 150tps batch should be <500 lines");
        }
    }
    let elapsed = start.elapsed();
    assert!(elapsed.as_millis() < 1000, "CJK 150tps 5s should be <1s, got {:?}", elapsed);
    let cjk_table =
        "| 模型 | 描述 |\n|---|---|\n| 自动压缩 | 阈值配置 |\n| 子代理工具 | 全部工具 |\n";
    let lines = render_markdown(&hl, cjk_table, 40);
    assert!(lines.iter().any(|l| l.spans.iter().any(|sp| sp.text.contains('┌'))));
}

#[test]
fn perf_transcript_400() {
    let hl = Highlighter::new();
    let mut sess = SessionState::new("perf".into());
    let chunk = "# H1\n\nBold **text** `code`  ".repeat(10);
    for i in 0..400 {
        let text = format!("回合 {i} {}", chunk);
        let block = Block {
            block_id: format!("b{i}"),
            block_order: 0,
            kind: TimelineBlockKind::Text,
            state: TimelineBlockState::Sealed,
            text,
            tool: None,
            last_fragment: 0,
            rev: 1,
        };
        let round = Round { round_num: 0, sealed: true, is_final: true, blocks: vec![block] };
        let turn = Turn {
            turn_id: format!("t{i}"),
            turn_index: Some(i as u64),
            user_text: format!("user {i}"),
            state: TimelineTurnState::Completed,
            failure: None,
            sealed: true,
            offloaded: false,
            thinking: ThinkingStats { segments: 0, lines: 0 },
            rounds: vec![round],
        };
        sess.timeline.turns.push(turn);
    }
    let start = Instant::now();
    let lines = render_transcript(&hl, &sess, 80, 0);
    let elapsed = start.elapsed();
    assert!(lines.len() < 40000, "400 turns should be <40000 lines, got {}", lines.len());
    assert!(elapsed.as_millis() < 500, "400 turns render should be <500ms, got {:?}", elapsed);
    let start = Instant::now();
    for _ in 0..100 {
        let _ = render_transcript(&hl, &sess, 80, 0);
    }
    assert!(start.elapsed().as_millis() < 5000, "{:?}", start.elapsed());
}

fn text_block(text: &str) -> Block {
    Block {
        block_id: "b".into(),
        block_order: 0,
        kind: TimelineBlockKind::Text,
        state: TimelineBlockState::Sealed,
        text: text.into(),
        tool: None,
        last_fragment: 0,
        rev: 1,
    }
}

#[test]
fn estimates_are_conservative_vs_wrap_text() {
    let long_cjk = "一".repeat(200);
    for text in ["短", "hello world foo", long_cjk.as_str(), "a\nb"] {
        for width in [20usize, 40, 80] {
            let est = estimate_block_lines(&text_block(text), width);
            let real = wrap_text(text, width).len();
            assert!(
                est >= real.saturating_sub(1) && est <= real + 1,
                "text={text:?} w={width}: est={est} real={real}"
            );
        }
    }
}
