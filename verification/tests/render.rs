use qaqh_tui::anim::{anim_glyph, spinner_glyph, thinking_glyph, AnimKind, AnimSlot};
use qaqh_tui::highlight::Highlighter;
use qaqh_tui::refresh::refresh;
use qaqh_tui::render_line::RenderLine;
use qaqh_tui::render_transcript::{render_banner, render_transcript_with_opts};
use qaqh_tui::seg::{
    block_cache_key, turn_struct_key, BlockBody, BlockSeg, TranscriptCache, TurnSeg, ViewportSlot,
    KEEP_MARGIN_TURNS,
};
use qaqh_tui::session::{Scroll, SessionState};
use qaqh_tui::timeline::{
    Block, Round, ThinkingStats, TimelineBlockKind, TimelineBlockState, TimelineFailure,
    TimelineToolBody, TimelineToolDisplay, TimelineToolState, TimelineTurnState, ToolCard, Turn,
};
use qaqh_tui::viewport::{place_slots, viewport_top, Area};
use ratatui::layout::Rect;
use ratatui::widgets::{Paragraph, Widget};
use unicode_width::{UnicodeWidthChar, UnicodeWidthStr};

fn test_display(summary: Option<&str>, body: Option<TimelineToolBody>) -> TimelineToolDisplay {
    TimelineToolDisplay { summary: summary.map(str::to_string), header: None, body, metrics: None }
}

fn apply_anim_slots(
    buf: &mut ratatui::buffer::Buffer,
    area: Rect,
    slots: &Vec<ViewportSlot>,
    frame: u64,
) {
    let area = Area { x: area.x, y: area.y, width: area.width, height: area.height };
    for g in place_slots(area, slots, frame) {
        buf[(g.x, g.y)].set_symbol(g.glyph);
    }
}


fn blk(
    id: &str,
    order: u32,
    kind: TimelineBlockKind,
    state: TimelineBlockState,
    text: &str,
) -> Block {
    Block {
        block_id: id.to_string(),
        block_order: order,
        kind,
        state,
        text: text.to_string(),
        tool: None,
        last_fragment: 0,
        rev: 1,
    }
}

fn tool_blk(id: &str, order: u32, tool_state: TimelineToolState) -> Block {
    Block {
        block_id: id.to_string(),
        block_order: order,
        kind: TimelineBlockKind::Tool,
        state: TimelineBlockState::Sealed,
        text: String::new(),
        tool: Some(ToolCard {
            tool_call_id: id.to_string(),
            name: "bash".to_string(),
            state: tool_state,
            summary: Some("ls -la".to_string()),
            args_json: None,
            output: Some("total 0".to_string()),
            diff: None,
            progress: String::new(),
            progress_truncated: false,
            progress_bytes_total: 0,
            progress_stream: None,
            failure: None,
            permission: None,
            display: None,
        }),
        last_fragment: 0,
        rev: 1,
    }
}

fn turn_of(
    id: &str,
    user: &str,
    state: TimelineTurnState,
    failure: Option<TimelineFailure>,
    offloaded: bool,
    blocks: Vec<Block>,
) -> Turn {
    Turn {
        thinking: ThinkingStats { segments: 0, lines: 0 },
        turn_id: id.to_string(),
        turn_index: None,
        user_text: user.to_string(),
        state,
        failure,
        sealed: state != TimelineTurnState::Running,
        offloaded,
        rounds: vec![Round {
            round_num: 0,
            sealed: true,
            is_final: false,
            blocks,
        }],
    }
}

fn fixture_session() -> SessionState {
    let mut s = SessionState::new("seed".to_string());
    s.timeline.turns.push(turn_of(
        "t1",
        "你好世界",
        TimelineTurnState::Completed,
        None,
        false,
        vec![
            blk(
                "b1",
                0,
                TimelineBlockKind::Text,
                TimelineBlockState::Sealed,
                "普通回答",
            ),
            blk(
                "b2",
                1,
                TimelineBlockKind::Notice,
                TimelineBlockState::Sealed,
                "一条通知",
            ),
            tool_blk("b3", 2, TimelineToolState::Succeeded),
            blk(
                "b4",
                3,
                TimelineBlockKind::Reasoning,
                TimelineBlockState::Sealed,
                "想一想再答",
            ),
        ],
    ));
    s.timeline.turns.push(turn_of(
        "t2",
        "流式回合",
        TimelineTurnState::Running,
        None,
        false,
        vec![
            blk(
                "b5",
                0,
                TimelineBlockKind::Text,
                TimelineBlockState::Open,
                "正在生成",
            ),
            tool_blk("b6", 1, TimelineToolState::Running),
        ],
    ));
    s.timeline.turns.push(turn_of(
        "t3",
        "",
        TimelineTurnState::Failed,
        Some(TimelineFailure {
            code: "boom".to_string(),
            message: "炸了".to_string(),
        }),
        true,
        vec![],
    ));
    s
}

fn flatten(lines: &[&RenderLine]) -> String {
    lines
        .iter()
        .map(|l| l.spans.iter().map(|s| s.text.as_str()).collect::<String>())
        .collect::<Vec<_>>()
        .join("\n")
}

fn block<'a>(sess: &'a mut SessionState, turn_id: &str, block_id: &str) -> &'a mut Block {
    sess.timeline
        .turns
        .iter_mut()
        .find(|t| t.turn_id == turn_id)
        .expect("turn")
        .rounds
        .iter_mut()
        .flat_map(|r| r.blocks.iter_mut())
        .find(|b| b.block_id == block_id)
        .expect("block")
}

fn flatten_with_anim(cache: &TranscriptCache, frame: u64) -> Vec<RenderLine> {
    let mut lines: Vec<RenderLine> =
        cache.flatten_lines().iter().map(|l| (*l).clone()).collect();
    let mut start = 0usize;
    let blocks = cache
        .banner
        .iter()
        .chain(cache.turns.iter().flat_map(|t| {
            std::iter::once(&t.pre)
                .chain(t.content.iter())
                .chain(std::iter::once(&t.post))
        }))
        .chain(cache.empty.iter());
    for seg in blocks {
        let h = seg.body.height();
        for slot in &seg.anim {
            let glyph = match slot.kind {
                AnimKind::Spinner => spinner_glyph(frame),
                AnimKind::Thinking => thinking_glyph(frame),
                AnimKind::Cursor => "▌",
                AnimKind::ProgressIndeterminate => continue,
            };
            let row = start + slot.row as usize;
            write_glyph_at(&mut lines[row], slot.col as usize, glyph);
        }
        start += h;
    }
    lines
}

fn write_glyph_at(line: &mut RenderLine, col: usize, glyph: &str) {
    let mut acc = 0usize;
    for span in &mut line.spans {
        let w = span.text.width();
        if col >= acc + w {
            acc += w;
            continue;
        }
        let target = col - acc;
        let mut cur = 0usize;
        let mut out = String::with_capacity(span.text.len() + glyph.len());
        let mut replaced = false;
        for ch in span.text.chars() {
            let cw = ch.width().unwrap_or(0);
            if !replaced && cur == target {
                out.push_str(glyph);
                replaced = true;
            } else {
                out.push(ch);
            }
            cur += cw;
        }
        assert!(replaced);
        span.text = out;
        return;
    }
    panic!("column {col} is past {acc}");
}

fn cell_at(line: &RenderLine, col: usize) -> (char, usize) {
    let mut acc = 0usize;
    for span in &line.spans {
        for ch in span.text.chars() {
            let w = ch.width().unwrap_or(0);
            if acc == col {
                return (ch, w);
            }
            acc += w;
        }
    }
    panic!("column {col} is past {acc}");
}

fn draw_cache_to_buf(cache: &TranscriptCache, width: u16) -> (ratatui::buffer::Buffer, Rect) {
    let total = cache.total_lines();
    let area = Rect::new(0, 0, width, total as u16);
    let mut buf = ratatui::buffer::Buffer::empty(area);
    let rat: Vec<ratatui::text::Line> = cache
        .flatten_lines()
        .iter()
        .map(|rl| {
            ratatui::text::Line::from(
                rl.spans
                    .iter()
                    .map(|s| ratatui::text::Span::raw(s.text.clone()))
                    .collect::<Vec<_>>(),
            )
        })
        .collect();
    Paragraph::new(rat).render(area, &mut buf);
    (buf, area)
}

#[test]
fn block_cache_matches_full_render() {
    let hl = Highlighter::new();
    let sess = fixture_session();
    let mut cache = TranscriptCache::new(80);
    refresh(&hl, &sess, 80, None, &mut cache);
    let full = render_transcript_with_opts(&hl, &sess, 80, 7);

    assert_eq!(flatten(&flatten_with_anim(&cache, 7).iter().collect::<Vec<_>>()), flatten(&full.iter().collect::<Vec<_>>()));

    let empty = SessionState::new("seed".to_string());
    let mut cache2 = TranscriptCache::new(80);
    refresh(&hl, &empty, 80, None, &mut cache2);
    let full_empty = render_transcript_with_opts(&hl, &empty, 80, 7);
    assert_eq!(flatten(&cache2.flatten_lines()), flatten(&full_empty.iter().collect::<Vec<_>>()));
}

fn sweep_fixture(n: usize) -> SessionState {
    let mut s = SessionState::new("seed".to_string());
    for i in 0..n {
        let blocks = match i % 4 {
            0 => vec![blk(
                &format!("b{i}"),
                0,
                TimelineBlockKind::Text,
                TimelineBlockState::Sealed,
                "第一行\n第二行\n第三行",
            )],
            1 => vec![
                blk(
                    &format!("b{i}"),
                    0,
                    TimelineBlockKind::Text,
                    TimelineBlockState::Sealed,
                    "```rust\nfn main() {}\n```",
                ),
                tool_blk(&format!("b{i}t"), 1, TimelineToolState::Succeeded),
            ],
            2 => vec![tool_blk(&format!("b{i}t"), 0, TimelineToolState::Failed)],
            _ => vec![blk(
                &format!("b{i}"),
                0,
                TimelineBlockKind::Text,
                TimelineBlockState::Sealed,
                "这一行特别长用来测 CJK 宽字符在窄视口下的折行行为是否与全量渲染一致存在差异",
            )],
        };
        let offloaded = i % 7 == 6;
        s.timeline.turns.push(turn_of(
            &format!("t{i}"),
            &format!("问题 {i}"),
            TimelineTurnState::Completed,
            None,
            offloaded,
            blocks,
        ));
    }
    s
}

#[test]
fn window_never_contains_unrendered_segments() {
    let hl = Highlighter::new();
    let sess = sweep_fixture(120);
    let full = render_transcript_with_opts(&hl, &sess, 80, 0);
    let full_flat: Vec<String> = full.iter().map(|l| flatten(&[l])).collect();

    let mut cache = TranscriptCache::new(80);
    refresh(&hl, &sess, 80, None, &mut cache);
    let total = cache.total_lines();
    assert_eq!(total, full_flat.len());

    let height = 30usize;
    let mut top = total.saturating_sub(height);
    let mut checked = 0usize;
    loop {
        refresh(&hl, &sess, 80, Some((top, height)), &mut cache);
        assert_eq!(cache.total_lines(), total);
        let win = cache.window(top, height);
        assert!(!win.is_empty() || top >= total);
        for (i, line) in win.iter().enumerate() {
            assert_eq!(flatten(&[*line]), full_flat[top + i]);
        }
        checked += 1;
        if top == 0 {
            break;
        }
        top = top.saturating_sub(height);
        assert!(checked <= 200);
    }
    assert!(checked > 1);
}

#[test]
fn first_frame_estimate_matches_full_render() {
    let hl = Highlighter::new();
    let sess = sweep_fixture(120);
    let mut exact = TranscriptCache::new(80);
    refresh(&hl, &sess, 80, None, &mut exact);
    let exact_total = exact.total_lines();

    let mut fresh = TranscriptCache::new(80);
    let top = viewport_top(0, 30, Scroll { follow: true, offset: 0 });
    refresh(&hl, &sess, 80, Some((top, 30)), &mut fresh);

    let mut drift = [0i64; 4];
    for i in 0..120usize {
        drift[i % 4] += fresh.turns[i].height() as i64 - exact.turns[i].height() as i64;
    }
    assert_eq!(drift[0], 0);
    assert_eq!(drift[2], 0);
    assert_eq!(drift[3], 0);

    assert!((0..=30).contains(&drift[1]));

    let total = fresh.total_lines();
    assert!(total >= exact_total && total <= exact_total + 30);
}

#[test]
fn streaming_delta_renders_single_block() {
    let hl = Highlighter::new();
    let mut sess = fixture_session();
    let mut cache = TranscriptCache::new(80);
    refresh(&hl, &sess, 80, None, &mut cache);

    let a_before = cache
        .turns
        .iter()
        .find(|t| t.turn_id == "t1")
        .expect("t1")
        .content[0]
        .body
        .lines()
        .expect("lines")
        .clone();

    for i in 0..10u64 {
        let b = block(&mut sess, "t2", "b5");
        b.text.push('x');
        b.rev += 1;
        let stats = refresh(&hl, &sess, 80, None, &mut cache);
        assert_eq!(stats.rebuilt_blocks, 1);
    }
    let a_after = cache
        .turns
        .iter()
        .find(|t| t.turn_id == "t1")
        .expect("t1")
        .content[0]
        .body
        .lines()
        .expect("lines")
        .clone();
    assert!(std::sync::Arc::ptr_eq(&a_before, &a_after));
}

#[test]
fn anim_frame_triggers_zero_rebuild() {
    let hl = Highlighter::new();
    let sess = fixture_session();
    let mut cache = TranscriptCache::new(80);
    refresh(&hl, &sess, 80, None, &mut cache);
    let stats = refresh(&hl, &sess, 80, None, &mut cache);
    assert_eq!(stats.rebuilt_blocks, 0);
}

#[test]
fn block_state_change_invalidates_key() {
    let hl = Highlighter::new();
    let mut b = blk(
        "b",
        0,
        TimelineBlockKind::Text,
        TimelineBlockState::Open,
        "x",
    );
    let k_open = block_cache_key(&b, 80);
    b.state = TimelineBlockState::Sealed;
    assert_ne!(block_cache_key(&b, 80), k_open);

    let k0 = block_cache_key(&b, 80);
    b.rev += 1;
    assert_ne!(block_cache_key(&b, 80), k0);
    assert_ne!(block_cache_key(&b, 100), k0);

    let mut sess = fixture_session();
    let mut cache = TranscriptCache::new(80);
    refresh(&hl, &sess, 80, None, &mut cache);
    block(&mut sess, "t2", "b5").state = TimelineBlockState::Sealed;
    let stats = refresh(&hl, &sess, 80, None, &mut cache);
    assert_eq!(stats.rebuilt_blocks, 1);
}

#[test]
fn streamed_block_equals_one_shot() {
    let hl = Highlighter::new();

    let mut sx = SessionState::new("seed".to_string());
    sx.timeline.turns.push(turn_of(
        "t1",
        "u",
        TimelineTurnState::Completed,
        None,
        false,
        vec![blk(
            "b1",
            0,
            TimelineBlockKind::Text,
            TimelineBlockState::Open,
            "wor",
        )],
    ));
    let mut cx = TranscriptCache::new(80);
    refresh(&hl, &sx, 80, None, &mut cx);
    for d in ["ld", "!"] {
        let b = block(&mut sx, "t1", "b1");
        b.text.push_str(d);
        b.rev += 1;
        refresh(&hl, &sx, 80, None, &mut cx);
    }
    block(&mut sx, "t1", "b1").state = TimelineBlockState::Sealed;
    refresh(&hl, &sx, 80, None, &mut cx);

    let mut sy = SessionState::new("seed".to_string());
    sy.timeline.turns.push(turn_of(
        "t1",
        "u",
        TimelineTurnState::Completed,
        None,
        false,
        vec![blk(
            "b1",
            0,
            TimelineBlockKind::Text,
            TimelineBlockState::Sealed,
            "world!",
        )],
    ));
    let mut cy = TranscriptCache::new(80);
    refresh(&hl, &sy, 80, None, &mut cy);

    let lx = flatten(
        &cx.turns[0].content[0]
            .body
            .lines()
            .expect("lines")
            .iter()
            .collect::<Vec<_>>(),
    );
    let ly = flatten(
        &cy.turns[0].content[0]
            .body
            .lines()
            .expect("lines")
            .iter()
            .collect::<Vec<_>>(),
    );
    assert_eq!(lx, ly);
}

#[test]
fn offscreen_eviction_counts_blocks() {
    let hl = Highlighter::new();
    let mut sess = SessionState::new("seed".to_string());
    for i in 0..20 {
        sess.timeline.turns.push(turn_of(
            &format!("t{i}"),
            &format!("输入 {i}"),
            TimelineTurnState::Completed,
            None,
            false,
            vec![blk(
                &format!("b{i}"),
                0,
                TimelineBlockKind::Text,
                TimelineBlockState::Sealed,
                &format!("内容 {i}\n第二行"),
            )],
        ));
    }
    let full = render_transcript_with_opts(&hl, &sess, 80, 0);
    let mut cache = TranscriptCache::new(80);
    refresh(&hl, &sess, 80, None, &mut cache);
    let total = cache.total_lines();
    assert_eq!(total, full.len());
    let all_blocks = 20 * 3;
    assert_eq!(cache.stats.resident_blocks, all_blocks);

    let height = 10usize;
    let top = total - height;
    refresh(&hl, &sess, 80, Some((top, height)), &mut cache);
    assert_eq!(cache.total_lines(), total);
    assert!(cache.stats.resident_blocks < all_blocks);
    assert!(cache.stats.resident_blocks <= (2 * KEEP_MARGIN_TURNS + 1) * 3 + 2);

    let win = cache.window(top, height);
    assert_eq!(win.len(), height);
    for (i, l) in win.iter().enumerate() {
        assert_eq!(flatten(&[*l]), flatten(&[&full[top + i]]));
    }

    let stats_top = refresh(&hl, &sess, 80, Some((0, height)), &mut cache);
    assert!(stats_top.rebuilt_blocks > 0);
    let win_top = cache.window(0, height);
    for (i, l) in win_top.iter().enumerate() {
        assert_eq!(flatten(&[*l]), flatten(&[&full[i]]));
    }
}

#[test]
fn anim_slot_never_splits_wide_char() {
    let hl = Highlighter::new();
    let mut sess = SessionState::new("seed".to_string());

    let mut inline = tool_blk("b1", 0, TimelineToolState::Running);
    let t = inline.tool.as_mut().expect("tool");
    t.name = "压缩".to_string();
    t.summary = Some("进行中清单".to_string());

    let mut block = tool_blk("b2", 1, TimelineToolState::Running);
    block.tool.as_mut().expect("tool").progress = "扫描中…".to_string();

    let streaming = blk(
        "b3",
        2,
        TimelineBlockKind::Text,
        TimelineBlockState::Open,
        "压缩压缩压缩压缩压缩",
    );

    sess.expanded_groups.push(("t1".to_string(), 0));
    sess.timeline.turns.push(turn_of(
        "t1",
        "用户",
        TimelineTurnState::Running,
        None,
        false,
        vec![inline, block],
    ));
    sess.timeline.turns.push(turn_of(
        "t2",
        "",
        TimelineTurnState::Running,
        None,
        false,
        vec![streaming],
    ));

    let mut cache = TranscriptCache::new(80);
    refresh(&hl, &sess, 80, None, &mut cache);

    let inline_seg = &cache.turns[0].content[0];
    let block_seg = &cache.turns[0].content[1];
    let text_seg = &cache.turns[1].content[0];
    assert_eq!(inline_seg.anim, vec![AnimSlot {
            row: 0,
            col: 2,
            kind: AnimKind::Spinner
        }]);
    assert_eq!(block_seg.anim, vec![AnimSlot {
            row: 1,
            col: 3,
            kind: AnimKind::Spinner
        }]);
    assert_eq!(text_seg.anim, vec![AnimSlot {
            row: 0,
            col: 20,
            kind: AnimKind::Cursor
        }]);
    for (seg, row, col) in [
        (inline_seg, 0usize, 2usize),
        (block_seg, 1, 3),
        (text_seg, 0, 20),
    ] {
        let line = seg.body.line(row).expect("a line");
        let (ch, w) = cell_at(line, col);
        assert_eq!((ch, w), (' ', 1));
    }

    let total = cache.total_lines();
    let slots = cache.visible_slots(0, total);
    assert_eq!(slots.len(), 3);
    let (buf, area) = draw_cache_to_buf(&cache, 80);
    let mut buf = buf;

    for s in &slots {
        assert_eq!(buf[(area.x + s.col, area.y + s.row)].symbol(), " ");
    }
    apply_anim_slots(&mut buf, area, &slots, 7);
    for s in &slots {
        let expected = match s.kind {
            AnimKind::Spinner => spinner_glyph(7),
            AnimKind::Cursor => "▌",
            AnimKind::Thinking => thinking_glyph(7),
            AnimKind::ProgressIndeterminate => continue,
        };
        let cell = &buf[(area.x + s.col, area.y + s.row)];
        assert_eq!(cell.symbol(), expected);
    }

    for y in 0..area.height {
        for x in 0..area.width - 1 {
            let cell = &buf[(x, y)];
            if unicode_width::UnicodeWidthStr::width(cell.symbol()) == 2 {
                let next = buf[(x + 1, y)].symbol();
                assert!(next.is_empty() || next == " ");
            }
        }
    }
    let stats = refresh(&hl, &sess, 80, None, &mut cache);
    assert_eq!(stats.rebuilt_blocks, 0);
    let slots1 = cache.visible_slots(0, total);
    let (buf1, area1) = draw_cache_to_buf(&cache, 80);
    let mut buf1 = buf1;
    apply_anim_slots(&mut buf1, area1, &slots1, 1);
    let spin = slots1
        .iter()
        .find(|s| s.kind == AnimKind::Spinner)
        .expect("spinner slot");
    assert_eq!(buf1[(area1.x + spin.col, area1.y + spin.row)].symbol(), spinner_glyph(1));
    assert_ne!(spinner_glyph(1), spinner_glyph(7));
}

#[test]
fn anim_slots_skip_half_visible() {
    let seg = |h: usize, anim: Vec<AnimSlot>| BlockSeg {
        key: 0,
        body: BlockBody::Lines(std::sync::Arc::new((0..h).map(|_| RenderLine::plain("行")).collect())),
        anim,
        stream: None,
    };
    let slot = |row: u16, col: u16, kind: AnimKind| AnimSlot { row, col, kind };

    let mut cache = TranscriptCache::new(80);
    cache.turns.push(TurnSeg {
        turn_id: "t".to_string(),
        struct_key: 0,
        pre: seg(2, vec![slot(0, 79, AnimKind::Spinner)]),
        content: vec![seg(
            5,
            vec![
                slot(1, 80, AnimKind::Spinner),
                slot(4, 3, AnimKind::Cursor),
            ],
        )],
        content_ids: vec!["b".to_string()],
        post: seg(1, vec![slot(0, 0, AnimKind::Cursor)]),
    });

    assert_eq!(cache.visible_slots(0, 4), vec![ViewportSlot {
            row: 0,
            col: 79,
            kind: AnimKind::Spinner
        }]);

    assert!(cache.visible_slots(1, 4).is_empty());

    assert_eq!(cache.visible_slots(6, 2), vec![
            ViewportSlot {
                row: 0,
                col: 3,
                kind: AnimKind::Cursor
            },
            ViewportSlot {
                row: 1,
                col: 0,
                kind: AnimKind::Cursor
            },
        ]);
}

#[test]
fn the_window_with_its_glyphs_is_the_frame() {
    let hl = Highlighter::new();
    let sess = fixture_session();
    let frame = 5;
    let full = render_transcript_with_opts(&hl, &sess, 60, frame);
    let mut cache = TranscriptCache::new(60);
    refresh(&hl, &sess, 60, None, &mut cache);
    let mut seen = 0;
    for top in 0..full.len() - 4 {
        refresh(&hl, &sess, 60, Some((top, 4)), &mut cache);
        let mut lines: Vec<RenderLine> =
            cache.window(top, 4).iter().map(|l| (*l).clone()).collect();
        for slot in cache.visible_slots(top, 4) {
            let glyph = anim_glyph(slot.kind, frame).unwrap();
            write_glyph_at(&mut lines[slot.row as usize], slot.col as usize, glyph);
            seen += 1;
        }
        assert_lines_eq(&lines, &full[top..top + 4], &format!("top {top}"));
    }
    assert!(seen > 0);
}

#[test]
fn eviction_clears_anim_slots() {
    let hl = Highlighter::new();
    let mut sess = SessionState::new("seed".to_string());
    for i in 0..20 {
        let blocks = if i == 0 {
            vec![blk(
                "b0",
                0,
                TimelineBlockKind::Text,
                TimelineBlockState::Open,
                "流式内容",
            )]
        } else {
            vec![blk(
                &format!("b{i}"),
                0,
                TimelineBlockKind::Text,
                TimelineBlockState::Sealed,
                "内容",
            )]
        };
        sess.timeline.turns.push(turn_of(
            &format!("t{i}"),
            "用户",
            TimelineTurnState::Completed,
            None,
            false,
            blocks,
        ));
    }
    let mut cache = TranscriptCache::new(80);
    refresh(&hl, &sess, 80, None, &mut cache);
    assert!(!cache.turns[0].content[0].anim.is_empty());
    assert!(cache.turns[0].content[0].stream.is_some());
    let total = cache.total_lines();
    let height = 10usize;
    refresh(&hl, &sess, 80, Some((total - height, height)), &mut cache);
    assert!(cache.turns[0].content[0].anim.is_empty());
    assert!(cache.turns[0].content[0].stream.is_none());
    assert_eq!(cache.total_lines(), total);
    refresh(&hl, &sess, 80, Some((0, height)), &mut cache);
    assert!(!cache.turns[0].content[0].anim.is_empty());
}

#[test]
fn stream_delta_updates_tail_and_shares_prefix() {
    let hl = Highlighter::new();
    let mut sess = SessionState::new("seed".to_string());
    sess.timeline.turns.push(turn_of(
        "t1",
        "u",
        TimelineTurnState::Running,
        None,
        false,
        vec![blk(
            "b1",
            0,
            TimelineBlockKind::Text,
            TimelineBlockState::Open,
            "hello",
        )],
    ));
    let mut cache = TranscriptCache::new(80);
    refresh(&hl, &sess, 80, None, &mut cache);
    let BlockBody::Streaming { prefix, tail } = &cache.turns[0].content[0].body else {
        panic!("a growing body");
    };
    assert_eq!(prefix.len(), 0);
    assert_eq!(tail.len(), 1);
    assert_eq!(tail[0].spans[0].text, "hello ");
    let p0 = std::sync::Arc::clone(prefix);

    let b = block(&mut sess, "t1", "b1");
    b.text.push_str(" world");
    b.rev += 1;
    refresh(&hl, &sess, 80, None, &mut cache);
    let BlockBody::Streaming { prefix, tail } = &cache.turns[0].content[0].body else {
        panic!("a growing body");
    };
    assert!(std::sync::Arc::ptr_eq(&p0, prefix));
    assert_eq!(tail[0].spans[0].text, "hello world ");

    let b = block(&mut sess, "t1", "b1");
    b.text.push_str(&"x".repeat(80));
    b.rev += 1;
    refresh(&hl, &sess, 80, None, &mut cache);
    let BlockBody::Streaming { prefix, .. } = &cache.turns[0].content[0].body else {
        panic!("a growing body");
    };
    assert_eq!(prefix.len(), 2);
    assert!(!std::sync::Arc::ptr_eq(&p0, prefix));

    let b = block(&mut sess, "t1", "b1");
    b.state = TimelineBlockState::Sealed;
    b.rev += 1;
    refresh(&hl, &sess, 80, None, &mut cache);
    let seg = &cache.turns[0].content[0];
    assert!(seg.body.lines().is_some());
    assert!(seg.stream.is_none());
}

#[test]
fn struct_key_ignores_block_revs() {
    let sess = fixture_session();
    let t = sess.timeline.turns.first().expect("t1");
    let k0 = turn_struct_key(t, 1);

    let mut sess2 = fixture_session();
    sess2.timeline.turns[0].rounds[0].blocks[0].rev += 1;
    let k1 = turn_struct_key(&sess2.timeline.turns[0], 1);
    assert_eq!(k0, k1);

    sess2.timeline.turns[0].rounds[0].blocks.pop();
    let k2 = turn_struct_key(&sess2.timeline.turns[0], 1);
    assert_ne!(k0, k2);
}

fn flat(cache: &TranscriptCache) -> Vec<String> {
    cache
        .flatten_lines()
        .iter()
        .map(|l| l.spans.iter().map(|s| s.text.as_str()).collect::<String>())
        .collect()
}

#[test]
fn tool_group_collapses_to_one_line_with_failure_inline() {
    let hl = Highlighter::new();
    let mut sess = SessionState::new("s".to_string());
    sess.timeline.turns.push(turn_of(
        "t1",
        "问",
        TimelineTurnState::Completed,
        None,
        false,
        vec![
            tool_blk("g1", 0, TimelineToolState::Succeeded),
            tool_blk("g2", 1, TimelineToolState::Succeeded),
            tool_blk("g3", 2, TimelineToolState::Failed),
        ],
    ));

    let mut cache = TranscriptCache::new(80);
    refresh(&hl, &sess, 80, None, &mut cache);
    let lines = flat(&cache);
    let group = lines
        .iter()
        .find(|l| l.contains("tool calls"))
        .expect("a group line");
    assert!(group.contains("3 tool calls") && group.contains("2✓") && group.contains("1✗"));
    assert_eq!(lines.iter().filter(|l| l.contains("tool calls")).count(), 1);

    assert_eq!(lines.iter().filter(|l| l.contains("bash")).count(), 1);

    sess.expanded_groups.push(("t1".to_string(), 0));
    let mut c2 = TranscriptCache::new(80);
    refresh(&hl, &sess, 80, None, &mut c2);
    let lines2 = flat(&c2);
    assert!(!lines2.iter().any(|l| l.contains("tool calls")));
    assert_eq!(lines2.iter().filter(|l| l.contains("bash")).count(), 3);
}

#[test]
fn t1_tool_is_single_line_with_args_preview() {
    let hl = Highlighter::new();
    let mut sess = SessionState::new("s".to_string());
    let mut b = tool_blk("k1", 0, TimelineToolState::Succeeded);
    {
        let t = b.tool.as_mut().expect("tool");
        t.name = "todo_update".to_string();
        t.args_json = Some(String::from("{\"id\":\"T3\"}"));
    }
    sess.timeline.turns.push(turn_of(
        "t1",
        "问",
        TimelineTurnState::Completed,
        None,
        false,
        vec![b],
    ));
    let mut cache = TranscriptCache::new(80);
    refresh(&hl, &sess, 80, None, &mut cache);
    let lines = flat(&cache);
    let n = lines.iter().filter(|l| l.contains("todo_update")).count();
    assert_eq!(n, 1);
}

#[test]
fn running_card_shows_progress_bytes() {
    let hl = Highlighter::new();
    let mut sess = SessionState::new("s".to_string());

    let mut b1 = tool_blk("b1", 0, TimelineToolState::Running);
    {
        let t = b1.tool.as_mut().expect("tool");
        t.progress = "line\n".to_string();
        t.progress_bytes_total = 12_600;
        t.progress_stream = Some("stderr".to_string());
    }

    let mut b2 = tool_blk("b2", 0, TimelineToolState::Running);
    b2.tool.as_mut().expect("tool").progress_bytes_total = 12_600;

    let mut b3 = tool_blk("b3", 0, TimelineToolState::Succeeded);
    b3.tool.as_mut().expect("tool").progress_bytes_total = 12_600;
    sess.timeline.turns.push(turn_of(
        "t1",
        "问",
        TimelineTurnState::Running,
        None,
        false,
        vec![b1],
    ));
    sess.timeline.turns.push(turn_of(
        "t2",
        "问",
        TimelineTurnState::Running,
        None,
        false,
        vec![b2],
    ));
    sess.timeline.turns.push(turn_of(
        "t3",
        "问",
        TimelineTurnState::Completed,
        None,
        false,
        vec![b3],
    ));
    for tid in ["t1", "t2", "t3"] {
        sess.expanded_groups.push((tid.to_string(), 0));
    }
    let mut cache = TranscriptCache::new(80);
    refresh(&hl, &sess, 80, None, &mut cache);
    let lines = flat(&cache);
    let all = lines.join("\n");
    assert!(all.contains("↓ 12.3 KB · stderr"));
    assert_eq!(all.matches("↓ 12.3 KB").count(), 2);
}

#[test]
fn t1_line_prefers_display_summary() {
    let hl = Highlighter::new();
    let mut sess = SessionState::new("s".to_string());
    let mut b = tool_blk("k1", 0, TimelineToolState::Succeeded);
    {
        let t = b.tool.as_mut().expect("tool");
        t.name = "todo_write".to_string();
        t.args_json = Some(String::from(r#"{"todos":"..."}"#));
        t.display = Some(test_display(
            Some("5 todos · 2 done"),
            None,
        ));
    }
    sess.timeline.turns.push(turn_of(
        "t1",
        "问",
        TimelineTurnState::Completed,
        None,
        false,
        vec![b],
    ));
    let mut cache = TranscriptCache::new(80);
    refresh(&hl, &sess, 80, None, &mut cache);
    let lines = flat(&cache);
    let t1 = lines
        .iter()
        .find(|l| l.contains("todo_write"))
        .expect("a one-line call");
    assert!(t1.contains("5 todos"));
    assert!(!t1.contains('['));
}

#[test]
fn t2_args_preview_skipped_only_with_structured_body() {
    let hl = Highlighter::new();
    let mut sess = SessionState::new("s".to_string());
    let mut with_body = tool_blk("b1", 0, TimelineToolState::Succeeded);
    {
        let t = with_body.tool.as_mut().expect("tool");
        t.name = "grep".to_string();
        t.args_json = Some(String::from(r#"{"pattern":"needle"}"#));
        t.display = Some(test_display(
            None,
            Some(TimelineToolBody::Text {
                text: "hit
"
                .to_string(),
                truncated: false,
            }),
        ));
    }
    let mut legacy = tool_blk("b2", 1, TimelineToolState::Succeeded);
    {
        let t = legacy.tool.as_mut().expect("tool");
        t.name = "grep".to_string();
        t.args_json = Some(String::from(r#"{"pattern":"needle"}"#));
    }
    sess.timeline.turns.push(turn_of(
        "t1",
        "问",
        TimelineTurnState::Completed,
        None,
        false,
        vec![with_body, legacy],
    ));

    sess.expanded_groups.push(("t1".to_string(), 0));
    let mut cache = TranscriptCache::new(80);
    refresh(&hl, &sess, 80, None, &mut cache);
    let lines = flat(&cache);
    let args_lines: Vec<&String> = lines.iter().filter(|l| l.contains('⌗')).collect();
    assert_eq!(args_lines.len(), 1);
    assert!(args_lines[0].contains("needle"));
}

fn one_line(l: &RenderLine) -> String {
    l.spans.iter().map(|s| s.text.as_str()).collect()
}

#[test]
fn banner_reflects_loading_and_more_states() {
    let mut sess = SessionState::new("s".to_string());
    assert!(render_banner(&sess).is_none());
    sess.timeline.has_more = true;
    let l = render_banner(&sess).expect("has_more 悬幅");
    assert!(one_line(&l).contains("PgUp"));
    sess.loading_older = true;
    let l = render_banner(&sess).expect("loading 悬幅");
    assert!(one_line(&l).contains("正在加载"));
    sess.loading_older = false;
    sess.timeline.has_more = false;
    sess.timeline.truncated_before = true;
    let l = render_banner(&sess).expect("truncated 悬幅");
    assert!(one_line(&l).contains("无法翻到"));
}

fn bottom_vp(total: usize) -> Option<(usize, usize)> {
    Some((total.saturating_sub(40), 40))
}

fn assert_lines_eq(got: &[RenderLine], want: &[RenderLine], ctx: &str) {
    assert_eq!(got.len(), want.len());
    for (i, (g, w)) in got.iter().zip(want.iter()).enumerate() {
        let gs = flatten(&[g]);
        let ws = flatten(&[w]);
        assert_eq!(gs, ws);
    }
}

fn fixture_rich() -> SessionState {
    let mut s = fixture_session();
    s.timeline.turns.push(turn_of(
        "t3",
        "这一行特别长用来测试 CJK 宽字符在窄视口下的折行行为是否与全量渲染一致存在差异",
        TimelineTurnState::Completed,
        None,
        false,
        vec![
            blk(
                "b6",
                0,
                TimelineBlockKind::Text,
                TimelineBlockState::Sealed,
                "```rust\nfn main() {\n    println!(\"你好，世界\"); // 中文注释也参与折行\n}\n```",
            ),
            tool_blk("b7", 1, TimelineToolState::Failed),
            blk(
                "b8",
                2,
                TimelineBlockKind::Text,
                TimelineBlockState::Sealed,
                "短答案。\n\n第二段含列表：\n- 项目一\n- 项目二\n  - 嵌套项",
            ),
        ],
    ));

    s.timeline.turns.push(turn_of(
        "t4",
        "被归档的旧回合",
        TimelineTurnState::Completed,
        None,
        true,
        vec![blk(
            "b9",
            0,
            TimelineBlockKind::Text,
            TimelineBlockState::Sealed,
            "正文不应出现",
        )],
    ));

    s.timeline.turns.push(turn_of(
        "t5",
        "失败的回合",
        TimelineTurnState::Failed,
        Some(TimelineFailure {
            code: "timeout".to_string(),
            message: "网络超时".to_string(),
        }),
        false,
        vec![blk(
            "b10",
            0,
            TimelineBlockKind::Text,
            TimelineBlockState::Sealed,
            "超时前的部分输出",
        )],
    ));
    s
}

#[test]
fn m1_acceptance_equivalence_matrix() {
    let hl = Highlighter::new();
    for w in [40usize, 100] {
        for frame in [0u64, 7] {
            let ww = w as u16;
            let sess = fixture_rich();
            let ctx = format!("w={w} frame={frame}");

            let mut cache = TranscriptCache::new(ww);
            refresh(&hl, &sess, ww, None, &mut cache);
            let full = render_transcript_with_opts(&hl, &sess, ww, frame);
            assert_lines_eq(&flatten_with_anim(&cache, frame), &full, &ctx);

            let total = cache.total_lines();
            refresh(&hl, &sess, ww, bottom_vp(total), &mut cache);
            let win = flatten_with_anim(&cache, frame);
            let top = total - win.len();
            assert_lines_eq(
                &win,
                &full[top..total],
                &format!("{ctx} {top}..{total}"),
            );
        }
    }
}
