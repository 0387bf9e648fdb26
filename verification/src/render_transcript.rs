//! The transcript as styled lines: turn by turn, block by block.

use crate::anim::{AnimKind, AnimSink, AnimSlot};
use crate::highlight::Highlighter;
use crate::markdown::{markdown_rows, render_markdown};
use crate::plan::{
    h_u64, items_of, mix, plan_turn, plan_within, turn_items, ItemView, PlanItem, Shown,
    ShownView, FNV_OFFSET,
};
use crate::md_detect::{is_markdown, markdown};
use crate::render_line::{
    extend_rows, lemma_rows_add, lemma_rows_push, lemma_step_ends_line, plain, rows, sp,
    wrap_feed, wrap_start, wrap_text, wrapped, RenderLine, SpanStyle, SpanView,
};
use crate::session::SessionState;
use crate::text::{
    cat2, cat3, cat4, chars_of, dec, dec_u64, dec_usize, lemma_texts_push, string_of, texts,
};
use crate::timeline::{Block, TimelineBlockKind, TimelineFailure, TimelineTurnState, ToolCard, Turn};
use crate::tool_card::{
    card_rows, card_slots, group_row, is_t1_tool, opt_chars, prefixed_lines, prefixed_rows,
    push_tool_card_anim, render_group_line, render_t1_line, t1_row, t1_tool,
};
use crate::tool_diff::less;
use crate::width::{str_width, text_columns};
use vstd::prelude::*;

verus! {

broadcast use {lemma_rows_push, lemma_rows_add, lemma_texts_push};

/// The line above the turns: older turns are being loaded, can be loaded, or
/// cannot be reached.
pub open spec fn banner(session: SessionState) -> Option<Seq<SpanView>> {
    if session.loading_older {
        Some(seq![sp("⋯ 正在加载更早回合…"@, SpanStyle::Dim)])
    } else if session.timeline.has_more {
        Some(seq![sp("↑ 更早回合已折叠 — PgUp 加载更早"@, SpanStyle::Accent)])
    } else if session.timeline.truncated_before {
        Some(
            seq![
                sp(
                    "⚠ 更早的回合未包含在本窗口（仅存于 daemon 归档，当前无法翻到）"@,
                    SpanStyle::Warn,
                ),
            ],
        )
    } else {
        None
    }
}

/// The line above the turns.
pub fn render_banner(session: &SessionState) -> (l: Option<RenderLine>)
    ensures
        match l {
            Some(line) => banner(*session) == Some(line@),
            None => banner(*session) is None,
        },
{
    if session.loading_older {
        Some(RenderLine::new().span("⋯ 正在加载更早回合…", SpanStyle::Dim))
    } else if session.timeline.has_more {
        Some(RenderLine::new().span("↑ 更早回合已折叠 — PgUp 加载更早", SpanStyle::Accent))
    } else if session.timeline.truncated_before {
        Some(
            RenderLine::new().span(
                "⚠ 更早的回合未包含在本窗口（仅存于 daemon 归档，当前无法翻到）",
                SpanStyle::Warn,
            ),
        )
    } else {
        None
    }
}

/// How a turn ended, for its head line.
pub open spec fn turn_tag(turn: Turn) -> Seq<char> {
    match turn.state {
        TimelineTurnState::Running => "… running"@,
        TimelineTurnState::Completed => Seq::empty(),
        TimelineTurnState::Failed => match turn.failure {
            Some(f) => "✗ "@ + f.code@,
            None => "✗ failed"@,
        },
        TimelineTurnState::Cancelled => "⊘ cancelled"@,
    }
}

/// The head line of a turn: its number, how it ended, and how much thinking it
/// dropped.
pub open spec fn turn_head(turn: Turn, num: u64) -> Seq<SpanView> {
    let tag = turn_tag(turn);
    let ended = if tag.len() > 0 {
        seq![
            sp(
                " · "@ + tag,
                match turn.state {
                    TimelineTurnState::Failed => SpanStyle::Error,
                    TimelineTurnState::Cancelled => SpanStyle::Warn,
                    _ => SpanStyle::Dim,
                },
            ),
        ]
    } else {
        Seq::empty()
    };
    let thought = if turn.thinking.segments > 0 {
        seq![
            sp(
                " · 思考 "@ + dec(turn.thinking.segments as nat) + " 段/"@ + dec(
                    turn.thinking.lines as nat,
                ) + " 行"@,
                SpanStyle::Dim,
            ),
        ]
    } else {
        Seq::empty()
    };
    seq![sp("──── "@, SpanStyle::Dim), sp("turn "@ + dec(num as nat), SpanStyle::Dim)] + ended
        + thought
}

/// What the user said: an arrow before the first line.
pub open spec fn user_rows(ls: Seq<Seq<char>>) -> Seq<Seq<SpanView>> {
    Seq::new(
        ls.len(),
        |i: int|
            seq![
                sp(
                    if i == 0 {
                        "❯ "@
                    } else {
                        "  "@
                    },
                    SpanStyle::Accent,
                ),
                sp(ls[i], SpanStyle::User),
            ],
    )
}

/// What precedes the blocks of a turn: head line, archive mark, user text.
pub open spec fn turn_pre(turn: Turn, num: u64, width: nat) -> Seq<Seq<SpanView>> {
    let mark = if turn.offloaded {
        seq![
            seq![
                sp("  ◌ "@, SpanStyle::Warn),
                sp("已归档：以下内容为预览"@, SpanStyle::Warn),
            ],
        ]
    } else {
        Seq::empty()
    };
    let said = if turn.user_text@.len() > 0 {
        user_rows(wrapped(turn.user_text@, less(width, 2)))
    } else {
        Seq::empty()
    };
    seq![turn_head(turn, num)] + mark + said
}

fn turn_tag_text(turn: &Turn) -> (s: String)
    ensures
        s@ == turn_tag(*turn),
{
    match turn.state {
        TimelineTurnState::Running => "… running".to_owned(),
        TimelineTurnState::Completed => String::new(),
        TimelineTurnState::Failed => match &turn.failure {
            Some(f) => cat2("✗ ", f.code.as_str()),
            None => "✗ failed".to_owned(),
        },
        TimelineTurnState::Cancelled => "⊘ cancelled".to_owned(),
    }
}

fn turn_head_line(turn: &Turn, num: u64) -> (l: RenderLine)
    ensures
        l@ == turn_head(*turn, num),
{
    let n = dec_u64(num);
    let title = cat2("turn ", n.as_str());
    let mut l = RenderLine::new().span("──── ", SpanStyle::Dim).span(
        title.as_str(),
        SpanStyle::Dim,
    );
    let tag = turn_tag_text(turn);
    if !tag.as_str().is_empty() {
        let text = cat2(" · ", tag.as_str());
        l = l.span(
            text.as_str(),
            match turn.state {
                TimelineTurnState::Failed => SpanStyle::Error,
                TimelineTurnState::Cancelled => SpanStyle::Warn,
                _ => SpanStyle::Dim,
            },
        );
    }
    if turn.thinking.segments > 0 {
        let s = dec_u64(turn.thinking.segments as u64);
        let k = dec_u64(turn.thinking.lines);
        let mut text = cat4(" · 思考 ", s.as_str(), " 段/", k.as_str());
        text.push_str(" 行");
        l = l.span(text.as_str(), SpanStyle::Dim);
    }
    assert(l@ =~= turn_head(*turn, num));
    l
}

fn user_lines(ls: &Vec<String>) -> (out: Vec<RenderLine>)
    ensures
        rows(out@) == user_rows(texts(ls@)),
{
    let mut out: Vec<RenderLine> = Vec::new();
    let ghost want = user_rows(texts(ls@));
    let mut i: usize = 0;
    while i < ls.len()
        invariant
            i <= ls@.len(),
            want == user_rows(texts(ls@)),
            rows(out@) =~= want.take(i as int),
        decreases ls@.len() - i,
    {
        let l = RenderLine::new().span(
            if i == 0 {
                "❯ "
            } else {
                "  "
            },
            SpanStyle::Accent,
        ).span(ls[i].as_str(), SpanStyle::User);
        assert(l@ =~= want[i as int]);
        out.push(l);
        i += 1;
        assert(want.take(i as int) =~= want.take(i - 1).push(want[i - 1]));
    }
    assert(want.take(i as int) =~= want);
    out
}

/// What precedes the blocks of a turn.
pub fn render_turn_pre(turn: &Turn, num: u64, width: usize) -> (out: Vec<RenderLine>)
    ensures
        rows(out@) == turn_pre(*turn, num, width as nat),
{
    let mut out: Vec<RenderLine> = Vec::new();
    out.push(turn_head_line(turn, num));
    assert(rows(out@) =~= seq![turn_head(*turn, num)]);
    let ghost r0 = rows(out@);
    if turn.offloaded {
        let l = RenderLine::new().span("  ◌ ", SpanStyle::Warn).span(
            "已归档：以下内容为预览",
            SpanStyle::Warn,
        );
        let ghost said = seq![
            sp("  ◌ "@, SpanStyle::Warn),
            sp("已归档：以下内容为预览"@, SpanStyle::Warn),
        ];
        assert(l@ =~= said);
        out.push(l);
        assert(rows(out@) =~= r0 + seq![said]);
    }
    if !turn.user_text.as_str().is_empty() {
        let ls = wrap_text(turn.user_text.as_str(), width.saturating_sub(2));
        let more = user_lines(&ls);
        extend_rows(&mut out, more);
    }
    assert(rows(out@) =~= turn_pre(*turn, num, width as nat));
    out
}

/// What follows the blocks of a turn: why it failed, and an empty line.
pub open spec fn turn_post(failure: Option<TimelineFailure>, width: nat) -> Seq<Seq<SpanView>> {
    (match failure {
        Some(f) => prefixed_rows(
            wrapped(f.code@ + ": "@ + f.message@, less(width, 4)),
            "  ✗ "@,
            SpanStyle::Error,
            SpanStyle::Error,
        ),
        None => Seq::empty(),
    }).push(Seq::empty())
}

/// What follows the blocks of a turn.
pub fn render_turn_post(failure: &Option<TimelineFailure>, width: usize) -> (out: Vec<RenderLine>)
    ensures
        rows(out@) == turn_post(*failure, width as nat),
{
    let mut out: Vec<RenderLine> = Vec::new();
    assert(rows(out@) =~= Seq::empty());
    match failure {
        Some(f) => {
            let text = cat3(f.code.as_str(), ": ", f.message.as_str());
            let segs = wrap_text(text.as_str(), width.saturating_sub(4));
            let more = prefixed_lines(&segs, "  ✗ ", SpanStyle::Error, SpanStyle::Error);
            extend_rows(&mut out, more);
            assert(rows(out@) =~= prefixed_rows(
                wrapped(f.code@ + ": "@ + f.message@, less(width as nat, 4)),
                "  ✗ "@,
                SpanStyle::Error,
                SpanStyle::Error,
            ));
        },
        None => {},
    }
    out.push(RenderLine::new());
    out
}

/// A Markdown block shows at most this many lines.
pub const MD_BLOCK_LINE_CAP: usize = 500;

/// Lines as they are.
pub open spec fn plain_rows(ls: Seq<Seq<char>>) -> Seq<Seq<SpanView>> {
    Seq::new(ls.len(), |i: int| plain(ls[i]))
}

/// Text that still grows: wrapped with the cursor behind it; the last line
/// holds the cursor itself, or a space in its place.
pub open spec fn stream_lines(text: Seq<char>, width: nat, bake: Option<u64>) -> Seq<Seq<char>> {
    let ls = wrapped(text.push('▌'), width);
    if bake is Some {
        ls
    } else {
        ls.drop_last().push(ls.last().drop_last().push(' '))
    }
}

/// The slot of the cursor behind growing text.
pub open spec fn stream_slot(text: Seq<char>, width: nat) -> AnimSlot {
    let ls = wrapped(text.push('▌'), width);
    AnimSlot {
        row: (ls.len() - 1) as u16,
        col: text_columns(ls.last().drop_last()) as u16,
        kind: AnimKind::Cursor,
    }
}

/// Complete text: Markdown where it holds any, up to a number of lines.
pub open spec fn sealed_rows(text: Seq<char>, width: nat) -> Seq<Seq<SpanView>> {
    if markdown(text) {
        let md = markdown_rows(text, width);
        if md.len() > MD_BLOCK_LINE_CAP {
            md.take(MD_BLOCK_LINE_CAP as int).push(
                seq![
                    sp(
                        "  （内容省略 "@ + dec((md.len() - MD_BLOCK_LINE_CAP) as nat) + " 行）"@,
                        SpanStyle::Dim,
                    ),
                ],
            )
        } else {
            md
        }
    } else {
        plain_rows(wrapped(text, width))
    }
}

/// The wrapped text ends in the cursor.
pub proof fn lemma_stream_ends_in_cursor(text: Seq<char>, width: nat)
    ensures
        wrapped(text.push('▌'), width).len() > 0,
        wrapped(text.push('▌'), width).last().len() > 0,
        wrapped(text.push('▌'), width).last().last() == '▌',
{
    let t = text.push('▌');
    if width > 0 {
        assert(t.drop_last() =~= text);
        lemma_step_ends_line(wrap_feed(wrap_start(), text, width), '▌', width);
    }
}

fn plain_lines(ls: &Vec<String>) -> (out: Vec<RenderLine>)
    ensures
        rows(out@) == plain_rows(texts(ls@)),
{
    let mut out: Vec<RenderLine> = Vec::new();
    let ghost want = plain_rows(texts(ls@));
    let mut i: usize = 0;
    while i < ls.len()
        invariant
            i <= ls@.len(),
            want == plain_rows(texts(ls@)),
            rows(out@) =~= want.take(i as int),
        decreases ls@.len() - i,
    {
        let l = RenderLine::plain(ls[i].as_str());
        assert(l@ == want[i as int]);
        out.push(l);
        i += 1;
        assert(want.take(i as int) =~= want.take(i - 1).push(want[i - 1]));
    }
    assert(want.take(i as int) =~= want);
    out
}

/// `s` without its last character.
pub fn without_last(s: &str) -> (r: String)
    requires
        s@.len() > 0,
    ensures
        r@ == s@.drop_last(),
{
    let chars = chars_of(s);
    let r = string_of(&chars, 0, chars.len() - 1);
    assert(r@ =~= s@.drop_last());
    r
}

fn stream_text_lines(text: &str, width: usize, anim: &mut AnimSink) -> (out: Vec<RenderLine>)
    ensures
        rows(out@) == plain_rows(stream_lines(text@, width as nat, old(anim).bake())),
        old(anim).takes(seq![stream_slot(text@, width as nat)], final(anim)),
{
    let mut shown = text.to_owned();
    shown.push('▌');
    let mut ls = wrap_text(shown.as_str(), width);
    let ghost all = texts(ls@);
    proof {
        lemma_stream_ends_in_cursor(text@, width as nat);
    }
    match anim {
        AnimSink::Bake(_) => {},
        AnimSink::Slots(slots) => {
            let n: usize = ls.len();
            let last = ls.pop();
            match last {
                Some(line) => {
                    assert(line@ == all.last());
                    let mut kept = without_last(line.as_str());
                    let col: usize = str_width(line.as_str()).saturating_sub(1);
                    slots.push(
                        AnimSlot { row: (n - 1) as u16, col: col as u16, kind: AnimKind::Cursor },
                    );
                    kept.push(' ');
                    assert(texts(ls@) =~= all.drop_last());
                    ls.push(kept);
                    assert(slots@ =~= old(anim).slots() + seq![stream_slot(text@, width as nat)]);
                },
                None => {},
            }
        },
    }
    assert(texts(ls@) == stream_lines(text@, width as nat, old(anim).bake()));
    plain_lines(&ls)
}

fn sealed_text_lines(hl: &Highlighter, text: &str, width: usize) -> (out: Vec<RenderLine>)
    ensures
        rows(out@) == sealed_rows(text@, width as nat),
{
    if is_markdown(text) {
        let mut md = render_markdown(hl, text, width);
        let ghost all = rows(md@);
        if md.len() > MD_BLOCK_LINE_CAP {
            let omitted = dec_usize(md.len() - MD_BLOCK_LINE_CAP);
            let note = cat3("  （内容省略 ", omitted.as_str(), " 行）");
            md.truncate(MD_BLOCK_LINE_CAP);
            assert(rows(md@) =~= all.take(MD_BLOCK_LINE_CAP as int));
            let l = RenderLine::new().span(note.as_str(), SpanStyle::Dim);
            md.push(l);
            assert(rows(md@) =~= sealed_rows(text@, width as nat));
        }
        md
    } else {
        let ls = wrap_text(text, width);
        plain_lines(&ls)
    }
}

/// The summary that a tool's projection gives.
pub open spec fn given_summary(tool: ToolCard) -> Option<Seq<char>> {
    match tool.display {
        Some(d) => match d.summary {
            Some(s) => Some(s@),
            None => None,
        },
        None => None,
    }
}

/// The arguments of a tool call, where it has any.
pub open spec fn given_args(tool: ToolCard) -> Option<Seq<char>> {
    match tool.args_json {
        Some(s) => Some(s@),
        None => None,
    }
}

/// A block. Reasoning shows nothing here.
pub open spec fn block_rows(block: Block, width: nat, bake: Option<u64>) -> Seq<Seq<SpanView>> {
    match block.kind {
        TimelineBlockKind::Text => if block.streaming() {
            plain_rows(stream_lines(block.text@, width, bake))
        } else {
            sealed_rows(block.text@, width)
        },
        TimelineBlockKind::Reasoning => Seq::empty(),
        TimelineBlockKind::Tool => match block.tool {
            Some(tool) => if t1_tool(tool.name@) {
                seq![t1_row(tool.name@, given_args(tool), given_summary(tool))]
            } else {
                card_rows(tool, width, bake)
            },
            None => Seq::empty(),
        },
        TimelineBlockKind::Notice => prefixed_rows(
            wrapped(block.text@, less(width, 2)),
            "· "@,
            SpanStyle::Dim,
            SpanStyle::Dim,
        ),
    }
}

/// The animated cells of a block.
pub open spec fn block_slots(block: Block, width: nat) -> Seq<AnimSlot> {
    match block.kind {
        TimelineBlockKind::Text => if block.streaming() {
            seq![stream_slot(block.text@, width)]
        } else {
            Seq::empty()
        },
        TimelineBlockKind::Tool => match block.tool {
            Some(tool) => if t1_tool(tool.name@) {
                Seq::empty()
            } else {
                card_slots(tool, 0)
            },
            None => Seq::empty(),
        },
        _ => Seq::empty(),
    }
}

fn opt_str(o: &Option<String>) -> (r: Option<&str>)
    ensures
        opt_chars(r) == (match *o {
            Some(s) => Some(s@),
            None => None,
        }),
{
    match o {
        Some(s) => Some(s.as_str()),
        None => None,
    }
}

/// A block as styled lines.
pub fn render_block_lines(hl: &Highlighter, block: &Block, width: usize, anim: &mut AnimSink)
    -> (out: Vec<RenderLine>)
    ensures
        rows(out@) == block_rows(*block, width as nat, old(anim).bake()),
        old(anim).takes(block_slots(*block, width as nat), final(anim)),
{
    proof {
        assert(anim.slots() + Seq::<AnimSlot>::empty() =~= anim.slots());
    }
    match block.kind {
        TimelineBlockKind::Text => {
            if block.is_streaming() {
                stream_text_lines(block.text.as_str(), width, anim)
            } else {
                sealed_text_lines(hl, block.text.as_str(), width)
            }
        },
        TimelineBlockKind::Reasoning => {
            let out: Vec<RenderLine> = Vec::new();
            assert(rows(out@) =~= Seq::empty());
            out
        },
        TimelineBlockKind::Tool => {
            let mut out: Vec<RenderLine> = Vec::new();
            assert(rows(out@) =~= Seq::empty());
            match &block.tool {
                Some(tool) => {
                    if is_t1_tool(tool.name.as_str()) {
                        let summary = match &tool.display {
                            Some(d) => opt_str(&d.summary),
                            None => None,
                        };
                        out.push(
                            render_t1_line(
                                tool.name.as_str(),
                                opt_str(&tool.args_json),
                                summary,
                                width,
                            ),
                        );
                        assert(rows(out@) =~= seq![
                            t1_row(tool.name@, given_args(*tool), given_summary(*tool)),
                        ]);
                    } else {
                        push_tool_card_anim(&mut out, tool, width, anim);
                        assert(Seq::<Seq<SpanView>>::empty() + card_rows(
                            *tool,
                            width as nat,
                            old(anim).bake(),
                        ) =~= card_rows(*tool, width as nat, old(anim).bake()));
                    }
                },
                None => {},
            }
            out
        },
        TimelineBlockKind::Notice => {
            let segs = wrap_text(block.text.as_str(), width.saturating_sub(2));
            prefixed_lines(&segs, "· ", SpanStyle::Dim, SpanStyle::Dim)
        },
    }
}

/// A block as it is shown in its turn.
pub open spec fn item_rows(item: ItemView, width: nat, bake: Option<u64>) -> Seq<Seq<SpanView>> {
    match item.shown {
        ShownView::Whole => block_rows(item.block, width, bake),
        ShownView::Line(states, _) => seq![group_row(states, false)],
        ShownView::Hidden(_) => Seq::empty(),
    }
}

/// The animated cells of a block as it is shown in its turn.
pub open spec fn item_slots(item: ItemView, width: nat) -> Seq<AnimSlot> {
    match item.shown {
        ShownView::Whole => block_slots(item.block, width),
        _ => Seq::empty(),
    }
}

/// The blocks of a turn.
pub open spec fn items_rows(items: Seq<ItemView>, width: nat, bake: Option<u64>) -> Seq<Seq<SpanView>>
    decreases items.len(),
{
    if items.len() == 0 {
        Seq::empty()
    } else {
        items_rows(items.drop_last(), width, bake) + item_rows(items.last(), width, bake)
    }
}

/// A turn.
pub open spec fn turn_rows(
    turn: Turn,
    num: u64,
    groups: Seq<(String, u32)>,
    width: nat,
    bake: Option<u64>,
) -> Seq<Seq<SpanView>> {
    turn_pre(turn, num, width) + items_rows(turn_items(turn, groups), width, bake) + turn_post(
        turn.failure,
        width,
    )
}

/// The first `n` turns of a session.
pub open spec fn turns_rows(session: SessionState, n: int, width: nat, bake: Option<u64>) -> Seq<
    Seq<SpanView>,
>
    decreases n,
{
    if n <= 0 {
        Seq::empty()
    } else {
        turns_rows(session, n - 1, width, bake) + turn_rows(
            session.timeline.turns@[n - 1],
            session.timeline.number(n - 1),
            session.expanded_groups@,
            width,
            bake,
        )
    }
}

/// What an empty session shows.
pub open spec fn empty_row() -> Seq<SpanView> {
    seq![sp("（暂无回合——输入消息开始对话）"@, SpanStyle::Dim)]
}

/// The narrowest width that is drawn for.
pub open spec fn drawn_width(width: u16) -> u16 {
    if width < 20 {
        20
    } else {
        width
    }
}

/// A whole session: banner, turns, and a hint where there are none.
pub open spec fn transcript_rows(session: SessionState, width: u16, bake: Option<u64>) -> Seq<
    Seq<SpanView>,
> {
    let w = drawn_width(width) as nat;
    let n = session.timeline.turns@.len() as int;
    let head = match banner(session) {
        Some(row) => seq![row],
        None => Seq::empty(),
    };
    let hint = if n == 0 {
        seq![empty_row()]
    } else {
        Seq::empty()
    };
    head + turns_rows(session, n, w, bake) + hint
}

/// A block as it is shown in its turn.
pub fn render_item_lines(
    hl: &Highlighter,
    turn: &Turn,
    item: &PlanItem,
    width: usize,
    anim: &mut AnimSink,
) -> (out: Vec<RenderLine>)
    requires
        item.within(*turn),
    ensures
        rows(out@) == item_rows(item.of(*turn), width as nat, old(anim).bake()),
        old(anim).takes(item_slots(item.of(*turn), width as nat), final(anim)),
{
    proof {
        assert(anim.slots() + Seq::<AnimSlot>::empty() =~= anim.slots());
    }
    match &item.shown {
        Shown::Whole => render_block_lines(
            hl,
            &turn.rounds[item.round].blocks[item.block],
            width,
            anim,
        ),
        Shown::Line(states, _) => {
            let mut out: Vec<RenderLine> = Vec::new();
            out.push(render_group_line(states, false, width));
            assert(rows(out@) =~= seq![group_row(states@, false)]);
            out
        },
        Shown::Hidden(_) => {
            let out: Vec<RenderLine> = Vec::new();
            assert(rows(out@) =~= Seq::empty());
            out
        },
    }
}

/// A turn as styled lines, glyphs of frame `frame` in place.
pub fn render_turn(
    hl: &Highlighter,
    session: &SessionState,
    turn_idx: usize,
    width: usize,
    frame: u64,
) -> (out: Vec<RenderLine>)
    requires
        turn_idx < session.timeline.turns@.len(),
    ensures
        rows(out@) == turn_rows(
            session.timeline.turns@[turn_idx as int],
            session.timeline.number(turn_idx as int),
            session.expanded_groups@,
            width as nat,
            Some(frame),
        ),
{
    let turn = &session.timeline.turns[turn_idx];
    let num = session.timeline.turn_number(turn_idx);
    let mut out = render_turn_pre(turn, num, width);
    let ghost pre = rows(out@);
    let plan = plan_turn(turn, &session.expanded_groups);
    let ghost items = items_of(*turn, plan@);
    let mut i: usize = 0;
    assert(items.take(0) =~= Seq::empty());
    assert(pre + Seq::<Seq<SpanView>>::empty() =~= pre);
    while i < plan.len()
        invariant
            i <= plan@.len(),
            plan_within(*turn, plan@),
            items == items_of(*turn, plan@),
            rows(out@) == pre + items_rows(items.take(i as int), width as nat, Some(frame)),
        decreases plan@.len() - i,
    {
        let mut sink = AnimSink::Bake(frame);
        assert(plan@[i as int].within(*turn));
        let more = render_item_lines(hl, turn, &plan[i], width, &mut sink);
        proof {
            assert(items.take(i + 1).drop_last() =~= items.take(i as int));
            assert(items.take(i + 1).last() == items[i as int]);
            lemma_rows_assoc(
                pre,
                items_rows(items.take(i as int), width as nat, Some(frame)),
                rows(more@),
            );
        }
        extend_rows(&mut out, more);
        i += 1;
    }
    assert(items.take(i as int) =~= items);
    let post = render_turn_post(&turn.failure, width);
    extend_rows(&mut out, post);
    out
}

/// Concatenation is associative.
pub proof fn lemma_rows_assoc(a: Seq<Seq<SpanView>>, b: Seq<Seq<SpanView>>, c: Seq<Seq<SpanView>>)
    ensures
        a + b + c == a + (b + c),
{
    assert(a + b + c =~= a + (b + c));
}

/// A whole session as styled lines, glyphs of frame `frame` in place.
pub fn render_transcript(hl: &Highlighter, session: &SessionState, width: u16, frame: u64) -> (out:
    Vec<RenderLine>)
    ensures
        rows(out@) == transcript_rows(*session, width, Some(frame)),
{
    render_transcript_with_opts(hl, session, width, frame)
}

/// A whole session as styled lines, glyphs of frame `frame` in place.
pub fn render_transcript_with_opts(
    hl: &Highlighter,
    session: &SessionState,
    width: u16,
    frame: u64,
) -> (out: Vec<RenderLine>)
    ensures
        rows(out@) == transcript_rows(*session, width, Some(frame)),
{
    let w: usize = if width < 20 {
        20
    } else {
        width as usize
    };
    let mut out: Vec<RenderLine> = Vec::new();
    assert(rows(out@) =~= Seq::empty());
    match render_banner(session) {
        Some(line) => {
            out.push(line);
        },
        None => {},
    }
    let ghost head = match banner(*session) {
        Some(row) => seq![row],
        None => Seq::empty(),
    };
    assert(rows(out@) =~= head);
    let mut i: usize = 0;
    assert(head + Seq::<Seq<SpanView>>::empty() =~= head);
    while i < session.timeline.turns.len()
        invariant
            i <= session.timeline.turns@.len(),
            rows(out@) == head + turns_rows(*session, i as int, w as nat, Some(frame)),
        decreases session.timeline.turns@.len() - i,
    {
        let more = render_turn(hl, session, i, w, frame);
        proof {
            lemma_rows_assoc(
                head,
                turns_rows(*session, i as int, w as nat, Some(frame)),
                rows(more@),
            );
        }
        extend_rows(&mut out, more);
        i += 1;
    }
    let ghost n = session.timeline.turns@.len() as int;
    if session.timeline.turns.len() == 0 {
        let l = RenderLine::new().span("（暂无回合——输入消息开始对话）", SpanStyle::Dim);
        assert(l@ =~= empty_row());
        out.push(l);
    }
    assert(rows(out@) =~= transcript_rows(*session, width, Some(frame)));
    out
}

/// A hash of what the banner depends on.
pub open spec fn banner_key(session: SessionState, width: u16) -> u64 {
    mix(
        mix(
            mix(
                mix(mix(FNV_OFFSET, 0x6261_6e6e), bit(session.loading_older)),
                bit(session.timeline.has_more),
            ),
            bit(session.timeline.truncated_before),
        ),
        width as u64,
    )
}

/// One for true.
pub open spec fn bit(b: bool) -> u64 {
    if b {
        1
    } else {
        0
    }
}

/// One for true.
pub fn bit_of(b: bool) -> (n: u64)
    ensures
        n == bit(b),
{
    if b {
        1
    } else {
        0
    }
}

/// A hash of what the banner depends on.
pub fn banner_cache_key(session: &SessionState, width: u16) -> (k: u64)
    ensures
        k == banner_key(*session, width),
{
    let mut h: u64 = FNV_OFFSET;
    h_u64(&mut h, 0x6261_6e6e);
    h_u64(&mut h, bit_of(session.loading_older));
    h_u64(&mut h, bit_of(session.timeline.has_more));
    h_u64(&mut h, bit_of(session.timeline.truncated_before));
    h_u64(&mut h, width as u64);
    h
}

} // verus!
