//! Animated cells are kept apart from the lines. Here: with the glyph of a frame
//! over each of its cells, what is kept shows the transcript of that frame.

use crate::anim::{glyph, AnimKind, AnimSlot};
use crate::cache_laws::{
    faithful, lemma_aligned_turns_on_track, lemma_flat_turns, lemma_settled_shown, shows,
    turn_shown, turns_on_track,
};
use crate::plan::{ItemView, ShownView};
use crate::refresh::{
    align_range, all_aligned, banner_height, refreshed, session_items, MAX_LAYOUT_PASSES,
};
use crate::render_line::{plain, run_on, wrapped, SpanView};
use crate::render_transcript::{
    banner, block_rows, block_slots, drawn_width, empty_row, item_rows, item_slots, items_rows,
    lemma_stream_ends_in_cursor, plain_rows, stream_lines, transcript_rows, turn_post, turn_pre,
    turn_rows, turns_rows,
};
use crate::seg::{
    all_parts, flat, lemma_flat_add, lemma_flat_one, maybe_seg, CacheView, SegView, TurnView,
};
use crate::session::SessionState;
use crate::timeline::{Block, TimelineBlockKind, ToolCard};
use crate::tool_card::{
    card_rows, card_slots, is_block, law_card_geometry_ignores_frame, law_card_slot_is_free,
    lemma_card_starts_with_head, running, t1_tool,
};
use crate::width::text_columns;
use vstd::prelude::*;

verus! {

/// An animated cell of many lines: its line, its column there, and what it
/// shows.
pub struct Cell {
    pub row: nat,
    pub col: u16,
    pub kind: AnimKind,
}

/// The cells of a block whose first line is line `base`.
pub open spec fn cells_at(slots: Seq<AnimSlot>, base: nat) -> Seq<Cell> {
    Seq::new(
        slots.len(),
        |k: int| Cell { row: base + slots[k].row as nat, col: slots[k].col, kind: slots[k].kind },
    )
}

/// Cells `by` lines further down.
pub open spec fn moved(cells: Seq<Cell>, by: nat) -> Seq<Cell> {
    Seq::new(cells.len(), |k: int| Cell { row: cells[k].row + by, ..cells[k] })
}

/// The texts of spans.
pub open spec fn span_texts(line: Seq<SpanView>) -> Seq<Seq<char>> {
    Seq::new(line.len(), |i: int| line[i].text)
}

/// What a line holds before character `k` of its span `i`.
pub open spec fn text_before(line: Seq<SpanView>, i: int, k: int) -> Seq<char> {
    run_on(span_texts(line.take(i))) + line[i].text.take(k)
}

/// Character `k` of span `i` is a space in column `col`.
pub open spec fn is_cell(line: Seq<SpanView>, i: int, k: int, col: u16) -> bool {
    &&& 0 <= i < line.len()
    &&& 0 <= k < line[i].text.len()
    &&& line[i].text[k] == ' '
    &&& text_columns(text_before(line, i, k)) as u16 == col
}

/// A line with a glyph in the place of character `k` of span `i`, in the same
/// style.
pub open spec fn glyph_put(line: Seq<SpanView>, i: int, k: int, g: Seq<char>) -> Seq<SpanView> {
    let s = line[i];
    line.update(
        i,
        SpanView { text: s.text.take(k) + g + s.text.skip(k + 1), style: s.style },
    )
}

/// `baked` is `line` with the glyph of a frame over the cell.
pub open spec fn glyph_over(
    line: Seq<SpanView>,
    cell: Cell,
    frame: u64,
    baked: Seq<SpanView>,
) -> bool {
    glyph(cell.kind, frame as int) matches Some(g) && exists|i: int, k: int|
        #[trigger] is_cell(line, i, k, cell.col) && baked == glyph_put(line, i, k, g)
}

/// `baked` is line `r` with the glyph over its cell, or the line itself where
/// it has none.
pub open spec fn row_overlaid(
    line: Seq<SpanView>,
    cells: Seq<Cell>,
    r: int,
    frame: u64,
    baked: Seq<SpanView>,
) -> bool {
    ||| baked == line && forall|k: int| 0 <= k < cells.len() ==> (#[trigger] cells[k]).row != r
    ||| exists|k: int|
        0 <= k < cells.len() && (#[trigger] cells[k]).row == r && glyph_over(
            line,
            cells[k],
            frame,
            baked,
        )
}

/// `baked` is `free` with the glyphs of a frame over the cells: every cell is in
/// a line of its own, and the lines without one are the same.
pub open spec fn overlaid(
    free: Seq<Seq<SpanView>>,
    cells: Seq<Cell>,
    frame: u64,
    baked: Seq<Seq<SpanView>>,
) -> bool {
    &&& free.len() == baked.len()
    &&& forall|k: int| 0 <= k < cells.len() ==> (#[trigger] cells[k]).row < free.len()
    &&& forall|i: int, j: int|
        0 <= i < j < cells.len() ==> (#[trigger] cells[i]).row < (#[trigger] cells[j]).row
    &&& forall|r: int|
        0 <= r < free.len() ==> row_overlaid(free[r], cells, r, frame, #[trigger] baked[r])
}

proof fn lemma_overlaid_add(
    f: Seq<Seq<SpanView>>,
    c: Seq<Cell>,
    b: Seq<Seq<SpanView>>,
    f2: Seq<Seq<SpanView>>,
    c2: Seq<Cell>,
    b2: Seq<Seq<SpanView>>,
    frame: u64,
)
    requires
        overlaid(f, c, frame, b),
        overlaid(f2, c2, frame, b2),
    ensures
        overlaid(f + f2, c + moved(c2, f.len()), frame, b + b2),
{
    let n = f.len();
    let m = moved(c2, n);
    let cells = c + m;
    assert forall|k: int| 0 <= k < cells.len() implies (#[trigger] cells[k]).row < (f + f2).len() by {
        if k >= c.len() {
            assert(cells[k].row == c2[k - c.len()].row + n);
        }
    }
    assert forall|i: int, j: int| 0 <= i < j < cells.len() implies (#[trigger] cells[i]).row < (
    #[trigger] cells[j]).row by {
        if i >= c.len() {
            assert(cells[i].row == c2[i - c.len()].row + n);
        } else {
            assert(cells[i] == c[i]);
        }
        if j >= c.len() {
            assert(cells[j].row == c2[j - c.len()].row + n);
        } else {
            assert(cells[j] == c[j]);
        }
    }
    assert forall|r: int| 0 <= r < (f + f2).len() implies row_overlaid(
        (f + f2)[r],
        cells,
        r,
        frame,
        #[trigger] (b + b2)[r],
    ) by {
        if r < n {
            assert(row_overlaid(f[r], c, r, frame, b[r]));
            if exists|k: int|
                0 <= k < c.len() && (#[trigger] c[k]).row == r && glyph_over(
                    f[r],
                    c[k],
                    frame,
                    b[r],
                ) {
                let k = choose|k: int|
                    0 <= k < c.len() && (#[trigger] c[k]).row == r && glyph_over(
                        f[r],
                        c[k],
                        frame,
                        b[r],
                    );
                assert(cells[k] == c[k]);
            } else {
                assert forall|k: int| 0 <= k < cells.len() implies (#[trigger] cells[k]).row != r by {
                    if k < c.len() {
                        assert(cells[k] == c[k]);
                    } else {
                        assert(cells[k].row == c2[k - c.len()].row + n);
                    }
                }
            }
        } else {
            let q = r - n;
            assert(row_overlaid(f2[q], c2, q, frame, b2[q]));
            if exists|k: int|
                0 <= k < c2.len() && (#[trigger] c2[k]).row == q && glyph_over(
                    f2[q],
                    c2[k],
                    frame,
                    b2[q],
                ) {
                let k = choose|k: int|
                    0 <= k < c2.len() && (#[trigger] c2[k]).row == q && glyph_over(
                        f2[q],
                        c2[k],
                        frame,
                        b2[q],
                    );
                assert(cells[k + c.len()] == m[k]);
                assert((f + f2)[r] == f2[q]);
                let g = glyph(c2[k].kind, frame as int)->0;
                let (i, j) = choose|i: int, j: int|
                    #[trigger] is_cell(f2[q], i, j, c2[k].col) && b2[q] == glyph_put(f2[q], i, j, g);
                assert(is_cell((f + f2)[r], i, j, m[k].col));
                assert(glyph_over((f + f2)[r], m[k], frame, (b + b2)[r]));
            } else {
                assert forall|k: int| 0 <= k < cells.len() implies (#[trigger] cells[k]).row != r by {
                    if k < c.len() {
                        assert(cells[k] == c[k]);
                    } else {
                        assert(cells[k].row == c2[k - c.len()].row + n);
                    }
                }
            }
        }
    }
}

/// Lines without cells stay as they are.
proof fn lemma_overlaid_plain(f: Seq<Seq<SpanView>>, frame: u64)
    ensures
        overlaid(f, Seq::empty(), frame, f),
{
}

/// The line of the cursor behind growing text can be counted.
pub open spec fn cursor_countable(block: Block, width: nat) -> bool {
    block.kind == TimelineBlockKind::Text && block.streaming() ==> wrapped(
        block.text@.push('▌'),
        width,
    ).len() <= u16::MAX
}

proof fn lemma_stream_overlaid(text: Seq<char>, width: nat, frame: u64)
    requires
        wrapped(text.push('▌'), width).len() <= u16::MAX,
    ensures
        overlaid(
            plain_rows(stream_lines(text, width, None)),
            cells_at(seq![crate::render_transcript::stream_slot(text, width)], 0),
            frame,
            plain_rows(stream_lines(text, width, Some(frame))),
        ),
{
    lemma_stream_ends_in_cursor(text, width);
    let ls = wrapped(text.push('▌'), width);
    let n = ls.len() - 1;
    let free = plain_rows(stream_lines(text, width, None));
    let baked = plain_rows(stream_lines(text, width, Some(frame)));
    let cells = cells_at(seq![crate::render_transcript::stream_slot(text, width)], 0);
    let cell = cells[0];
    assert(cell.row == n);
    let line = free[n];
    let body = ls.last().drop_last();
    let k = body.len() as int;
    reveal_strlit("▌");
    assert("▌"@ =~= seq!['▌']);
    assert(line == plain(body.push(' ')));
    assert(line[0].text == body.push(' '));
    assert(span_texts(line.take(0)) =~= Seq::empty());
    assert(text_before(line, 0, k) =~= body);
    assert(is_cell(line, 0, k, cell.col));
    assert(body.push(' ').take(k) + "▌"@ + body.push(' ').skip(k + 1) =~= ls.last());
    assert(baked[n] =~= glyph_put(line, 0, k, "▌"@));
    assert(glyph_over(line, cell, frame, baked[n]));
    assert forall|r: int| 0 <= r < free.len() implies row_overlaid(
        free[r],
        cells,
        r,
        frame,
        #[trigger] baked[r],
    ) by {
        if r == n {
            assert(cells[0].row == r);
        } else {
            assert(free[r] == baked[r]);
        }
    }
}

proof fn lemma_card_overlaid(tool: ToolCard, width: nat, frame: u64)
    ensures
        overlaid(
            card_rows(tool, width, None),
            cells_at(card_slots(tool, 0), 0),
            frame,
            card_rows(tool, width, Some(frame)),
        ),
{
    let free = card_rows(tool, width, None);
    let baked = card_rows(tool, width, Some(frame));
    let cells = cells_at(card_slots(tool, 0), 0);
    law_card_geometry_ignores_frame(tool, width, None, Some(frame));
    if running(tool) {
        law_card_slot_is_free(tool, width, frame);
        lemma_card_starts_with_head(tool, width, None);
        let at = if is_block(tool) {
            1int
        } else {
            0
        };
        let line = free[at];
        let g = glyph(AnimKind::Spinner, frame as int)->0;
        reveal_strlit(" ");
        assert(" "@ =~= seq![' ']);
        assert(line[1].text =~= seq![' ', ' ']);
        assert(span_texts(line.take(1)).drop_last() =~= Seq::empty());
        assert(span_texts(line.take(1)).last() == line[0].text);
        assert(run_on(span_texts(line.take(1)).drop_last()) =~= Seq::empty());
        assert(text_before(line, 1, 0) =~= line[0].text);
        assert(is_cell(line, 1, 0, cells[0].col));
        assert(line[1].text.take(0) + g + line[1].text.skip(1) =~= g + " "@);
        assert(baked[at] =~= glyph_put(line, 1, 0, g));
        assert(glyph_over(line, cells[0], frame, baked[at]));
        assert forall|r: int| 0 <= r < free.len() implies row_overlaid(
            free[r],
            cells,
            r,
            frame,
            #[trigger] baked[r],
        ) by {
            if r == at {
                assert(cells[0].row == r);
            } else {
                assert(free[r] == baked[r]);
            }
        }
    } else {
        assert(cells =~= Seq::empty());
        lemma_overlaid_plain(free, frame);
    }
}

proof fn lemma_block_overlaid(block: Block, width: nat, frame: u64)
    requires
        cursor_countable(block, width),
    ensures
        overlaid(
            block_rows(block, width, None),
            cells_at(block_slots(block, width), 0),
            frame,
            block_rows(block, width, Some(frame)),
        ),
{
    let free = block_rows(block, width, None);
    match block.kind {
        TimelineBlockKind::Text => {
            if block.streaming() {
                lemma_stream_overlaid(block.text@, width, frame);
            } else {
                assert(cells_at(block_slots(block, width), 0) =~= Seq::empty());
                lemma_overlaid_plain(free, frame);
            }
        },
        TimelineBlockKind::Tool => {
            if block.tool is Some && !t1_tool(block.tool->0.name@) {
                lemma_card_overlaid(block.tool->0, width, frame);
            } else {
                assert(cells_at(block_slots(block, width), 0) =~= Seq::empty());
                lemma_overlaid_plain(free, frame);
            }
        },
        _ => {
            assert(cells_at(block_slots(block, width), 0) =~= Seq::empty());
            lemma_overlaid_plain(free, frame);
        },
    }
}

pub proof fn lemma_item_overlaid(item: ItemView, width: nat, frame: u64)
    requires
        item.shown is Whole ==> cursor_countable(item.block, width),
    ensures
        overlaid(
            item_rows(item, width, None),
            cells_at(item_slots(item, width), 0),
            frame,
            item_rows(item, width, Some(frame)),
        ),
{
    match item.shown {
        ShownView::Whole => {
            lemma_block_overlaid(item.block, width, frame);
        },
        _ => {
            assert(cells_at(item_slots(item, width), 0) =~= Seq::empty());
            lemma_overlaid_plain(item_rows(item, width, None), frame);
        },
    }
}

/// The cells of the blocks of a turn.
pub open spec fn items_cells(items: Seq<ItemView>, width: nat) -> Seq<Cell>
    decreases items.len(),
{
    if items.len() == 0 {
        Seq::empty()
    } else {
        items_cells(items.drop_last(), width) + cells_at(
            item_slots(items.last(), width),
            items_rows(items.drop_last(), width, None).len(),
        )
    }
}

/// The cells of the first `n` turns of a session.
pub open spec fn turns_cells(session: SessionState, n: int, width: nat) -> Seq<Cell>
    decreases n,
{
    if n <= 0 {
        Seq::empty()
    } else {
        let turn = session.timeline.turns@[n - 1];
        let pre = turn_pre(turn, session.timeline.number(n - 1), width);
        turns_cells(session, n - 1, width) + moved(
            items_cells(session_items(session, n - 1), width),
            turns_rows(session, n - 1, width, None).len() + pre.len(),
        )
    }
}

/// The cells of a whole session.
pub open spec fn transcript_cells(session: SessionState, width: u16) -> Seq<Cell> {
    let w = drawn_width(width) as nat;
    let head: nat = if banner(session) is Some {
        1
    } else {
        0
    };
    moved(turns_cells(session, session.timeline.turns@.len() as int, w), head)
}

/// Wherever text grows, the line of its cursor can be counted.
pub open spec fn cursors_countable(session: SessionState, width: u16) -> bool {
    forall|i: int, k: int|
        0 <= i < session.timeline.turns@.len() && 0 <= k < session_items(session, i).len()
            ==> cursor_countable(
            (#[trigger] session_items(session, i)[k]).block,
            drawn_width(width) as nat,
        )
}

proof fn lemma_items_overlaid(items: Seq<ItemView>, width: nat, frame: u64)
    requires
        forall|k: int|
            0 <= k < items.len() ==> cursor_countable((#[trigger] items[k]).block, width),
    ensures
        overlaid(
            items_rows(items, width, None),
            items_cells(items, width),
            frame,
            items_rows(items, width, Some(frame)),
        ),
    decreases items.len(),
{
    if items.len() > 0 {
        let rest = items.drop_last();
        assert forall|k: int| 0 <= k < rest.len() implies cursor_countable(
            (#[trigger] rest[k]).block,
            width,
        ) by {
            assert(rest[k] == items[k]);
        }
        lemma_items_overlaid(rest, width, frame);
        assert(cursor_countable(items[items.len() - 1].block, width));
        lemma_item_overlaid(items.last(), width, frame);
        let slots = item_slots(items.last(), width);
        let n = items_rows(rest, width, None).len();
        lemma_overlaid_add(
            items_rows(rest, width, None),
            items_cells(rest, width),
            items_rows(rest, width, Some(frame)),
            item_rows(items.last(), width, None),
            cells_at(slots, 0),
            item_rows(items.last(), width, Some(frame)),
            frame,
        );
        assert(moved(cells_at(slots, 0), n) =~= cells_at(slots, n));
    } else {
        lemma_overlaid_plain(Seq::empty(), frame);
    }
}

proof fn lemma_turn_overlaid(session: SessionState, i: int, width: nat, frame: u64)
    requires
        forall|k: int|
            0 <= k < session_items(session, i).len() ==> cursor_countable(
                (#[trigger] session_items(session, i)[k]).block,
                width,
            ),
    ensures
        ({
            let turn = session.timeline.turns@[i];
            let num = session.timeline.number(i);
            let g = session.expanded_groups@;
            overlaid(
                turn_rows(turn, num, g, width, None),
                moved(
                    items_cells(session_items(session, i), width),
                    turn_pre(turn, num, width).len(),
                ),
                frame,
                turn_rows(turn, num, g, width, Some(frame)),
            )
        }),
{
    let turn = session.timeline.turns@[i];
    let num = session.timeline.number(i);
    let items = session_items(session, i);
    let pre = turn_pre(turn, num, width);
    let post = turn_post(turn.failure, width);
    let cells = items_cells(items, width);
    lemma_items_overlaid(items, width, frame);
    lemma_overlaid_plain(pre, frame);
    lemma_overlaid_plain(post, frame);
    let free = items_rows(items, width, None);
    let baked = items_rows(items, width, Some(frame));
    lemma_overlaid_add(pre, Seq::empty(), pre, free, cells, baked, frame);
    let m = moved(cells, pre.len());
    assert(Seq::<Cell>::empty() + m =~= m);
    lemma_overlaid_add(pre + free, m, pre + baked, post, Seq::empty(), post, frame);
    assert(m + moved(Seq::empty(), (pre + free).len()) =~= m);
}

proof fn lemma_turns_overlaid(session: SessionState, n: int, width: u16, frame: u64)
    requires
        cursors_countable(session, width),
        0 <= n <= session.timeline.turns@.len(),
    ensures
        ({
            let w = drawn_width(width) as nat;
            overlaid(
                turns_rows(session, n, w, None),
                turns_cells(session, n, w),
                frame,
                turns_rows(session, n, w, Some(frame)),
            )
        }),
    decreases n,
{
    let w = drawn_width(width) as nat;
    if n > 0 {
        let turn = session.timeline.turns@[n - 1];
        let num = session.timeline.number(n - 1);
        let g = session.expanded_groups@;
        lemma_turns_overlaid(session, n - 1, width, frame);
        lemma_turn_overlaid(session, n - 1, w, frame);
        let cells = items_cells(session_items(session, n - 1), w);
        let pre = turn_pre(turn, num, w).len();
        let before = turns_rows(session, n - 1, w, None);
        lemma_overlaid_add(
            before,
            turns_cells(session, n - 1, w),
            turns_rows(session, n - 1, w, Some(frame)),
            turn_rows(turn, num, g, w, None),
            moved(cells, pre),
            turn_rows(turn, num, g, w, Some(frame)),
            frame,
        );
        assert(moved(moved(cells, pre), before.len()) =~= moved(cells, before.len() + pre));
    } else {
        lemma_overlaid_plain(Seq::empty(), frame);
    }
}

/// The transcript with its cells blank, and the glyph of a frame over each of
/// them, is the transcript of that frame.
pub proof fn law_glyphs_complete_transcript(session: SessionState, width: u16, frame: u64)
    requires
        cursors_countable(session, width),
    ensures
        overlaid(
            transcript_rows(session, width, None),
            transcript_cells(session, width),
            frame,
            transcript_rows(session, width, Some(frame)),
        ),
{
    let w = drawn_width(width) as nat;
    let n = session.timeline.turns@.len() as int;
    let head = match banner(session) {
        Some(row) => seq![row],
        None => Seq::empty(),
    };
    let hint = if n == 0 {
        seq![empty_row()]
    } else {
        Seq::empty()
    };
    lemma_turns_overlaid(session, n, width, frame);
    let free = turns_rows(session, n, w, None);
    let baked = turns_rows(session, n, w, Some(frame));
    let cells = turns_cells(session, n, w);
    lemma_overlaid_plain(head, frame);
    lemma_overlaid_plain(hint, frame);
    lemma_overlaid_add(head, Seq::empty(), head, free, cells, baked, frame);
    let m = moved(cells, head.len());
    assert(Seq::<Cell>::empty() + m =~= m);
    lemma_overlaid_add(head + free, m, head + baked, hint, Seq::empty(), hint, frame);
    assert(m + moved(Seq::empty(), (head + free).len()) =~= m);
    assert(m =~= transcript_cells(session, width));
}

/// The cells kept with blocks.
pub open spec fn kept_cells(s: Seq<SegView>) -> Seq<Cell>
    decreases s.len(),
{
    if s.len() == 0 {
        Seq::empty()
    } else {
        kept_cells(s.drop_last()) + cells_at(s.last().anim, flat(s.drop_last()).len())
    }
}

pub proof fn lemma_kept_add(a: Seq<SegView>, b: Seq<SegView>)
    ensures
        kept_cells(a + b) == kept_cells(a) + moved(kept_cells(b), flat(a).len()),
    decreases b.len(),
{
    if b.len() == 0 {
        assert(a + b =~= a);
        assert(kept_cells(a) + moved(kept_cells(b), flat(a).len()) =~= kept_cells(a));
    } else {
        assert((a + b).drop_last() =~= a + b.drop_last());
        lemma_kept_add(a, b.drop_last());
        lemma_flat_add(a, b.drop_last());
        assert(kept_cells(a + b) =~= kept_cells(a) + moved(kept_cells(b), flat(a).len()));
    }
}

proof fn lemma_kept_none(s: SegView)
    requires
        s.anim.len() == 0,
    ensures
        kept_cells(seq![s]) == Seq::<Cell>::empty(),
{
    assert(seq![s].drop_last() =~= Seq::empty());
    assert(seq![s].last() == s);
    assert(kept_cells(Seq::empty()) =~= Seq::empty());
    assert(kept_cells(seq![s]) =~= Seq::empty());
}

proof fn lemma_kept_content(content: Seq<SegView>, items: Seq<ItemView>, width: u16)
    requires
        content.len() == items.len(),
        forall|k: int| 0 <= k < items.len() ==> shows(#[trigger] content[k], items[k], width),
    ensures
        flat(content) == items_rows(items, width as nat, None),
        kept_cells(content) == items_cells(items, width as nat),
    decreases items.len(),
{
    if items.len() > 0 {
        assert(shows(content[content.len() - 1], items.last(), width));
        assert forall|k: int| 0 <= k < items.len() - 1 implies shows(
            #[trigger] content.drop_last()[k],
            items.drop_last()[k],
            width,
        ) by {
            assert(shows(content[k], items[k], width));
        }
        lemma_kept_content(content.drop_last(), items.drop_last(), width);
    }
}

proof fn lemma_kept_turn(t: TurnView, session: SessionState, i: int, width: u16)
    requires
        turn_shown(t, session, i, width),
    ensures
        kept_cells(t.parts()) == moved(
            items_cells(session_items(session, i), width as nat),
            turn_pre(session.timeline.turns@[i], session.timeline.number(i), width as nat).len(),
        ),
{
    lemma_kept_content(t.content, session_items(session, i), width);
    lemma_kept_add(seq![t.pre] + t.content, seq![t.post]);
    lemma_kept_add(seq![t.pre], t.content);
    lemma_kept_none(t.pre);
    lemma_kept_none(t.post);
    lemma_flat_one(t.pre);
    let m = moved(kept_cells(t.content), flat(seq![t.pre]).len());
    assert(Seq::<Cell>::empty() + m =~= m);
    assert(m + moved(Seq::empty(), flat(seq![t.pre] + t.content).len()) =~= m);
}

#[verifier::spinoff_prover]
#[verifier::rlimit(50)]
proof fn lemma_kept_turns(turns: Seq<TurnView>, session: SessionState, width: u16)
    requires
        turns.len() <= session.timeline.turns@.len(),
        forall|i: int| 0 <= i < turns.len() ==> turn_shown(#[trigger] turns[i], session, i, width),
    ensures
        kept_cells(all_parts(turns)) == turns_cells(session, turns.len() as int, width as nat),
    decreases turns.len(),
{
    if turns.len() > 0 {
        let n = turns.len() - 1;
        assert forall|i: int| 0 <= i < n implies turn_shown(
            #[trigger] turns.drop_last()[i],
            session,
            i,
            width,
        ) by {
            assert(turn_shown(turns[i], session, i, width));
        }
        lemma_kept_turns(turns.drop_last(), session, width);
        lemma_flat_turns(turns.drop_last(), session, width);
        assert(turn_shown(turns[n as int], session, n as int, width));
        lemma_kept_turn(turns.last(), session, n as int, width);
        lemma_kept_add(all_parts(turns.drop_last()), turns.last().parts());
        let cells = items_cells(session_items(session, n as int), width as nat);
        let pre = turn_pre(
            session.timeline.turns@[n as int],
            session.timeline.number(n as int),
            width as nat,
        ).len();
        let by = turns_rows(session, n as int, width as nat, None).len();
        assert(moved(moved(cells, pre), by) =~= moved(cells, by + pre));
    } else {
        assert(kept_cells(all_parts(turns)) =~= Seq::empty());
    }
}

pub proof fn lemma_kept_parts(c: CacheView, session: SessionState, width: u16)
    requires
        c.turns.len() == session.timeline.turns@.len(),
        forall|i: int|
            0 <= i < c.turns.len() ==> turn_shown(
                #[trigger] c.turns[i],
                session,
                i,
                drawn_width(width),
            ),
        c.banner is Some <==> banner(session) is Some,
        c.banner matches Some(s) ==> s.body.shown().len() == 1 && s.anim.len() == 0,
        c.empty matches Some(s) ==> s.anim.len() == 0,
    ensures
        kept_cells(c.parts()) == transcript_cells(session, width),
{
    let w = drawn_width(width);
    let n = session.timeline.turns@.len() as int;
    let b = c.banner;
    let e = c.empty;
    lemma_kept_turns(c.turns, session, w);
    let cells = turns_cells(session, n, w as nat);
    lemma_kept_add(maybe_seg(b) + all_parts(c.turns), maybe_seg(e));
    lemma_kept_add(maybe_seg(b), all_parts(c.turns));
    assert(kept_cells(maybe_seg(b)) =~= Seq::empty()) by {
        if let Some(s) = b {
            lemma_kept_none(s);
        }
    }
    assert(kept_cells(maybe_seg(e)) =~= Seq::empty()) by {
        if let Some(s) = e {
            lemma_kept_none(s);
        }
    }
    assert(flat(maybe_seg(b)).len() == (if banner(session) is Some {
        1nat
    } else {
        0
    })) by {
        if let Some(s) = b {
            lemma_flat_one(s);
        }
    }
    let m = moved(cells, flat(maybe_seg(b)).len());
    assert(Seq::<Cell>::empty() + m =~= m);
    assert(m + moved(Seq::empty(), flat(maybe_seg(b) + all_parts(c.turns)).len()) =~= m);
    assert(m =~= transcript_cells(session, width));
}

/// A refresh of everything keeps with the lines exactly the cells of the
/// transcript, wherever what was cached is still true.
pub proof fn law_cache_keeps_cells(c: CacheView, session: SessionState, width: u16)
    requires
        session.timeline.turns@.len() <= usize::MAX,
        c.width == drawn_width(width) ==> faithful(c, session, drawn_width(width)),
    ensures
        kept_cells(refreshed(c, session, width, None).0.parts()) == transcript_cells(
            session,
            width,
        ),
{
    let w = drawn_width(width);
    let k = if c.width == w {
        c
    } else {
        CacheView { width: w, banner: None, empty: None, turns: Seq::empty() }
    };
    assert(faithful(k, session, w));
    let n = session.timeline.turns@.len() as int;
    let (lo, hi) = align_range(k, session, None);
    assert(lo == 0 && n <= hi + 1);
    lemma_aligned_turns_on_track(k, session, n, hi, w);
    let a = all_aligned(k, session, None, w);
    assert(turns_on_track(a.turns, session, w));
    lemma_settled_shown(session, a.turns, banner_height(k), w, MAX_LAYOUT_PASSES as nat);
    lemma_kept_parts(refreshed(c, session, width, None).0, session, width);
}

/// After a refresh of everything, the lines in the cache with the glyph of a
/// frame over each kept cell are the transcript of that frame.
pub proof fn law_cache_with_glyphs(c: CacheView, session: SessionState, width: u16, frame: u64)
    requires
        session.timeline.turns@.len() <= usize::MAX,
        cursors_countable(session, width),
        c.width == drawn_width(width) ==> faithful(c, session, drawn_width(width)),
    ensures
        ({
            let parts = refreshed(c, session, width, None).0.parts();
            overlaid(
                flat(parts),
                kept_cells(parts),
                frame,
                transcript_rows(session, width, Some(frame)),
            )
        }),
{
    crate::cache_laws::law_cache_shows_transcript(c, session, width);
    law_cache_keeps_cells(c, session, width);
    law_glyphs_complete_transcript(session, width, frame);
}

} // verus!
