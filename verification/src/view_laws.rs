//! What the screen shows: the lines of the window with the glyphs over its
//! animated cells are the lines of the transcript that stand there.

use crate::anim::AnimSlot;
use crate::cache_laws::{ids_distinct, shows, turn_shown};
use crate::estimates::cap;
use crate::glyph_laws::{
    cells_at, cursor_countable, cursors_countable, glyph_over, glyph_put, is_cell, kept_cells,
    law_glyphs_complete_transcript, lemma_item_overlaid, lemma_kept_add, lemma_kept_parts, moved,
    overlaid, row_overlaid, transcript_cells, Cell,
};
use crate::refresh::{refreshed, session_items};
use crate::render_line::SpanView;
use crate::render_transcript::{drawn_width, transcript_rows};
use crate::scroll_laws::{
    agrees, all_agree, cache_right, full_turns, law_window_shows_transcript, lemma_cache_agrees,
    lemma_flat_heights, lemma_full_shown, lemma_window_drawn,
};
use crate::seg::{
    all_parts, covered, flat, lemma_flat_add, lemma_flat_one, maybe_seg, slots_between,
    slots_shown, window_rows, CacheView, SegView, TurnView, ViewportSlot,
};
use crate::session::SessionState;
use vstd::prelude::*;

verus! {

/// The cells between the lines `top` and `bottom` and left of column `width`.
pub open spec fn cells_between(cells: Seq<Cell>, top: nat, bottom: nat, width: nat) -> Seq<
    ViewportSlot,
>
    decreases cells.len(),
{
    if cells.len() == 0 {
        Seq::empty()
    } else {
        let before = cells_between(cells.drop_last(), top, bottom, width);
        let cell = cells.last();
        if top <= cell.row < bottom && cell.col < width {
            before.push(
                ViewportSlot { row: (cell.row - top) as u16, col: cell.col, kind: cell.kind },
            )
        } else {
            before
        }
    }
}

/// The animated cells of a window, as cells of its lines.
pub open spec fn view_cells(slots: Seq<ViewportSlot>) -> Seq<Cell> {
    Seq::new(
        slots.len(),
        |k: int| Cell { row: slots[k].row as nat, col: slots[k].col, kind: slots[k].kind },
    )
}

/// Cell `k` is the cell `slot` of the window from line `top` on.
spec fn stands(cells: Seq<Cell>, k: int, slot: ViewportSlot, top: nat) -> bool {
    &&& 0 <= k < cells.len()
    &&& cells[k].row == top + slot.row
    &&& cells[k].col == slot.col
    &&& cells[k].kind == slot.kind
}

proof fn lemma_between(cells: Seq<Cell>, top: nat, bottom: nat, width: nat)
    requires
        bottom <= top + 0x1_0000,
        forall|i: int, j: int|
            0 <= i < j < cells.len() ==> (#[trigger] cells[i]).row < (#[trigger] cells[j]).row,
    ensures
        ({
            let v = cells_between(cells, top, bottom, width);
            &&& forall|j: int|
                0 <= j < v.len() ==> top + (#[trigger] v[j]).row < bottom && exists|k: int| #[trigger]
                    stands(cells, k, v[j], top)
            &&& forall|i: int, j: int|
                0 <= i < j < v.len() ==> (#[trigger] v[i]).row < (#[trigger] v[j]).row
            &&& forall|k: int|
                0 <= k < cells.len() && top <= (#[trigger] cells[k]).row < bottom && cells[k].col
                    < width ==> exists|j: int|
                    0 <= j < v.len() && #[trigger] stands(cells, k, v[j], top)
        }),
    decreases cells.len(),
{
    if cells.len() > 0 {
        let rest = cells.drop_last();
        let n = cells.len() - 1;
        let u = cells_between(rest, top, bottom, width);
        let v = cells_between(cells, top, bottom, width);
        assert forall|i: int, j: int| 0 <= i < j < rest.len() implies (#[trigger] rest[i]).row < (
        #[trigger] rest[j]).row by {
            assert(cells[i].row < cells[j].row);
        }
        lemma_between(rest, top, bottom, width);
        let seen = top <= cells[n].row < bottom && cells[n].col < width;
        if seen {
            assert(v[u.len() as int].row == cells[n].row - top);
        }
        assert forall|j: int| 0 <= j < v.len() implies top + (#[trigger] v[j]).row < bottom
            && exists|k: int| #[trigger] stands(cells, k, v[j], top) by {
            if j < u.len() {
                assert(v[j] == u[j]);
                let k = choose|k: int| #[trigger] stands(rest, k, u[j], top);
                assert(rest[k] == cells[k]);
                assert(stands(cells, k, v[j], top));
            } else {
                assert(stands(cells, n, v[j], top));
            }
        }
        assert forall|i: int, j: int| 0 <= i < j < v.len() implies (#[trigger] v[i]).row < (
        #[trigger] v[j]).row by {
            assert(v[i] == u[i]);
            if j < u.len() {
                assert(v[j] == u[j]);
            } else {
                let k = choose|k: int| #[trigger] stands(rest, k, u[i], top);
                assert(rest[k] == cells[k]);
                assert(cells[k].row < cells[n].row);
            }
        }
        assert forall|k: int|
            0 <= k < cells.len() && top <= (#[trigger] cells[k]).row < bottom && cells[k].col
                < width implies exists|j: int|
            0 <= j < v.len() && #[trigger] stands(cells, k, v[j], top) by {
            if k < n {
                assert(rest[k] == cells[k]);
                let j = choose|j: int| 0 <= j < u.len() && #[trigger] stands(rest, k, u[j], top);
                assert(v[j] == u[j]);
                assert(stands(cells, k, v[j], top));
            } else {
                assert(stands(cells, k, v[u.len() as int], top));
            }
        }
    }
}

/// A part of lines with glyphs over their cells is that part of the lines with
/// glyphs over the cells that lie in it.
proof fn lemma_overlaid_part(
    free: Seq<Seq<SpanView>>,
    cells: Seq<Cell>,
    frame: u64,
    baked: Seq<Seq<SpanView>>,
    top: nat,
    bottom: nat,
    width: nat,
)
    requires
        overlaid(free, cells, frame, baked),
        top <= bottom <= free.len(),
        bottom <= top + 0x1_0000,
        forall|k: int| 0 <= k < cells.len() ==> (#[trigger] cells[k]).col < width,
    ensures
        overlaid(
            free.subrange(top as int, bottom as int),
            view_cells(cells_between(cells, top, bottom, width)),
            frame,
            baked.subrange(top as int, bottom as int),
        ),
{
    lemma_between(cells, top, bottom, width);
    let v = cells_between(cells, top, bottom, width);
    let seen = view_cells(v);
    let f = free.subrange(top as int, bottom as int);
    let b = baked.subrange(top as int, bottom as int);
    assert forall|k: int| 0 <= k < seen.len() implies (#[trigger] seen[k]).row < f.len() by {
        assert(top + v[k].row < bottom);
    }
    assert forall|i: int, j: int| 0 <= i < j < seen.len() implies (#[trigger] seen[i]).row < (
    #[trigger] seen[j]).row by {
        assert(v[i].row < v[j].row);
    }
    assert forall|r: int| 0 <= r < f.len() implies row_overlaid(
        f[r],
        seen,
        r,
        frame,
        #[trigger] b[r],
    ) by {
        let q = top + r;
        assert(row_overlaid(free[q], cells, q, frame, baked[q]));
        if exists|k: int|
            0 <= k < cells.len() && (#[trigger] cells[k]).row == q && glyph_over(
                free[q],
                cells[k],
                frame,
                baked[q],
            ) {
            let k = choose|k: int|
                0 <= k < cells.len() && (#[trigger] cells[k]).row == q && glyph_over(
                    free[q],
                    cells[k],
                    frame,
                    baked[q],
                );
            let j = choose|j: int| 0 <= j < v.len() && #[trigger] stands(cells, k, v[j], top);
            assert(seen[j].row == r);
            let g = crate::anim::glyph(cells[k].kind, frame as int)->0;
            let (x, y) = choose|x: int, y: int|
                #[trigger] is_cell(free[q], x, y, cells[k].col) && baked[q] == glyph_put(
                    free[q],
                    x,
                    y,
                    g,
                );
            assert(is_cell(f[r], x, y, seen[j].col));
            assert(glyph_over(f[r], seen[j], frame, b[r]));
        } else {
            assert forall|j: int| 0 <= j < seen.len() implies (#[trigger] seen[j]).row != r by {
                let k = choose|k: int| #[trigger] stands(cells, k, v[j], top);
                assert(cells[k].row != q);
            }
        }
    }
}

proof fn lemma_between_add(a: Seq<Cell>, b: Seq<Cell>, top: nat, bottom: nat, width: nat)
    ensures
        cells_between(a + b, top, bottom, width) == cells_between(a, top, bottom, width)
            + cells_between(b, top, bottom, width),
    decreases b.len(),
{
    if b.len() == 0 {
        assert(a + b =~= a);
        assert(cells_between(b, top, bottom, width) =~= Seq::empty());
    } else {
        assert((a + b).drop_last() =~= a + b.drop_last());
        lemma_between_add(a, b.drop_last(), top, bottom, width);
        assert(cells_between(a + b, top, bottom, width) =~= cells_between(a, top, bottom, width)
            + cells_between(b, top, bottom, width));
    }
}

proof fn lemma_none_between(cells: Seq<Cell>, top: nat, bottom: nat, width: nat)
    requires
        forall|k: int|
            0 <= k < cells.len() ==> (#[trigger] cells[k]).row < top || cells[k].row >= bottom,
    ensures
        cells_between(cells, top, bottom, width) == Seq::<ViewportSlot>::empty(),
    decreases cells.len(),
{
    if cells.len() > 0 {
        let rest = cells.drop_last();
        assert forall|k: int| 0 <= k < rest.len() implies (#[trigger] rest[k]).row < top
            || rest[k].row >= bottom by {
            assert(rest[k] == cells[k]);
        }
        lemma_none_between(rest, top, bottom, width);
        assert(cells[cells.len() - 1] == cells.last());
    }
}

proof fn lemma_slots_between(
    anim: Seq<AnimSlot>,
    start: nat,
    top: nat,
    bottom: nat,
    width: nat,
)
    ensures
        slots_between(anim, start, top, bottom, width) == cells_between(
            cells_at(anim, start),
            top,
            bottom,
            width,
        ),
    decreases anim.len(),
{
    if anim.len() > 0 {
        lemma_slots_between(anim.drop_last(), start, top, bottom, width);
        assert(cells_at(anim, start).drop_last() =~= cells_at(anim.drop_last(), start));
    }
}

/// The animated cells of a block are in its lines.
spec fn inside(s: SegView) -> bool {
    forall|j: int| 0 <= j < s.anim.len() ==> (#[trigger] s.anim[j]).row < s.body.shown().len()
}

spec fn all_inside(s: Seq<SegView>) -> bool {
    forall|k: int| 0 <= k < s.len() ==> inside(#[trigger] s[k])
}

proof fn lemma_kept_first(s: Seq<SegView>)
    requires
        s.len() > 0,
    ensures
        kept_cells(s) == cells_at(s[0].anim, 0) + moved(
            kept_cells(s.drop_first()),
            s[0].body.shown().len(),
        ),
        flat(s) == s[0].body.shown() + flat(s.drop_first()),
{
    let one = seq![s[0]];
    assert(one + s.drop_first() =~= s);
    lemma_kept_add(one, s.drop_first());
    lemma_flat_add(one, s.drop_first());
    lemma_flat_one(s[0]);
    assert(one.drop_last() =~= Seq::empty());
    assert(one.last() == s[0]);
    assert(kept_cells(one.drop_last()) =~= Seq::empty());
    assert(flat(one.drop_last()) =~= Seq::empty());
    assert(kept_cells(one) =~= cells_at(s[0].anim, 0));
}

/// The cells that a window finds among blocks that have all their lines.
proof fn lemma_slots_of_drawn(s: Seq<SegView>, start: nat, top: nat, bottom: nat, width: nat)
    requires
        all_inside(s),
        forall|k: int| 0 <= k < s.len() ==> (#[trigger] s[k]).body.rendered(),
        start + flat(s).len() <= usize::MAX,
    ensures
        slots_shown(s, start, top, bottom, width) == cells_between(
            moved(kept_cells(s), start),
            top,
            bottom,
            width,
        ),
    decreases s.len(),
{
    let cells = moved(kept_cells(s), start);
    if s.len() == 0 {
        assert(cells =~= Seq::empty());
    } else if start >= bottom {
        lemma_none_between(cells, top, bottom, width);
    } else {
        let rest = s.drop_first();
        let n = s[0].body.shown().len();
        assert(s[0].body.rendered() && inside(s[0]));
        assert forall|k: int| 0 <= k < rest.len() implies inside(#[trigger] rest[k])
            && rest[k].body.rendered() by {
            assert(rest[k] == s[k + 1]);
        }
        lemma_kept_first(s);
        assert(s[0].body.height() == n);
        lemma_slots_of_drawn(rest, start + n, top, bottom, width);
        let here = cells_at(s[0].anim, start);
        let later = moved(kept_cells(rest), start + n);
        assert(cells =~= here + later);
        lemma_between_add(here, later, top, bottom, width);
        lemma_slots_between(s[0].anim, start, top, bottom, width);
        if start + n <= top {
            lemma_none_between(here, top, bottom, width);
        }
    }
}

/// A window finds the same cells among blocks of which only those in it have
/// their lines.
proof fn lemma_slots_agree(
    s: Seq<SegView>,
    f: Seq<SegView>,
    start: nat,
    top: nat,
    bottom: nat,
    width: nat,
)
    requires
        all_agree(s, f),
        all_inside(f),
        start + flat(f).len() <= usize::MAX,
        covered(s, start as int, top as int, bottom as int),
    ensures
        slots_shown(s, start, top, bottom, width) == slots_shown(f, start, top, bottom, width),
    decreases s.len(),
{
    if s.len() > 0 && start < bottom {
        assert(agrees(s[0], f[0]) && inside(f[0]));
        let rest = s.drop_first();
        let more = f.drop_first();
        assert forall|k: int| 0 <= k < rest.len() implies agrees(#[trigger] rest[k], more[k]) by {
            assert(agrees(s[k + 1], f[k + 1]));
        }
        assert forall|k: int| 0 <= k < more.len() implies inside(#[trigger] more[k]) by {
            assert(more[k] == f[k + 1]);
        }
        lemma_kept_first(f);
        let h = s[0].body.height();
        assert(h == f[0].body.shown().len());
        lemma_slots_agree(rest, more, start + h, top, bottom, width);
        if h == 0 {
            if f[0].anim.len() > 0 {
                assert(f[0].anim[0].row < f[0].body.shown().len());
            }
            assert(slots_between(f[0].anim, start, top, bottom, width) =~= Seq::empty());
            if s[0].body.rendered() {
                assert(s[0].anim == f[0].anim);
            }
        }
    }
}

proof fn lemma_inside_add(a: Seq<SegView>, b: Seq<SegView>)
    requires
        all_inside(a),
        all_inside(b),
    ensures
        all_inside(a + b),
{
    assert forall|k: int| 0 <= k < (a + b).len() implies inside(#[trigger] (a + b)[k]) by {
        if k < a.len() {
            assert(inside(a[k]));
        } else {
            assert(inside(b[k - a.len()]));
        }
    }
}

proof fn lemma_turns_inside(turns: Seq<TurnView>, session: SessionState, width: u16)
    requires
        turns.len() <= session.timeline.turns@.len(),
        cursors_countable(session, width),
        forall|i: int|
            0 <= i < turns.len() ==> turn_shown(
                #[trigger] turns[i],
                session,
                i,
                drawn_width(width),
            ),
    ensures
        all_inside(all_parts(turns)),
    decreases turns.len(),
{
    if turns.len() > 0 {
        let w = drawn_width(width);
        let n = turns.len() - 1;
        let t = turns[n];
        let rest = turns.drop_last();
        let items = session_items(session, n);
        assert forall|i: int| 0 <= i < rest.len() implies turn_shown(
            #[trigger] rest[i],
            session,
            i,
            w,
        ) by {
            assert(rest[i] == turns[i]);
        }
        lemma_turns_inside(rest, session, width);
        assert(turn_shown(t, session, n, w));
        assert forall|k: int| 0 <= k < t.content.len() implies inside(#[trigger] t.content[k]) by {
            let s = t.content[k];
            assert(shows(s, items[k], w));
            assert(cursor_countable(items[k].block, w as nat));
            lemma_item_overlaid(items[k], w as nat, 0);
            assert forall|j: int| 0 <= j < s.anim.len() implies (#[trigger] s.anim[j]).row
                < s.body.shown().len() by {
                assert(cells_at(s.anim, 0)[j].row == s.anim[j].row);
            }
        }
        lemma_inside_add(seq![t.pre], t.content);
        lemma_inside_add(seq![t.pre] + t.content, seq![t.post]);
        lemma_inside_add(all_parts(rest), t.parts());
    }
}

/// Wherever a session is scrolled to, the lines of the window with the glyph of a
/// frame over each of its animated cells are the lines of the transcript of that
/// frame that stand there. The window has no more lines than a screen can have,
/// and no animated cell lies right of its edge.
pub proof fn law_window_with_glyphs(
    c: CacheView,
    session: SessionState,
    width: u16,
    top: usize,
    height: usize,
    frame: u64,
)
    requires
        cache_right(c, session, drawn_width(width)),
        ids_distinct(session),
        session.timeline.turns@.len() <= usize::MAX,
        transcript_rows(session, width, None).len() <= usize::MAX,
        top + height <= transcript_rows(session, width, None).len(),
        height <= u16::MAX,
        cursors_countable(session, width),
        forall|k: int|
            0 <= k < transcript_cells(session, width).len() ==> (#[trigger] transcript_cells(
                session,
                width,
            )[k]).col < drawn_width(width),
    ensures
        ({
            let next = refreshed(c, session, width, Some((top, height))).0;
            overlaid(
                window_rows(next.parts(), top as nat, height as nat),
                view_cells(
                    slots_shown(
                        next.parts(),
                        0,
                        top as nat,
                        cap((top + height) as nat),
                        next.width as nat,
                    ),
                ),
                frame,
                transcript_rows(session, width, Some(frame)).subrange(top as int, top + height),
            )
        }),
{
    let w = drawn_width(width);
    let bottom = (top + height) as nat;
    let next = refreshed(c, session, width, Some((top, height))).0;
    law_window_shows_transcript(c, session, width, top, height);
    lemma_window_drawn(c, session, width, top, height);
    lemma_cache_agrees(next, session, width);
    lemma_full_shown(next.turns, session, w);
    let full = full_turns(next.turns, session, w);
    let f = CacheView { turns: full, ..next };
    lemma_kept_parts(f, session, width);
    lemma_turns_inside(full, session, width);
    lemma_inside_add(maybe_seg(f.banner), all_parts(full));
    lemma_inside_add(maybe_seg(f.banner) + all_parts(full), maybe_seg(f.empty));
    lemma_flat_heights(f.parts());
    lemma_slots_agree(next.parts(), f.parts(), 0, top as nat, bottom, w as nat);
    lemma_slots_of_drawn(f.parts(), 0, top as nat, bottom, w as nat);
    let cells = transcript_cells(session, width);
    assert(moved(cells, 0) =~= cells);
    law_glyphs_complete_transcript(session, width, frame);
    lemma_overlaid_part(
        transcript_rows(session, width, None),
        cells,
        frame,
        transcript_rows(session, width, Some(frame)),
        top as nat,
        bottom,
        w as nat,
    );
}

} // verus!
