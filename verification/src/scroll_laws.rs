//! What scrolling shows: the lines of the transcript, wherever the window is.

use crate::anim::AnimSlot;
use crate::align::{align_items, item_ids, known_ids, known_slots, slots_of};
use crate::cache_laws::{
    distinct, faithful, ids_distinct, item_key, lemma_aligned_turns_keyed,
    lemma_aligned_turns_on_track, lemma_covered_add, lemma_covered_drawn, lemma_covered_outside,
    lemma_drawn_shows, lemma_flat_turns, lemma_height_single, lemma_last_index_distinct,
    lemma_outside_window, lemma_settled_ready, lemma_settled_shown, lemma_turn_top_exact,
    shows, turn_keyed, turn_ready, turn_shown, turns_on_track,
};
use crate::estimates::{block_estimate, cap};
use crate::plan::ItemView;
use crate::refresh::{
    align_range, aligned_at, aligned_turns, all_aligned, banner_height, drawn_turn,
    evicted_turn, in_window, keep_range, laid_out, missing, refreshed, session_items, settled,
    shown_turns, turn_ids, window_filled, MAX_LAYOUT_PASSES,
};
use crate::render_line::SpanView;
use crate::render_transcript::{
    banner, banner_key, block_rows, drawn_width, empty_row, item_rows, item_slots,
    lemma_stream_ends_in_cursor, transcript_rows,
    turn_post, turn_pre, turns_rows,
};
use crate::seg::{
    all_parts, countable, covered, flat, geometry, geometry_all, height_of,
    law_window_is_a_slice, lemma_flat_add, lemma_flat_one, lemma_height_add, maybe_seg,
    seg_of_lines, window_rows, BodyView, CacheView, SegView, TurnView,
};
use crate::session::SessionState;
use crate::timeline::Block;
use crate::tool_card::lemma_card_starts_with_head;
use vstd::prelude::*;

verus! {

/// A block of the right height, with the right lines and animated cells where it
/// has any.
pub open spec fn right(s: SegView, rows: Seq<Seq<SpanView>>, slots: Seq<AnimSlot>) -> bool {
    &&& s.body.height() == cap(rows.len())
    &&& s.body.rendered() ==> s.body.shown() == rows
    &&& s.anim == if s.body.rendered() {
        slots
    } else {
        Seq::empty()
    }
}

/// A block of the right height, with the lines and cells of its item where it has
/// any.
pub open spec fn item_right(s: SegView, item: ItemView, width: u16) -> bool {
    right(s, item_rows(item, width as nat, None), item_slots(item, width as nat))
}

/// A turn under its present keys, every block of it of the right height and
/// with the right lines where it has any.
pub open spec fn turn_right(t: TurnView, session: SessionState, i: int, width: u16) -> bool {
    let turn = session.timeline.turns@[i];
    let items = session_items(session, i);
    &&& turn_keyed(t, session, i, width)
    &&& right(t.pre, turn_pre(turn, session.timeline.number(i), width as nat), Seq::empty())
    &&& right(t.post, turn_post(turn.failure, width as nat), Seq::empty())
    &&& forall|k: int|
        0 <= k < items.len() ==> item_right(#[trigger] t.content[k], items[k], width)
}

/// All turns of a session, each of the right heights.
pub open spec fn turns_right(turns: Seq<TurnView>, session: SessionState, width: u16) -> bool {
    turns.len() == session.timeline.turns@.len() && forall|i: int|
        0 <= i < turns.len() ==> turn_right(#[trigger] turns[i], session, i, width)
}

/// A cache of a session as it is: everything under its present key and of the
/// right height, with the right lines wherever there are lines.
pub open spec fn cache_right(c: CacheView, session: SessionState, width: u16) -> bool {
    &&& c.width == width
    &&& turns_right(c.turns, session, width)
    &&& match banner(session) {
        Some(row) => c.banner matches Some(s) && s.key == banner_key(session, width)
            && s.body.rendered() && s.body.shown() == seq![row] && s.anim == Seq::<AnimSlot>::empty(),
        None => c.banner is None,
    }
    &&& if session.timeline.turns@.len() == 0 {
        c.empty matches Some(s) && s.body.rendered() && s.body.shown() == seq![empty_row()]
            && s.anim == Seq::<AnimSlot>::empty()
    } else {
        c.empty is None
    }
}

proof fn lemma_right_items(
    t: TurnView,
    session: SessionState,
    i: int,
    width: u16,
    items: Seq<ItemView>,
)
    requires
        turn_right(t, session, i, width),
        distinct(t.ids),
        items.len() <= session_items(session, i).len(),
        items == session_items(session, i).take(items.len() as int),
    ensures
        ({
            let a = align_items(items, known_ids(t), known_slots(t), width);
            &&& a.content.len() == items.len()
            &&& a.slots.len() == t.content.len()
            &&& forall|k: int|
                items.len() <= k < t.content.len() ==> #[trigger] a.slots[k] == Some(t.content[k])
            &&& forall|k: int|
                0 <= k < items.len() ==> (#[trigger] a.content[k]).key == item_key(items[k], width)
                    && item_right(a.content[k], items[k], width)
        }),
    decreases items.len(),
{
    let all = session_items(session, i);
    if items.len() > 0 {
        let n = items.len() - 1;
        assert(items.drop_last() =~= all.take(n as int));
        lemma_right_items(t, session, i, width, items.drop_last());
        let p = align_items(items.drop_last(), known_ids(t), known_slots(t), width);
        assert(items.last() == all[n as int]);
        assert(known_ids(t)[n as int] == items.last().block.block_id@);
        lemma_last_index_distinct(known_ids(t), n as int);
        assert(p.slots[n as int] == Some(t.content[n as int]));
        let a = align_items(items, known_ids(t), known_slots(t), width);
        assert(t.content[n as int].key == item_key(all[n as int], width));
        assert(item_right(t.content[n as int], all[n as int], width));
        assert forall|k: int| 0 <= k < items.len() implies (#[trigger] a.content[k]).key == item_key(
            items[k],
            width,
        ) && item_right(a.content[k], items[k], width) by {
            if k < n {
                assert(a.content[k] == p.content[k]);
                assert(items.drop_last()[k] == items[k]);
            }
        }
    }
}

proof fn lemma_right_aligned(t: TurnView, session: SessionState, i: int, lo: int, hi: int, width: u16)
    requires
        0 <= i < session.timeline.turns@.len(),
        turn_right(t, session, i, width),
        distinct(t.ids),
    ensures
        turn_right(aligned_at(session, i, lo, hi, width, Some(t)).0, session, i, width),
{
    let items = session_items(session, i);
    assert(items =~= items.take(items.len() as int));
    lemma_right_items(t, session, i, width, items);
}

proof fn lemma_right_turns(
    turns: Seq<TurnView>,
    session: SessionState,
    n: int,
    lo: int,
    hi: int,
    width: u16,
)
    requires
        0 <= n <= session.timeline.turns@.len(),
        turns_right(turns, session, width),
        distinct(turn_ids(turns)),
        forall|i: int| 0 <= i < turns.len() ==> distinct((#[trigger] turns[i]).ids),
    ensures
        ({
            let a = aligned_turns(session, n, lo, hi, width, turn_ids(turns), slots_of(turns));
            &&& a.turns.len() == n
            &&& a.slots.len() == turns.len()
            &&& forall|k: int| n <= k < turns.len() ==> #[trigger] a.slots[k] == Some(turns[k])
            &&& forall|i: int| 0 <= i < n ==> turn_right(#[trigger] a.turns[i], session, i, width)
        }),
    decreases n,
{
    if n > 0 {
        lemma_right_turns(turns, session, n - 1, lo, hi, width);
        let ids = turn_ids(turns);
        let p = aligned_turns(session, n - 1, lo, hi, width, ids, slots_of(turns));
        let t = turns[n - 1];
        assert(turn_right(t, session, n - 1, width));
        assert(distinct(t.ids));
        assert(ids[n - 1] == session.timeline.turns@[n - 1].turn_id@);
        lemma_last_index_distinct(ids, n - 1);
        assert(p.slots[n - 1] == Some(t));
        lemma_right_aligned(t, session, n - 1, lo, hi, width);
        let a = aligned_turns(session, n, lo, hi, width, ids, slots_of(turns));
        assert forall|i: int| 0 <= i < n implies turn_right(
            #[trigger] a.turns[i],
            session,
            i,
            width,
        ) by {
            if i < n - 1 {
                assert(a.turns[i] == p.turns[i]);
            }
        }
    }
}

proof fn lemma_right_drawn(t: TurnView, session: SessionState, i: int, width: u16)
    requires
        width > 0,
        turn_right(t, session, i, width),
    ensures
        ({
            let d = drawn_turn(
                t,
                session.timeline.turns@[i],
                session.timeline.number(i),
                session_items(session, i),
                width,
            );
            &&& turn_right(d, session, i, width)
            &&& forall|k: int| 0 <= k < d.parts().len() ==> !missing(#[trigger] d.parts()[k])
        }),
{
    let items = session_items(session, i);
    let d = drawn_turn(
        t,
        session.timeline.turns@[i],
        session.timeline.number(i),
        items,
        width,
    );
    assert forall|k: int| 0 <= k < items.len() implies item_right(#[trigger] d.content[k], items[k], width) && d.content[k].key == item_key(items[k], width) && !missing(d.content[k]) by {
        assert(item_right(t.content[k], items[k], width));
        assert(t.content[k].key == item_key(items[k], width));
        lemma_drawn_shows(t.content[k].key, items[k], width);
    }
    assert forall|k: int| 0 <= k < d.parts().len() implies !missing(#[trigger] d.parts()[k]) by {
        if 0 < k < d.parts().len() - 1 {
            assert(d.parts()[k] == d.content[k - 1]);
        }
    }
}

proof fn lemma_right_evicted(t: TurnView, session: SessionState, i: int, width: u16)
    requires
        turn_right(t, session, i, width),
    ensures
        turn_right(evicted_turn(t), session, i, width),
{
    let items = session_items(session, i);
    let e = evicted_turn(t);
    assert forall|k: int| 0 <= k < items.len() implies item_right(#[trigger] e.content[k], items[k], width) && e.content[k].key == item_key(items[k], width) by {
        assert(item_right(t.content[k], items[k], width));
        assert(t.content[k].key == item_key(items[k], width));
    }
}

proof fn lemma_right_settled(
    session: SessionState,
    turns: Seq<TurnView>,
    base: nat,
    viewport: Option<(usize, usize)>,
    width: u16,
    n: nat,
)
    requires
        width > 0,
        turns_right(turns, session, width),
    ensures
        turns_right(settled(session, turns, base, viewport, width, n).0, session, width),
    decreases n,
{
    if n > 0 {
        let (lo, hi) = keep_range(turns, base, viewport);
        let next = laid_out(session, turns, lo, hi, width);
        assert forall|i: int| 0 <= i < next.len() implies turn_right(
            #[trigger] next[i],
            session,
            i,
            width,
        ) by {
            assert(turn_right(turns[i], session, i, width));
            lemma_right_evicted(turns[i], session, i, width);
            lemma_right_drawn(turns[i], session, i, width);
        }
        lemma_right_settled(session, next, base, viewport, width, (n - 1) as nat);
    }
}

proof fn lemma_same_heights(a: Seq<SegView>, b: Seq<SegView>)
    requires
        a.len() == b.len(),
        forall|k: int| 0 <= k < a.len() ==> (#[trigger] a[k]).body.height() == b[k].body.height(),
    ensures
        height_of(a) == height_of(b),
    decreases a.len(),
{
    if a.len() > 0 {
        assert forall|k: int| 0 <= k < a.len() - 1 implies (#[trigger] a.drop_last()[k]).body.height()
            == b.drop_last()[k].body.height() by {
            assert(a[k].body.height() == b[k].body.height());
        }
        lemma_same_heights(a.drop_last(), b.drop_last());
        assert(a[a.len() - 1].body.height() == b[a.len() - 1].body.height());
    }
}

proof fn lemma_right_height(a: TurnView, b: TurnView, session: SessionState, i: int, width: u16)
    requires
        turn_right(a, session, i, width),
        turn_right(b, session, i, width),
    ensures
        height_of(a.parts()) == height_of(b.parts()),
{
    assert forall|k: int| 0 <= k < a.parts().len() implies (#[trigger] a.parts()[k]).body.height()
        == b.parts()[k].body.height() by {
        if 0 < k < a.parts().len() - 1 {
            assert(a.parts()[k] == a.content[k - 1]);
            assert(b.parts()[k] == b.content[k - 1]);
            assert(item_right(a.content[k - 1], session_items(session, i)[k - 1], width));
            assert(item_right(b.content[k - 1], session_items(session, i)[k - 1], width));
        }
    }
    lemma_same_heights(a.parts(), b.parts());
}

proof fn lemma_right_heights(
    a: Seq<TurnView>,
    b: Seq<TurnView>,
    session: SessionState,
    width: u16,
    n: int,
)
    requires
        turns_right(a, session, width),
        turns_right(b, session, width),
        0 <= n <= a.len(),
    ensures
        height_of(all_parts(a.take(n))) == height_of(all_parts(b.take(n))),
    decreases n,
{
    if n > 0 {
        lemma_right_heights(a, b, session, width, n - 1);
        assert(a.take(n).drop_last() =~= a.take(n - 1));
        assert(b.take(n).drop_last() =~= b.take(n - 1));
        assert(turn_right(a[n - 1], session, n - 1, width));
        assert(turn_right(b[n - 1], session, n - 1, width));
        lemma_right_height(a[n - 1], b[n - 1], session, n - 1, width);
        lemma_height_add(all_parts(a.take(n - 1)), a[n - 1].parts());
        lemma_height_add(all_parts(b.take(n - 1)), b[n - 1].parts());
    } else {
        assert(a.take(0) =~= b.take(0));
    }
}

/// A turn with all its lines, under the keys of `t`.
pub open spec fn full_turn(t: TurnView, session: SessionState, i: int, width: u16) -> TurnView {
    let turn = session.timeline.turns@[i];
    let items = session_items(session, i);
    TurnView {
        pre: seg_of_lines(
            t.pre.key,
            turn_pre(turn, session.timeline.number(i), width as nat),
        ),
        content: Seq::new(
            t.content.len(),
            |k: int|
                SegView {
                    key: t.content[k].key,
                    body: BodyView::Lines(item_rows(items[k], width as nat, None)),
                    anim: item_slots(items[k], width as nat),
                    stream: None,
                },
        ),
        post: seg_of_lines(t.post.key, turn_post(turn.failure, width as nat)),
        ..t
    }
}

/// Turns with all their lines.
pub open spec fn full_turns(turns: Seq<TurnView>, session: SessionState, width: u16) -> Seq<TurnView> {
    Seq::new(turns.len(), |i: int| full_turn(turns[i], session, i, width))
}

/// `f` has its lines, and `s` agrees with it.
pub open spec fn agrees(s: SegView, f: SegView) -> bool {
    &&& f.body.rendered()
    &&& s.body.height() == f.body.height()
    &&& s.body.rendered() ==> s.body.shown() == f.body.shown() && s.anim == f.anim
}

/// Blocks that agree with blocks that have their lines.
pub open spec fn all_agree(s: Seq<SegView>, f: Seq<SegView>) -> bool {
    s.len() == f.len() && forall|k: int| 0 <= k < s.len() ==> agrees(#[trigger] s[k], f[k])
}

proof fn lemma_agree_add(a: Seq<SegView>, b: Seq<SegView>, c: Seq<SegView>, d: Seq<SegView>)
    requires
        all_agree(a, c),
        all_agree(b, d),
    ensures
        all_agree(a + b, c + d),
{
    assert forall|k: int| 0 <= k < (a + b).len() implies agrees(#[trigger] (a + b)[k], (c + d)[k]) by {
        if k < a.len() {
            assert(agrees(a[k], c[k]));
        } else {
            assert(agrees(b[k - a.len()], d[k - a.len()]));
        }
    }
}

proof fn lemma_turn_agrees(t: TurnView, session: SessionState, i: int, width: u16)
    requires
        turn_right(t, session, i, width),
    ensures
        all_agree(t.parts(), full_turn(t, session, i, width).parts()),
        turn_shown(full_turn(t, session, i, width), session, i, width),
        turn_right(full_turn(t, session, i, width), session, i, width),
{
    let items = session_items(session, i);
    let f = full_turn(t, session, i, width);
    assert forall|k: int| 0 <= k < items.len() implies item_right(#[trigger] t.content[k], items[k], width) && item_right(f.content[k], items[k], width) && f.content[k].key
        == item_key(items[k], width) by {
        assert(t.content[k].key == item_key(items[k], width));
    }
    assert forall|k: int| 0 <= k < t.parts().len() implies agrees(
        #[trigger] t.parts()[k],
        f.parts()[k],
    ) by {
        if 0 < k < t.parts().len() - 1 {
            assert(t.parts()[k] == t.content[k - 1]);
            assert(f.parts()[k] == f.content[k - 1]);
            assert(item_right(t.content[k - 1], items[k - 1], width));
        }
    }
}

proof fn lemma_turns_agree(turns: Seq<TurnView>, session: SessionState, width: u16, n: int)
    requires
        turns_right(turns, session, width),
        0 <= n <= turns.len(),
    ensures
        all_agree(
            all_parts(turns.take(n)),
            all_parts(full_turns(turns, session, width).take(n)),
        ),
    decreases n,
{
    let full = full_turns(turns, session, width);
    if n > 0 {
        lemma_turns_agree(turns, session, width, n - 1);
        assert(turns.take(n).drop_last() =~= turns.take(n - 1));
        assert(full.take(n).drop_last() =~= full.take(n - 1));
        assert(turn_right(turns[n - 1], session, n - 1, width));
        lemma_turn_agrees(turns[n - 1], session, n - 1, width);
        lemma_agree_add(
            all_parts(turns.take(n - 1)),
            turns[n - 1].parts(),
            all_parts(full.take(n - 1)),
            full[n - 1].parts(),
        );
    } else {
        assert(turns.take(0) =~= full.take(0));
        assert(all_parts(turns.take(0)) =~= Seq::empty());
    }
}

pub proof fn lemma_full_shown(turns: Seq<TurnView>, session: SessionState, width: u16)
    requires
        turns_right(turns, session, width),
    ensures
        flat(all_parts(full_turns(turns, session, width))) == turns_rows(
            session,
            turns.len() as int,
            width as nat,
            None,
        ),
        turns_right(full_turns(turns, session, width), session, width),
        forall|i: int|
            0 <= i < turns.len() ==> turn_shown(
                #[trigger] full_turns(turns, session, width)[i],
                session,
                i,
                width,
            ),
{
    let full = full_turns(turns, session, width);
    assert forall|i: int| 0 <= i < full.len() implies turn_shown(
        #[trigger] full[i],
        session,
        i,
        width,
    ) && turn_right(full[i], session, i, width) by {
        assert(turn_right(turns[i], session, i, width));
        lemma_turn_agrees(turns[i], session, i, width);
    }
    lemma_flat_turns(full, session, width);
}

pub proof fn lemma_flat_heights(f: Seq<SegView>)
    requires
        forall|k: int| 0 <= k < f.len() ==> (#[trigger] f[k]).body.rendered(),
    ensures
        height_of(f) <= flat(f).len(),
        flat(f).len() <= usize::MAX ==> height_of(f) == flat(f).len() && countable(f),
    decreases f.len(),
{
    if f.len() > 0 {
        let d = f.drop_last();
        assert forall|k: int| 0 <= k < d.len() implies (#[trigger] d[k]).body.rendered() by {
            assert(f[k].body.rendered());
        }
        lemma_flat_heights(d);
        assert(f[f.len() - 1].body.rendered());
        assert(flat(f).len() == flat(d).len() + f.last().body.shown().len());
        if flat(f).len() <= usize::MAX {
            assert forall|k: int| 0 <= k < f.len() implies (#[trigger] f[k]).body.shown().len()
                <= usize::MAX by {
                if k < f.len() - 1 {
                    assert(d[k] == f[k]);
                }
            }
        }
    }
}

proof fn lemma_geometry_flat(f: Seq<SegView>)
    requires
        forall|k: int| 0 <= k < f.len() ==> (#[trigger] f[k]).body.rendered(),
    ensures
        geometry_all(f) == flat(f),
    decreases f.len(),
{
    if f.len() > 0 {
        let rest = f.drop_first();
        assert forall|k: int| 0 <= k < rest.len() implies (#[trigger] rest[k]).body.rendered() by {
            assert(f[k + 1].body.rendered());
        }
        lemma_geometry_flat(rest);
        assert(seq![f[0]] + rest =~= f);
        lemma_flat_add(seq![f[0]], rest);
        lemma_flat_one(f[0]);
        assert(f[0].body.rendered());
        assert(geometry(f[0]) == f[0].body.shown());
    }
}

proof fn lemma_window_agrees(
    s: Seq<SegView>,
    f: Seq<SegView>,
    start: int,
    top: int,
    skip: nat,
    room: nat,
)
    requires
        all_agree(s, f),
        skip == top - start || (skip == 0 && top <= start),
        covered(s, start, top, start + skip + room),
    ensures
        window_rows(s, skip, room) == window_rows(f, skip, room),
    decreases s.len(),
{
    if s.len() > 0 && room > 0 {
        assert(agrees(s[0], f[0]));
        let h = s[0].body.height();
        let rest = s.drop_first();
        let more = f.drop_first();
        assert forall|k: int| 0 <= k < rest.len() implies agrees(#[trigger] rest[k], more[k]) by {
            assert(agrees(s[k + 1], f[k + 1]));
        }
        if skip >= h {
            lemma_window_agrees(rest, more, start + h, top, (skip - h) as nat, room);
        } else {
            assert(s[0].body.rendered());
            if room > h - skip {
                lemma_window_agrees(rest, more, start + h, top, 0, (room - (h - skip)) as nat);
            } else {
                assert(window_rows(rest, 0, 0) == window_rows(more, 0, 0));
            }
        }
    }
}

proof fn lemma_filled_covered(
    session: SessionState,
    turns: Seq<TurnView>,
    base: nat,
    top: usize,
    height: usize,
    width: u16,
    n: int,
)
    requires
        width > 0,
        0 <= n <= turns.len(),
        turns_right(turns, session, width),
        turns.len() <= usize::MAX,
        base + height_of(all_parts(turns)) <= usize::MAX,
        top + height <= usize::MAX,
    ensures
        covered(
            all_parts(window_filled(session, turns, base, top, height, width).take(n)),
            base as int,
            top as int,
            top + height,
        ),
        height_of(all_parts(window_filled(session, turns, base, top, height, width).take(n)))
            == height_of(all_parts(turns.take(n))),
    decreases n,
{
    let all = window_filled(session, turns, base, top, height, width);
    if n == 0 {
        assert(all.take(0) =~= Seq::empty());
        assert(turns.take(0) =~= Seq::empty());
    } else {
        let i = n - 1;
        lemma_filled_covered(session, turns, base, top, height, width, i);
        assert(all.take(n).drop_last() =~= all.take(i));
        assert(turns.take(n).drop_last() =~= turns.take(i));
        lemma_turn_top_exact(turns, base, i);
        lemma_turn_top_exact(turns, base, n);
        let start = base + height_of(all_parts(turns.take(i)));
        lemma_height_add(all_parts(turns.take(i)), turns[i].parts());
        lemma_height_add(all_parts(all.take(i)), all[i].parts());
        assert(turn_right(turns[i], session, i, width));
        if in_window(turns, base, top, height, i) {
            lemma_right_drawn(turns[i], session, i, width);
            lemma_right_height(turns[i], all[i], session, i, width);
            lemma_covered_drawn(all[i].parts(), start as int, top as int, top + height);
        } else {
            let (lo, hi) = keep_range(turns, base, Some((top, height)));
            if i < lo || i > hi {
                lemma_outside_window(turns, base, top, height, i);
            }
            lemma_covered_outside(all[i].parts(), start as int, top as int, top + height);
        }
        lemma_covered_add(
            all_parts(all.take(i)),
            all[i].parts(),
            base as int,
            top as int,
            top + height,
        );
    }
}

proof fn lemma_right_filled(
    session: SessionState,
    turns: Seq<TurnView>,
    base: nat,
    top: usize,
    height: usize,
    width: u16,
)
    requires
        width > 0,
        turns_right(turns, session, width),
    ensures
        turns_right(
            window_filled(session, turns, base, top, height, width),
            session,
            width,
        ),
{
    let all = window_filled(session, turns, base, top, height, width);
    assert forall|i: int| 0 <= i < all.len() implies turn_right(
        #[trigger] all[i],
        session,
        i,
        width,
    ) by {
        assert(turn_right(turns[i], session, i, width));
        lemma_right_drawn(turns[i], session, i, width);
    }
}

/// The parts of a right cache agree with blocks that have all the lines of the
/// transcript.
pub proof fn lemma_cache_agrees(c: CacheView, session: SessionState, width: u16)
    requires
        cache_right(c, session, drawn_width(width)),
    ensures
        ({
            let f = CacheView { turns: full_turns(c.turns, session, drawn_width(width)), ..c };
            &&& all_agree(c.parts(), f.parts())
            &&& flat(f.parts()) == transcript_rows(session, width, None)
            &&& forall|k: int| 0 <= k < f.parts().len() ==> (#[trigger] f.parts()[k]).body.rendered()
        }),
{
    let w = drawn_width(width);
    let full = full_turns(c.turns, session, w);
    let f = CacheView { turns: full, ..c };
    let n = c.turns.len() as int;
    lemma_turns_agree(c.turns, session, w, n);
    assert(c.turns.take(n) =~= c.turns);
    assert(full.take(n) =~= full);
    lemma_full_shown(c.turns, session, w);
    lemma_agree_add(maybe_seg(c.banner), all_parts(c.turns), maybe_seg(c.banner), all_parts(full));
    lemma_agree_add(
        maybe_seg(c.banner) + all_parts(c.turns),
        maybe_seg(c.empty),
        maybe_seg(c.banner) + all_parts(full),
        maybe_seg(c.empty),
    );
    lemma_flat_add(maybe_seg(c.banner) + all_parts(full), maybe_seg(c.empty));
    lemma_flat_add(maybe_seg(c.banner), all_parts(full));
    if let Some(s) = c.banner {
        lemma_flat_one(s);
    }
    if let Some(s) = c.empty {
        lemma_flat_one(s);
    }
    assert(flat(Seq::<SegView>::empty()) =~= Seq::empty());
    assert(flat(f.parts()) =~= transcript_rows(session, width, None));
    assert forall|k: int| 0 <= k < f.parts().len() implies (
    #[trigger] f.parts()[k]).body.rendered() by {
        assert(agrees(c.parts()[k], f.parts()[k]));
    }
}

/// After a refresh for a window the cache is right, every block in the window has
/// its lines, and the heights are those of the transcript.
#[verifier::spinoff_prover]
#[verifier::rlimit(50)]
pub proof fn lemma_window_drawn(
    c: CacheView,
    session: SessionState,
    width: u16,
    top: usize,
    height: usize,
)
    requires
        cache_right(c, session, drawn_width(width)),
        ids_distinct(session),
        session.timeline.turns@.len() <= usize::MAX,
        transcript_rows(session, width, None).len() <= usize::MAX,
        top + height <= transcript_rows(session, width, None).len(),
    ensures
        ({
            let next = refreshed(c, session, width, Some((top, height))).0;
            &&& cache_right(next, session, drawn_width(width))
            &&& height_of(next.parts()) == transcript_rows(session, width, None).len()
            &&& covered(next.parts(), 0, top as int, top + height)
        }),
{
    let w = drawn_width(width);
    let vp = Some((top, height));
    let n = session.timeline.turns@.len() as int;
    let base = banner_height(c);
    let rows = transcript_rows(session, width, None);
    assert forall|i: int, j: int| 0 <= i < j < c.turns.len() implies #[trigger] turn_ids(c.turns)[i]
        != #[trigger] turn_ids(c.turns)[j] by {
        assert(turn_right(c.turns[i], session, i, w));
        assert(turn_right(c.turns[j], session, j, w));
        assert(session.timeline.turns@[i].turn_id@ != session.timeline.turns@[j].turn_id@);
    }
    assert forall|i: int| 0 <= i < c.turns.len() implies distinct((#[trigger] c.turns[i]).ids) by {
        assert(turn_right(c.turns[i], session, i, w));
        assert(distinct(item_ids(session_items(session, i))));
    }
    let (lo, hi) = align_range(c, session, vp);
    lemma_right_turns(c.turns, session, n, lo, hi, w);
    let a = all_aligned(c, session, vp, w);
    assert(turns_right(a.turns, session, w));
    lemma_right_settled(session, a.turns, base, vp, w, MAX_LAYOUT_PASSES as nat);
    let t = settled(session, a.turns, base, vp, w, MAX_LAYOUT_PASSES as nat).0;
    lemma_right_filled(session, t, base, top, height, w);
    let next = refreshed(c, session, width, vp).0;
    let all = window_filled(session, t, base, top, height, w);
    assert(next.turns == all);
    assert(cache_right(next, session, w));
    // The heights are those of the transcript.
    lemma_cache_agrees(next, session, width);
    let f = CacheView { turns: full_turns(all, session, w), ..next };
    lemma_flat_heights(f.parts());
    assert forall|k: int| 0 <= k < next.parts().len() implies (
    #[trigger] next.parts()[k]).body.height() == f.parts()[k].body.height() by {
        assert(agrees(next.parts()[k], f.parts()[k]));
    }
    lemma_same_heights(next.parts(), f.parts());
    lemma_height_add(maybe_seg(next.banner) + all_parts(all), maybe_seg(next.empty));
    lemma_height_add(maybe_seg(next.banner), all_parts(all));
    if let Some(s) = next.banner {
        lemma_height_single(s);
    }
    assert(height_of(maybe_seg(next.banner)) == base);
    lemma_right_heights(all, t, session, w, n);
    assert(all.take(n) =~= all);
    assert(t.take(n) =~= t);
    lemma_filled_covered(session, t, base, top, height, w, n);
    // So every block in the window has its lines.
    lemma_covered_drawn(maybe_seg(next.banner), 0, top as int, top + height);
    lemma_covered_add(maybe_seg(next.banner), all_parts(all), 0, top as int, top + height);
    lemma_covered_drawn(
        maybe_seg(next.empty),
        height_of(maybe_seg(next.banner) + all_parts(all)) as int,
        top as int,
        top + height,
    );
    lemma_covered_add(
        maybe_seg(next.banner) + all_parts(all),
        maybe_seg(next.empty),
        0,
        top as int,
        top + height,
    );
}

/// Wherever a session is scrolled to, the window shows the lines of its
/// transcript that stand there, animated cells blank; the number of lines is
/// that of the transcript, and the cache stays right, so this holds of every
/// window after it too.
pub proof fn law_window_shows_transcript(
    c: CacheView,
    session: SessionState,
    width: u16,
    top: usize,
    height: usize,
)
    requires
        cache_right(c, session, drawn_width(width)),
        ids_distinct(session),
        session.timeline.turns@.len() <= usize::MAX,
        transcript_rows(session, width, None).len() <= usize::MAX,
        top + height <= transcript_rows(session, width, None).len(),
    ensures
        ({
            let next = refreshed(c, session, width, Some((top, height))).0;
            &&& cache_right(next, session, drawn_width(width))
            &&& height_of(next.parts()) == transcript_rows(session, width, None).len()
            &&& window_rows(next.parts(), top as nat, height as nat) == transcript_rows(
                session,
                width,
                None,
            ).subrange(top as int, top + height)
        }),
{
    let w = drawn_width(width);
    lemma_window_drawn(c, session, width, top, height);
    let next = refreshed(c, session, width, Some((top, height))).0;
    lemma_cache_agrees(next, session, width);
    let f = CacheView { turns: full_turns(next.turns, session, w), ..next };
    lemma_flat_heights(f.parts());
    lemma_window_agrees(next.parts(), f.parts(), 0, top as int, top as nat, height as nat);
    assert forall|k: int| 0 <= k < f.parts().len() implies !missing(#[trigger] f.parts()[k]) by {
        assert(f.parts()[k].body.rendered());
    }
    lemma_covered_drawn(f.parts(), 0, top as int, top + height);
    law_window_is_a_slice(f.parts(), top as nat, height as nat);
    lemma_geometry_flat(f.parts());
}

/// A tool call that is not drawn is counted at exactly the lines that it takes.
pub proof fn law_tool_estimate_is_exact(block: Block, width: nat)
    requires
        block.kind is Tool,
        block.tool is Some,
        width > 0,
    ensures
        block_estimate(block, width) == cap(block_rows(block, width, None).len()),
{
}

/// Without lines there are no animated cells.
proof fn lemma_no_lines_no_cells(item: ItemView, width: nat)
    requires
        item_rows(item, width, None).len() == 0,
    ensures
        item_slots(item, width) == Seq::<AnimSlot>::empty(),
{
    if item.shown is Whole {
        lemma_stream_ends_in_cursor(item.block.text@, width);
        if let Some(t) = item.block.tool {
            lemma_card_starts_with_head(t, width, None);
        }
    }
    assert(item_slots(item, width) =~= Seq::empty());
}

proof fn lemma_shown_is_right(t: TurnView, session: SessionState, i: int, w: u16)
    requires
        turn_shown(t, session, i, w),
        turn_ready(t, session, i, w),
    ensures
        turn_right(t, session, i, w),
{
    let items = session_items(session, i);
    assert(t.pre.anim =~= Seq::empty());
    assert(t.post.anim =~= Seq::empty());
    assert forall|j: int| 0 <= j < items.len() implies item_right(
        #[trigger] t.content[j],
        items[j],
        w,
    ) && t.content[j].key == item_key(items[j], w) by {
        assert(shows(t.content[j], items[j], w));
        if !t.content[j].body.rendered() {
            lemma_no_lines_no_cells(items[j], w as nat);
        }
    }
}

/// A refresh of everything makes the cache right, wherever what was cached is
/// still true; an empty cache is.
pub proof fn law_full_refresh_is_right(c: CacheView, session: SessionState, width: u16)
    requires
        session.timeline.turns@.len() <= usize::MAX,
        c.width == drawn_width(width) ==> faithful(c, session, drawn_width(width)),
    ensures
        cache_right(refreshed(c, session, width, None).0, session, drawn_width(width)),
{
    let w = drawn_width(width);
    let k = if c.width == w {
        c
    } else {
        CacheView { width: w, banner: None, empty: None, turns: Seq::empty() }
    };
    assert(faithful(k, session, w));
    let n = session.timeline.turns@.len() as int;
    let (lo, hi) = align_range(k, session, None);
    assert(lo == 0 && n <= hi + 1);
    lemma_aligned_turns_on_track(k, session, n, hi, w);
    lemma_aligned_turns_keyed(session, n, hi, w, turn_ids(k.turns), slots_of(k.turns));
    let a = all_aligned(k, session, None, w);
    assert(turns_on_track(a.turns, session, w));
    lemma_settled_shown(session, a.turns, banner_height(k), w, MAX_LAYOUT_PASSES as nat);
    lemma_settled_ready(session, a.turns, banner_height(k), w, MAX_LAYOUT_PASSES as nat);
    let turns = shown_turns(k, session, None, w).0;
    assert forall|i: int| 0 <= i < turns.len() implies turn_right(
        #[trigger] turns[i],
        session,
        i,
        w,
    ) by {
        assert(turn_shown(turns[i], session, i, w));
        assert(turn_ready(turns[i], session, i, w));
        lemma_shown_is_right(turns[i], session, i, w);
    }
    let next = refreshed(c, session, width, None).0;
    assert(next.turns == turns);
    if let Some(row) = banner(session) {
        let s = next.banner->0;
        assert(s.body.shown() =~= seq![row]);
        assert(s.body.rendered());
        assert(s.anim =~= Seq::empty());
    }
    if n == 0 {
        assert(next.empty->0.anim =~= Seq::empty());
    }
}

} // verus!
