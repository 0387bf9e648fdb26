//! What holds of the block cache as a whole.

use crate::align::{
    align_items, aligned, aligned_turn, carried, growing, item_ids, known_ids, known_slots,
    last_index, lemma_last_index, slots_of, taken,
};
use crate::estimates::{block_estimate, law_estimates_are_positive};
use crate::plan::{ItemView, ShownView};
use crate::refresh::{
    align_range, aligned_turns, all_aligned, banner_height, draw_count, drawn, drawn_turn,
    evicted, evicted_turn, first_below, keep_range, laid_out, last_above, layout_count, missing,
    missing_count, new_banner, new_empty, refreshed, session_items, settled, shown_turns,
    turn_ids, turn_top, MAX_LAYOUT_PASSES,
};
use crate::render_transcript::{
    banner, banner_key, drawn_width, empty_row, item_rows, item_slots, items_rows,
    lemma_stream_ends_in_cursor, stream_lines, transcript_rows, turn_post, turn_pre, turn_rows,
    turns_rows,
};
use crate::tool_card::law_card_geometry_ignores_frame;
use crate::seg::{
    all_parts, block_key, covered, flat, height_of, lemma_flat_add, lemma_flat_one,
    lemma_height_add, maybe_seg, post_key, pre_key, CacheView, SegView, TurnView,
};
use crate::session::SessionState;
use crate::stream::{law_stream_incremental, law_stream_shows_wrapped_text, stream_new};
use crate::timeline::Turn;
use vstd::prelude::*;

verus! {

/// Forgetting a block's lines keeps its height.
pub proof fn law_evicting_keeps_height(s: SegView)
    ensures
        evicted(s).body.height() == s.body.height(),
{
}

proof fn lemma_evicted_heights(s: Seq<SegView>, e: Seq<SegView>)
    requires
        e.len() == s.len(),
        forall|i: int| 0 <= i < s.len() ==> (#[trigger] e[i]) == evicted(s[i]),
    ensures
        height_of(e) == height_of(s),
    decreases s.len(),
{
    if s.len() > 0 {
        assert(e.last() == evicted(s.last()));
        law_evicting_keeps_height(s.last());
        assert forall|i: int| 0 <= i < s.len() - 1 implies (#[trigger] e.drop_last()[i]) == evicted(
            s.drop_last()[i],
        ) by {
            assert(e[i] == evicted(s[i]));
        }
        lemma_evicted_heights(s.drop_last(), e.drop_last());
    }
}

/// Forgetting a turn's lines keeps its height, so nothing below it moves.
pub proof fn law_evicting_keeps_turn_height(t: TurnView)
    ensures
        evicted_turn(t).height() == t.height(),
{
    let s = t.parts();
    let e = evicted_turn(t).parts();
    assert forall|i: int| 0 <= i < s.len() implies (#[trigger] e[i]) == evicted(s[i]) by {}
    lemma_evicted_heights(s, e);
}

/// What is kept of a block shows it as it is now, wherever its key says so; and
/// growing text was read up to a point from which it only grew.
pub open spec fn faithful_block(s: SegView, item: ItemView, width: u16) -> bool {
    let key = match item.shown {
        ShownView::Whole => block_key(item.block, width),
        ShownView::Line(_, sig) => block_key(item.block, width) ^ sig,
        ShownView::Hidden(sig) => block_key(item.block, width) ^ sig,
    };
    &&& s.key == key ==> shows(s, item, width) || missing(s)
    &&& !s.body.rendered() ==> s.anim.len() == 0
    &&& s.stream matches Some(st) ==> growing(item.block) ==> exists|a: Seq<char>, more: Seq<char>|
        st == stream_new(a, width as nat) && item.block.text@ == #[trigger] (a + more)
}

/// A block has the lines of its item, and its animated cells.
pub open spec fn shows(s: SegView, item: ItemView, width: u16) -> bool {
    &&& s.body.shown() == item_rows(item, width as nat, None)
    &&& s.anim == item_slots(item, width as nat)
    &&& !missing(s)
}

/// What is kept of a turn shows it as it is now, wherever the keys say so.
pub open spec fn faithful_turn(t: TurnView, session: SessionState, i: int, width: u16) -> bool {
    let turn = session.timeline.turns@[i];
    let num = session.timeline.number(i);
    let items = session_items(session, i);
    &&& t.pre.key == pre_key(turn, num, width) && t.pre.body is Lines ==> t.pre.body.shown()
        == turn_pre(turn, num, width as nat)
    &&& t.post.key == post_key(turn.failure) && t.post.body is Lines ==> t.post.body.shown()
        == turn_post(turn.failure, width as nat)
    &&& t.pre.anim.len() == 0
    &&& t.post.anim.len() == 0
    &&& forall|k: int, j: int|
        0 <= k < t.content.len() && k < t.ids.len() && 0 <= j < items.len() && t.ids[k]
            == items[j].block.block_id@ ==> #[trigger] faithful_block(
            t.content[k],
            items[j],
            width,
        )
}

/// What is kept shows the session as it is now, wherever the keys say so.
pub open spec fn faithful(c: CacheView, session: SessionState, width: u16) -> bool {
    &&& forall|k: int, i: int|
        0 <= k < c.turns.len() && 0 <= i < session.timeline.turns@.len() && c.turns[k].turn_id
            == session.timeline.turns@[i].turn_id@ ==> #[trigger] faithful_turn(
            c.turns[k],
            session,
            i,
            width,
        )
    &&& c.banner matches Some(s) ==> s.key == banner_key(session, width) ==> banner(session) == Some(
        s.body.shown()[0],
    ) && s.body.shown().len() == 1
    &&& c.banner matches Some(s) ==> s.anim.len() == 0
    &&& c.empty matches Some(s) ==> s.body.shown() == seq![empty_row()] && s.anim.len() == 0
}

/// A block that shows its item, or will once it is drawn.
pub open spec fn on_track(s: SegView, item: ItemView, width: u16) -> bool {
    shows(s, item, width) || missing(s)
}

pub proof fn lemma_drawn_shows(key: u64, item: ItemView, width: u16)
    requires
        width > 0,
    ensures
        shows(drawn(key, item, width), item, width),
{
    if item.shown is Whole && growing(item.block) {
        law_stream_shows_wrapped_text(item.block.text@, width as nat);
    }
}

proof fn lemma_aligned_on_track(prev: Option<SegView>, item: ItemView, width: u16)
    requires
        width > 0,
        prev matches Some(s) ==> faithful_block(s, item, width),
    ensures
        on_track(aligned(prev, item, width).0, item, width),
{
    let key = block_key(item.block, width);
    match item.shown {
        ShownView::Whole => {
            lemma_block_estimate_positive(item.block, width as nat);
            if let Some(s) = prev {
                if s.key != key {
                    if let Some(n) = carried(s, item.block, width) {
                        let st = s.stream->0;
                        let (a, more) = choose|a: Seq<char>, more: Seq<char>|
                            st == stream_new(a, width as nat) && item.block.text@ == #[trigger] (a
                                + more);
                        law_stream_incremental(a, more, width as nat);
                        law_stream_shows_wrapped_text(item.block.text@, width as nat);
                        assert(n.anim =~= item_slots(item, width as nat));
                    }
                }
            }
        },
        _ => {
            let a = aligned(prev, item, width).0;
            assert(a.anim =~= item_slots(item, width as nat));
        },
    }
}

pub proof fn lemma_block_estimate_positive(block: crate::timeline::Block, width: nat)
    ensures
        0 < block_estimate(block, width) <= usize::MAX,
{
    let turn: Turn = arbitrary();
    law_estimates_are_positive(block, turn, width);
}

/// What is left of the cached blocks is part of what there was.
pub open spec fn left_of<T>(slots: Seq<Option<T>>, all: Seq<T>) -> bool {
    slots.len() == all.len() && forall|k: int|
        0 <= k < all.len() ==> ((#[trigger] slots[k]) matches Some(s) ==> s == all[k])
}

proof fn lemma_align_items_on_track(items: Seq<ItemView>, t: TurnView, width: u16, all: Seq<ItemView>)
    requires
        width > 0,
        items.len() <= all.len(),
        items == all.take(items.len() as int),
        forall|k: int, j: int|
            0 <= k < t.content.len() && k < t.ids.len() && 0 <= j < all.len() && t.ids[k]
                == all[j].block.block_id@ ==> #[trigger] faithful_block(
                t.content[k],
                all[j],
                width,
            ),
    ensures
        ({
            let a = align_items(items, known_ids(t), known_slots(t), width);
            &&& left_of(a.slots, t.content)
            &&& a.content.len() == items.len()
            &&& forall|i: int|
                0 <= i < items.len() ==> on_track(#[trigger] a.content[i], items[i], width)
        }),
    decreases items.len(),
{
    if items.len() > 0 {
        let n = items.len() - 1;
        assert(items.drop_last() =~= all.take(n as int));
        lemma_align_items_on_track(items.drop_last(), t, width, all);
        let p = align_items(items.drop_last(), known_ids(t), known_slots(t), width);
        let id = items.last().block.block_id@;
        assert(items.last() == all[n as int]);
        lemma_last_index(known_ids(t), id);
        let (prev, rest) = taken(known_ids(t), p.slots, id);
        if let Some(k) = last_index(known_ids(t), id) {
            assert(t.ids[k] == id);
            if prev is Some {
                assert(prev->0 == t.content[k]);
                assert(faithful_block(t.content[k], all[n as int], width));
            }
        }
        lemma_aligned_on_track(prev, items.last(), width);
        let a = align_items(items, known_ids(t), known_slots(t), width);
        assert forall|i: int| 0 <= i < items.len() implies on_track(
            #[trigger] a.content[i],
            items[i],
            width,
        ) by {
            if i < n {
                assert(p.content[i] == a.content[i]);
                assert(items.drop_last()[i] == items[i]);
            }
        }
    }
}

/// A turn whose blocks show their items, or will once they are drawn.
pub open spec fn turn_on_track(t: TurnView, session: SessionState, i: int, width: u16) -> bool {
    let turn = session.timeline.turns@[i];
    let num = session.timeline.number(i);
    let items = session_items(session, i);
    &&& t.content.len() == items.len()
    &&& t.pre.body is Lines ==> t.pre.body.shown() == turn_pre(turn, num, width as nat)
    &&& t.post.body is Lines ==> t.post.body.shown() == turn_post(turn.failure, width as nat)
    &&& t.pre.anim.len() == 0
    &&& t.post.anim.len() == 0
    &&& forall|k: int| 0 <= k < items.len() ==> on_track(#[trigger] t.content[k], items[k], width)
}

/// A turn that has all its lines.
pub open spec fn turn_shown(t: TurnView, session: SessionState, i: int, width: u16) -> bool {
    let items = session_items(session, i);
    &&& turn_on_track(t, session, i, width)
    &&& t.pre.body is Lines
    &&& t.post.body is Lines
    &&& forall|k: int| 0 <= k < items.len() ==> shows(#[trigger] t.content[k], items[k], width)
}

proof fn lemma_aligned_turn_on_track(
    session: SessionState,
    i: int,
    width: u16,
    prev: Option<TurnView>,
)
    requires
        width > 0,
        0 <= i < session.timeline.turns@.len(),
        prev matches Some(t) ==> faithful_turn(t, session, i, width),
    ensures
        turn_on_track(
            aligned_turn(
                session.timeline.turns@[i],
                session.timeline.number(i),
                session.expanded_groups@,
                width,
                prev,
            ).0,
            session,
            i,
            width,
        ),
{
    let items = session_items(session, i);
    assert(items =~= items.take(items.len() as int));
    match prev {
        Some(t) => {
            lemma_align_items_on_track(items, t, width, items);
        },
        None => {
            let t = TurnView {
                turn_id: Seq::empty(),
                struct_key: 0,
                pre: arbitrary(),
                content: Seq::empty(),
                ids: Seq::empty(),
                post: arbitrary(),
            };
            assert(known_ids(t) =~= Seq::empty());
            assert(known_slots(t) =~= Seq::empty());
            lemma_align_items_on_track(items, t, width, items);
        },
    }
}

pub proof fn lemma_aligned_turns_on_track(
    c: CacheView,
    session: SessionState,
    n: int,
    hi: int,
    width: u16,
)
    requires
        width > 0,
        0 <= n <= session.timeline.turns@.len(),
        n <= hi + 1,
        faithful(c, session, width),
    ensures
        ({
            let a = aligned_turns(
                session,
                n,
                0,
                hi,
                width,
                turn_ids(c.turns),
                slots_of(c.turns),
            );
            &&& left_of(a.slots, c.turns)
            &&& a.turns.len() == n
            &&& forall|i: int|
                0 <= i < n ==> turn_on_track(#[trigger] a.turns[i], session, i, width)
        }),
    decreases n,
{
    if n > 0 {
        lemma_aligned_turns_on_track(c, session, n - 1, hi, width);
        let ids = turn_ids(c.turns);
        let p = aligned_turns(session, n - 1, 0, hi, width, ids, slots_of(c.turns));
        let id = session.timeline.turns@[n - 1].turn_id@;
        lemma_last_index(ids, id);
        let (prev, rest) = taken(ids, p.slots, id);
        if let Some(k) = last_index(ids, id) {
            if prev is Some {
                assert(prev->0 == c.turns[k]);
                assert(faithful_turn(c.turns[k], session, n - 1, width));
            }
        }
        lemma_aligned_turn_on_track(session, n - 1, width, prev);
        let a = aligned_turns(session, n, 0, hi, width, ids, slots_of(c.turns));
        assert forall|i: int| 0 <= i < n implies turn_on_track(
            #[trigger] a.turns[i],
            session,
            i,
            width,
        ) by {
            if i < n - 1 {
                assert(a.turns[i] == p.turns[i]);
            }
        }
    }
}

proof fn lemma_drawn_turn_shown(t: TurnView, session: SessionState, i: int, width: u16)
    requires
        width > 0,
        turn_on_track(t, session, i, width),
    ensures
        turn_shown(
            drawn_turn(
                t,
                session.timeline.turns@[i],
                session.timeline.number(i),
                session_items(session, i),
                width,
            ),
            session,
            i,
            width,
        ),
{
    let items = session_items(session, i);
    let d = drawn_turn(
        t,
        session.timeline.turns@[i],
        session.timeline.number(i),
        items,
        width,
    );
    assert forall|k: int| 0 <= k < items.len() implies shows(
        #[trigger] d.content[k],
        items[k],
        width,
    ) by {
        assert(on_track(t.content[k], items[k], width));
        lemma_drawn_shows(t.content[k].key, items[k], width);
    }
    assert forall|k: int| 0 <= k < items.len() implies on_track(
        #[trigger] d.content[k],
        items[k],
        width,
    ) by {
        assert(shows(d.content[k], items[k], width));
    }
}

/// All turns are shown or will be once they are drawn.
pub open spec fn turns_on_track(turns: Seq<TurnView>, session: SessionState, width: u16) -> bool {
    turns.len() == session.timeline.turns@.len() && forall|i: int|
        0 <= i < turns.len() ==> turn_on_track(#[trigger] turns[i], session, i, width)
}

pub proof fn lemma_settled_shown(
    session: SessionState,
    turns: Seq<TurnView>,
    base: nat,
    width: u16,
    n: nat,
)
    requires
        width > 0,
        n > 0,
        turns.len() <= usize::MAX,
        turns_on_track(turns, session, width),
    ensures
        ({
            let t = settled(session, turns, base, None, width, n).0;
            t.len() == turns.len() && forall|i: int|
                0 <= i < t.len() ==> turn_shown(#[trigger] t[i], session, i, width)
        }),
    decreases n,
{
    let next = laid_out(session, turns, 0, usize::MAX as int, width);
    assert forall|i: int| 0 <= i < next.len() implies turn_shown(
        #[trigger] next[i],
        session,
        i,
        width,
    ) by {
        assert(turn_on_track(turns[i], session, i, width));
        lemma_drawn_turn_shown(turns[i], session, i, width);
    }
    let count = layout_count(session, turns, 0, usize::MAX as int, turns.len() as int);
    if count != 0 && n > 1 {
        assert(turns_on_track(next, session, width));
        lemma_settled_shown(session, next, base, width, (n - 1) as nat);
    } else if count != 0 {
        assert(settled(session, next, base, None, width, 0).0 == next);
    }
}

proof fn lemma_flat_content(content: Seq<SegView>, items: Seq<ItemView>, width: u16)
    requires
        content.len() == items.len(),
        forall|k: int| 0 <= k < items.len() ==> shows(#[trigger] content[k], items[k], width),
    ensures
        flat(content) == items_rows(items, width as nat, None),
    decreases items.len(),
{
    if items.len() > 0 {
        assert(shows(content.last(), items.last(), width));
        assert forall|k: int| 0 <= k < items.len() - 1 implies shows(
            #[trigger] content.drop_last()[k],
            items.drop_last()[k],
            width,
        ) by {
            assert(shows(content[k], items[k], width));
        }
        lemma_flat_content(content.drop_last(), items.drop_last(), width);
    }
}

proof fn lemma_flat_turn(t: TurnView, session: SessionState, i: int, width: u16)
    requires
        turn_shown(t, session, i, width),
    ensures
        flat(t.parts()) == turn_rows(
            session.timeline.turns@[i],
            session.timeline.number(i),
            session.expanded_groups@,
            width as nat,
            None,
        ),
{
    lemma_flat_add(seq![t.pre] + t.content, seq![t.post]);
    lemma_flat_add(seq![t.pre], t.content);
    lemma_flat_one(t.pre);
    lemma_flat_one(t.post);
    lemma_flat_content(t.content, session_items(session, i), width);
}

pub proof fn lemma_flat_turns(turns: Seq<TurnView>, session: SessionState, width: u16)
    requires
        turns.len() <= session.timeline.turns@.len(),
        forall|i: int| 0 <= i < turns.len() ==> turn_shown(#[trigger] turns[i], session, i, width),
    ensures
        flat(all_parts(turns)) == turns_rows(session, turns.len() as int, width as nat, None),
    decreases turns.len(),
{
    if turns.len() > 0 {
        let n = turns.len() - 1;
        assert forall|i: int| 0 <= i < n implies turn_shown(
            #[trigger] turns.drop_last()[i],
            session,
            i,
            width,
        ) by {
            assert(turn_shown(turns[i], session, i, width));
        }
        lemma_flat_turns(turns.drop_last(), session, width);
        assert(turn_shown(turns[n as int], session, n as int, width));
        lemma_flat_turn(turns.last(), session, n as int, width);
        lemma_flat_add(all_parts(turns.drop_last()), turns.last().parts());
    } else {
        assert(flat(all_parts(turns)) =~= Seq::empty());
    }
}

/// A refresh of everything leaves in the cache exactly the lines of the whole
/// transcript, animated cells blank, wherever what was cached is still true.
pub proof fn law_cache_shows_transcript(c: CacheView, session: SessionState, width: u16)
    requires
        session.timeline.turns@.len() <= usize::MAX,
        c.width == drawn_width(width) ==> faithful(c, session, drawn_width(width)),
    ensures
        flat(refreshed(c, session, width, None).0.parts()) == transcript_rows(session, width, None),
{
    let w = drawn_width(width);
    let k = if c.width == w {
        c
    } else {
        CacheView { width: w, banner: None, empty: None, turns: Seq::empty() }
    };
    assert(faithful(k, session, w));
    let n = session.timeline.turns@.len() as int;
    let (lo, hi) = align_range(k, session, None);
    assert(lo == 0 && n <= hi + 1);
    lemma_aligned_turns_on_track(k, session, n, hi, w);
    let a = all_aligned(k, session, None, w);
    assert(turns_on_track(a.turns, session, w));
    lemma_settled_shown(session, a.turns, banner_height(k), w, MAX_LAYOUT_PASSES as nat);
    let turns = shown_turns(k, session, None, w).0;
    lemma_flat_turns(turns, session, w);
    let (b, b_new) = new_banner(k, session, w);
    let (e, e_new) = new_empty(k, session);
    let head = match banner(session) {
        Some(row) => seq![row],
        None => Seq::empty(),
    };
    let hint = if n == 0 {
        seq![empty_row()]
    } else {
        Seq::empty()
    };
    lemma_flat_add(maybe_seg(b) + all_parts(turns), maybe_seg(e));
    lemma_flat_add(maybe_seg(b), all_parts(turns));
    assert(flat(maybe_seg(b)) =~= head) by {
        if let Some(s) = b {
            lemma_flat_one(s);
        }
    }
    assert(flat(maybe_seg(e)) =~= hint) by {
        if let Some(s) = e {
            lemma_flat_one(s);
        }
    }
}

/// A first refresh leaves in the cache exactly the lines of the whole
/// transcript, animated cells blank.
pub proof fn law_fresh_cache_shows_transcript(session: SessionState, width: u16)
    requires
        session.timeline.turns@.len() <= usize::MAX,
    ensures
        ({
            let c = CacheView { width, banner: None, empty: None, turns: Seq::empty() };
            flat(refreshed(c, session, width, None).0.parts()) == transcript_rows(
                session,
                width,
                None,
            )
        }),
{
    let c = CacheView { width, banner: None, empty: None, turns: Seq::empty() };
    law_cache_shows_transcript(c, session, width);
}

/// No two of `ids` are the same.
pub open spec fn distinct(ids: Seq<Seq<char>>) -> bool {
    forall|i: int, j: int| 0 <= i < j < ids.len() ==> #[trigger] ids[i] != #[trigger] ids[j]
}

/// The key under which an item is cached.
pub open spec fn item_key(item: ItemView, width: u16) -> u64 {
    let key = block_key(item.block, width);
    match item.shown {
        ShownView::Whole => key,
        ShownView::Line(_, sig) => key ^ sig,
        ShownView::Hidden(sig) => key ^ sig,
    }
}

/// A turn cached under its present keys with nothing left to draw.
pub open spec fn turn_ready(t: TurnView, session: SessionState, i: int, width: u16) -> bool {
    let turn = session.timeline.turns@[i];
    let items = session_items(session, i);
    &&& t.turn_id == turn.turn_id@
    &&& t.ids == item_ids(items)
    &&& t.content.len() == items.len()
    &&& t.pre.key == pre_key(turn, session.timeline.number(i), width)
    &&& t.pre.body is Lines
    &&& t.post.key == post_key(turn.failure)
    &&& t.post.body is Lines
    &&& forall|k: int|
        0 <= k < items.len() ==> (#[trigger] t.content[k]).key == item_key(items[k], width)
            && !missing(t.content[k])
}

/// A turn cached under its present keys.
pub open spec fn turn_keyed(t: TurnView, session: SessionState, i: int, width: u16) -> bool {
    let turn = session.timeline.turns@[i];
    let items = session_items(session, i);
    &&& t.turn_id == turn.turn_id@
    &&& t.ids == item_ids(items)
    &&& t.content.len() == items.len()
    &&& t.pre.key == pre_key(turn, session.timeline.number(i), width)
    &&& t.post.key == post_key(turn.failure)
    &&& forall|k: int|
        0 <= k < items.len() ==> (#[trigger] t.content[k]).key == item_key(items[k], width)
}

proof fn lemma_align_items_keyed(
    items: Seq<ItemView>,
    ids: Seq<Seq<char>>,
    slots: Seq<Option<SegView>>,
    width: u16,
)
    ensures
        ({
            let a = align_items(items, ids, slots, width);
            &&& a.content.len() == items.len()
            &&& forall|k: int|
                0 <= k < items.len() ==> (#[trigger] a.content[k]).key == item_key(items[k], width)
        }),
    decreases items.len(),
{
    if items.len() > 0 {
        lemma_align_items_keyed(items.drop_last(), ids, slots, width);
        let p = align_items(items.drop_last(), ids, slots, width);
        let a = align_items(items, ids, slots, width);
        assert forall|k: int| 0 <= k < items.len() implies (#[trigger] a.content[k]).key == item_key(
            items[k],
            width,
        ) by {
            if k < items.len() - 1 {
                assert(a.content[k] == p.content[k]);
                assert(items.drop_last()[k] == items[k]);
            }
        }
    }
}

pub proof fn lemma_aligned_turns_keyed(
    session: SessionState,
    n: int,
    hi: int,
    width: u16,
    ids: Seq<Seq<char>>,
    slots: Seq<Option<TurnView>>,
)
    requires
        0 <= n <= session.timeline.turns@.len(),
        n <= hi + 1,
    ensures
        ({
            let a = aligned_turns(session, n, 0, hi, width, ids, slots);
            &&& a.turns.len() == n
            &&& forall|i: int| 0 <= i < n ==> turn_keyed(#[trigger] a.turns[i], session, i, width)
        }),
    decreases n,
{
    if n > 0 {
        lemma_aligned_turns_keyed(session, n - 1, hi, width, ids, slots);
        let p = aligned_turns(session, n - 1, 0, hi, width, ids, slots);
        let (prev, rest) = taken(ids, p.slots, session.timeline.turns@[n - 1].turn_id@);
        let items = session_items(session, n - 1);
        match prev {
            Some(t) => lemma_align_items_keyed(items, known_ids(t), known_slots(t), width),
            None => lemma_align_items_keyed(items, Seq::empty(), Seq::empty(), width),
        }
        let a = aligned_turns(session, n, 0, hi, width, ids, slots);
        assert forall|i: int| 0 <= i < n implies turn_keyed(
            #[trigger] a.turns[i],
            session,
            i,
            width,
        ) by {
            if i < n - 1 {
                assert(a.turns[i] == p.turns[i]);
            }
        }
    }
}

pub proof fn lemma_drawn_turn_ready(t: TurnView, session: SessionState, i: int, width: u16)
    requires
        turn_keyed(t, session, i, width),
    ensures
        turn_ready(
            drawn_turn(
                t,
                session.timeline.turns@[i],
                session.timeline.number(i),
                session_items(session, i),
                width,
            ),
            session,
            i,
            width,
        ),
{
    let items = session_items(session, i);
    let d = drawn_turn(
        t,
        session.timeline.turns@[i],
        session.timeline.number(i),
        items,
        width,
    );
    assert forall|k: int| 0 <= k < items.len() implies (#[trigger] d.content[k]).key == item_key(
        items[k],
        width,
    ) && !missing(d.content[k]) by {
        assert(t.content[k].key == item_key(items[k], width));
    }
}

pub proof fn lemma_settled_ready(
    session: SessionState,
    turns: Seq<TurnView>,
    base: nat,
    width: u16,
    n: nat,
)
    requires
        n > 0,
        turns.len() <= usize::MAX,
        turns.len() == session.timeline.turns@.len(),
        forall|i: int| 0 <= i < turns.len() ==> turn_keyed(#[trigger] turns[i], session, i, width),
    ensures
        ({
            let t = settled(session, turns, base, None, width, n).0;
            t.len() == turns.len() && forall|i: int|
                0 <= i < t.len() ==> turn_ready(#[trigger] t[i], session, i, width)
        }),
    decreases n,
{
    let next = laid_out(session, turns, 0, usize::MAX as int, width);
    assert forall|i: int| 0 <= i < next.len() implies turn_ready(
        #[trigger] next[i],
        session,
        i,
        width,
    ) by {
        assert(turn_keyed(turns[i], session, i, width));
        lemma_drawn_turn_ready(turns[i], session, i, width);
    }
    let count = layout_count(session, turns, 0, usize::MAX as int, turns.len() as int);
    if count != 0 && n > 1 {
        assert forall|i: int| 0 <= i < next.len() implies turn_keyed(
            #[trigger] next[i],
            session,
            i,
            width,
        ) by {
            let items = session_items(session, i);
            assert(turn_ready(next[i], session, i, width));
            assert forall|k: int| 0 <= k < items.len() implies (#[trigger] next[i].content[k]).key
                == item_key(items[k], width) by {}
        }
        lemma_settled_ready(session, next, base, width, (n - 1) as nat);
    } else if count != 0 {
        assert(settled(session, next, base, None, width, 0).0 == next);
    }
}

pub proof fn lemma_last_index_distinct(ids: Seq<Seq<char>>, k: int)
    requires
        distinct(ids),
        0 <= k < ids.len(),
    ensures
        last_index(ids, ids[k]) == Some(k),
{
    lemma_last_index(ids, ids[k]);
    assert(ids.contains(ids[k]));
    if let Some(j) = last_index(ids, ids[k]) {
        if j < k {
            assert(ids[j] != ids[k]);
        } else if k < j {
            assert(ids[k] != ids[j]);
        }
    }
}

proof fn lemma_realign_items(
    t: TurnView,
    session: SessionState,
    i: int,
    width: u16,
    items: Seq<ItemView>,
)
    requires
        turn_ready(t, session, i, width),
        distinct(t.ids),
        items.len() <= session_items(session, i).len(),
        items == session_items(session, i).take(items.len() as int),
    ensures
        ({
            let a = align_items(items, known_ids(t), known_slots(t), width);
            &&& a.rebuilt == 0
            &&& a.content.len() == items.len()
            &&& a.slots.len() == t.content.len()
            &&& forall|k: int|
                items.len() <= k < t.content.len() ==> #[trigger] a.slots[k] == Some(t.content[k])
            &&& forall|k: int|
                0 <= k < items.len() ==> (#[trigger] a.content[k]).key == item_key(items[k], width)
                    && !missing(a.content[k])
        }),
    decreases items.len(),
{
    let all = session_items(session, i);
    if items.len() > 0 {
        let n = items.len() - 1;
        assert(items.drop_last() =~= all.take(n as int));
        lemma_realign_items(t, session, i, width, items.drop_last());
        let p = align_items(items.drop_last(), known_ids(t), known_slots(t), width);
        assert(items.last() == all[n as int]);
        assert(known_ids(t)[n as int] == items.last().block.block_id@);
        lemma_last_index_distinct(known_ids(t), n as int);
        assert(p.slots[n as int] == Some(t.content[n as int]));
        let a = align_items(items, known_ids(t), known_slots(t), width);
        assert(t.content[n as int].key == item_key(all[n as int], width));
        assert forall|k: int| 0 <= k < items.len() implies (#[trigger] a.content[k]).key == item_key(
            items[k],
            width,
        ) && !missing(a.content[k]) by {
            if k < n {
                assert(a.content[k] == p.content[k]);
                assert(items.drop_last()[k] == items[k]);
            }
        }
    }
}

proof fn lemma_realign_turns(
    turns: Seq<TurnView>,
    session: SessionState,
    n: int,
    hi: int,
    width: u16,
)
    requires
        0 <= n <= session.timeline.turns@.len(),
        n <= hi + 1,
        turns.len() == session.timeline.turns@.len(),
        distinct(turn_ids(turns)),
        forall|i: int| 0 <= i < turns.len() ==> turn_ready(#[trigger] turns[i], session, i, width),
        forall|i: int| 0 <= i < turns.len() ==> distinct((#[trigger] turns[i]).ids),
    ensures
        ({
            let a = aligned_turns(session, n, 0, hi, width, turn_ids(turns), slots_of(turns));
            &&& a.rebuilt == 0
            &&& a.turns.len() == n
            &&& a.slots.len() == turns.len()
            &&& forall|k: int| n <= k < turns.len() ==> #[trigger] a.slots[k] == Some(turns[k])
            &&& forall|i: int| 0 <= i < n ==> turn_ready(#[trigger] a.turns[i], session, i, width)
        }),
    decreases n,
{
    if n > 0 {
        lemma_realign_turns(turns, session, n - 1, hi, width);
        let ids = turn_ids(turns);
        let p = aligned_turns(session, n - 1, 0, hi, width, ids, slots_of(turns));
        let t = turns[n - 1];
        assert(turn_ready(t, session, n - 1, width));
        assert(distinct(t.ids));
        assert(ids[n - 1] == session.timeline.turns@[n - 1].turn_id@);
        lemma_last_index_distinct(ids, n - 1);
        assert(p.slots[n - 1] == Some(t));
        let items = session_items(session, n - 1);
        assert(items =~= items.take(items.len() as int));
        lemma_realign_items(t, session, n - 1, width, items);
        let a = aligned_turns(session, n, 0, hi, width, ids, slots_of(turns));
        assert(turn_ready(a.turns[n - 1], session, n - 1, width));
        assert forall|i: int| 0 <= i < n implies turn_ready(
            #[trigger] a.turns[i],
            session,
            i,
            width,
        ) by {
            if i < n - 1 {
                assert(a.turns[i] == p.turns[i]);
            }
        }
    }
}

pub proof fn lemma_nothing_missing(content: Seq<SegView>, n: int)
    requires
        n <= content.len(),
        forall|k: int| 0 <= k < n ==> !missing(#[trigger] content[k]),
    ensures
        missing_count(content, n) == 0,
    decreases n,
{
    if n > 0 {
        lemma_nothing_missing(content, n - 1);
    }
}

pub proof fn lemma_nothing_to_lay_out(
    turns: Seq<TurnView>,
    session: SessionState,
    width: u16,
    lo: int,
    hi: int,
    n: int,
)
    requires
        n <= turns.len(),
        forall|i: int| 0 <= i < turns.len() ==> turn_ready(#[trigger] turns[i], session, i, width),
    ensures
        layout_count(session, turns, lo, hi, n) == 0,
    decreases n,
{
    if n > 0 {
        lemma_nothing_to_lay_out(turns, session, width, lo, hi, n - 1);
        assert(turn_ready(turns[n - 1], session, n - 1, width));
        lemma_nothing_missing(turns[n - 1].content, turns[n - 1].content.len() as int);
    }
}

/// All ids of a session are distinct: those of its turns, and those of the
/// blocks of each turn.
pub open spec fn ids_distinct(session: SessionState) -> bool {
    &&& forall|i: int, j: int|
        0 <= i < j < session.timeline.turns@.len() ==> (#[trigger] session.timeline.turns@[i]).turn_id@
            != (#[trigger] session.timeline.turns@[j]).turn_id@
    &&& forall|i: int|
        0 <= i < session.timeline.turns@.len() ==> distinct(
            item_ids(#[trigger] session_items(session, i)),
        )
}

/// A second refresh of an unchanged session draws nothing. The frame of the
/// animation plays no part, so a new frame draws nothing either.
pub proof fn law_second_refresh_draws_nothing(c: CacheView, session: SessionState, width: u16)
    requires
        session.timeline.turns@.len() <= usize::MAX,
        ids_distinct(session),
    ensures
        refreshed(refreshed(c, session, width, None).0, session, width, None).1 == 0,
{
    let w = drawn_width(width);
    let k = if c.width == w {
        c
    } else {
        CacheView { width: w, banner: None, empty: None, turns: Seq::empty() }
    };
    let n = session.timeline.turns@.len() as int;
    let (lo, hi) = align_range(k, session, None);
    lemma_aligned_turns_keyed(session, n, hi, w, turn_ids(k.turns), slots_of(k.turns));
    let a = all_aligned(k, session, None, w);
    lemma_settled_ready(session, a.turns, banner_height(k), w, MAX_LAYOUT_PASSES as nat);
    let first = refreshed(c, session, width, None).0;
    assert(first.width == w);
    let turns = first.turns;
    assert forall|i: int, j: int| 0 <= i < j < turns.len() implies #[trigger] turn_ids(turns)[i]
        != #[trigger] turn_ids(turns)[j] by {
        assert(turn_ready(turns[i], session, i, w));
        assert(turn_ready(turns[j], session, j, w));
        assert(session.timeline.turns@[i].turn_id@ != session.timeline.turns@[j].turn_id@);
    }
    assert forall|i: int| 0 <= i < turns.len() implies distinct((#[trigger] turns[i]).ids) by {
        assert(turn_ready(turns[i], session, i, w));
        assert(distinct(item_ids(session_items(session, i))));
    }
    let (lo2, hi2) = align_range(first, session, None);
    lemma_realign_turns(turns, session, n, hi2, w);
    let b = all_aligned(first, session, None, w);
    lemma_nothing_to_lay_out(b.turns, session, w, 0, usize::MAX as int, n);
    assert(MAX_LAYOUT_PASSES as nat > 0);
    assert(settled(
        session,
        b.turns,
        banner_height(first),
        None,
        w,
        MAX_LAYOUT_PASSES as nat,
    ).1 == 0);
}

proof fn lemma_stream_lines_len(text: Seq<char>, width: nat, a: Option<u64>, b: Option<u64>)
    ensures
        stream_lines(text, width, a).len() == stream_lines(text, width, b).len(),
{
    lemma_stream_ends_in_cursor(text, width);
}

proof fn lemma_item_len(item: ItemView, width: nat, a: Option<u64>, b: Option<u64>)
    ensures
        item_rows(item, width, a).len() == item_rows(item, width, b).len(),
{
    lemma_stream_lines_len(item.block.text@, width, a, b);
    if let Some(t) = item.block.tool {
        law_card_geometry_ignores_frame(t, width, a, b);
    }
}

proof fn lemma_items_len(items: Seq<ItemView>, width: nat, a: Option<u64>, b: Option<u64>)
    ensures
        items_rows(items, width, a).len() == items_rows(items, width, b).len(),
    decreases items.len(),
{
    if items.len() > 0 {
        lemma_items_len(items.drop_last(), width, a, b);
        lemma_item_len(items.last(), width, a, b);
    }
}

proof fn lemma_turns_len(session: SessionState, n: int, width: nat, a: Option<u64>, b: Option<u64>)
    ensures
        turns_rows(session, n, width, a).len() == turns_rows(session, n, width, b).len(),
    decreases n,
{
    if n > 0 {
        lemma_turns_len(session, n - 1, width, a, b);
        lemma_items_len(session_items(session, n - 1), width, a, b);
    }
}

/// A frame of the animation moves no line: the transcript has as many lines
/// with its glyphs in place as with blank cells.
pub proof fn law_frames_move_no_line(session: SessionState, width: u16, frame: u64)
    ensures
        transcript_rows(session, width, Some(frame)).len() == transcript_rows(
            session,
            width,
            None,
        ).len(),
{
    lemma_turns_len(
        session,
        session.timeline.turns@.len() as int,
        drawn_width(width) as nat,
        Some(frame),
        None,
    );
}

pub proof fn lemma_covered_add(a: Seq<SegView>, b: Seq<SegView>, start: int, top: int, bottom: int)
    requires
        covered(a, start, top, bottom),
        covered(b, start + height_of(a), top, bottom),
    ensures
        covered(a + b, start, top, bottom),
    decreases a.len(),
{
    if a.len() == 0 {
        assert(a + b =~= b);
    } else {
        let rest = a.drop_first();
        assert((a + b).drop_first() =~= rest + b);
        assert(seq![a[0]] + rest =~= a);
        lemma_height_add(seq![a[0]], rest);
        lemma_height_single(a[0]);
        lemma_covered_add(rest, b, start + a[0].body.height(), top, bottom);
    }
}

pub proof fn lemma_height_single(s: SegView)
    ensures
        height_of(seq![s]) == s.body.height(),
{
    assert(seq![s].drop_last() =~= Seq::empty());
    assert(height_of(Seq::<SegView>::empty()) == 0);
}

pub proof fn lemma_covered_outside(s: Seq<SegView>, start: int, top: int, bottom: int)
    requires
        start >= bottom || start + height_of(s) <= top,
    ensures
        covered(s, start, top, bottom),
    decreases s.len(),
{
    if s.len() > 0 {
        let rest = s.drop_first();
        assert(seq![s[0]] + rest =~= s);
        lemma_height_add(seq![s[0]], rest);
        lemma_height_single(s[0]);
        lemma_covered_outside(rest, start + s[0].body.height(), top, bottom);
    }
}

pub proof fn lemma_covered_drawn(s: Seq<SegView>, start: int, top: int, bottom: int)
    requires
        forall|i: int| 0 <= i < s.len() ==> !missing(#[trigger] s[i]),
    ensures
        covered(s, start, top, bottom),
    decreases s.len(),
{
    if s.len() > 0 {
        assert(!missing(s[0]));
        assert forall|i: int| 0 <= i < s.len() - 1 implies !missing(
            #[trigger] s.drop_first()[i],
        ) by {
            assert(s[i + 1] == s.drop_first()[i]);
        }
        lemma_covered_drawn(s.drop_first(), start + s[0].body.height(), top, bottom);
    }
}

proof fn lemma_missing_none(content: Seq<SegView>, n: int)
    requires
        n <= content.len(),
        missing_count(content, n) == 0,
    ensures
        forall|k: int| 0 <= k < n ==> !missing(#[trigger] content[k]),
    decreases n,
{
    if n > 0 {
        lemma_missing_none(content, n - 1);
    }
}

proof fn lemma_layout_none(
    session: SessionState,
    turns: Seq<TurnView>,
    lo: int,
    hi: int,
    n: int,
    i: int,
)
    requires
        layout_count(session, turns, lo, hi, n) == 0,
        0 <= i < n,
        lo <= i <= hi,
    ensures
        draw_count(turns[i], session_items(session, i)) == 0,
    decreases n,
{
    if i < n - 1 {
        lemma_layout_none(session, turns, lo, hi, n - 1, i);
    }
}

proof fn lemma_first_below(turns: Seq<TurnView>, base: nat, top: nat, from: int, i: int)
    requires
        0 <= from <= i < turns.len(),
        turn_top(turns, base, i + 1) > top,
    ensures
        first_below(turns, base, top, from) matches Some(f) && f <= i,
    decreases turns.len() - from,
{
    if turn_top(turns, base, from + 1) <= top {
        lemma_first_below(turns, base, top, from + 1, i);
    }
}

proof fn lemma_last_above(turns: Seq<TurnView>, base: nat, bottom: nat, n: int, i: int)
    requires
        0 <= i < n,
        turn_top(turns, base, i) < bottom,
    ensures
        last_above(turns, base, bottom, n) >= i,
    decreases n,
{
    if i < n - 1 {
        lemma_last_above(turns, base, bottom, n - 1, i);
    }
}

pub proof fn lemma_turn_top_exact(turns: Seq<TurnView>, base: nat, i: int)
    requires
        0 <= i <= turns.len(),
        base + height_of(all_parts(turns)) <= usize::MAX,
    ensures
        turn_top(turns, base, i) == base + height_of(all_parts(turns.take(i))),
        height_of(all_parts(turns.take(i))) <= height_of(all_parts(turns)),
    decreases turns.len() - i, i,
{
    lemma_parts_prefix(turns, i);
    if i > 0 {
        lemma_turn_top_step(turns, base, i);
    } else {
        assert(turns.take(0) =~= Seq::empty());
        assert(height_of(all_parts(turns.take(0))) == 0);
    }
}

proof fn lemma_parts_prefix(turns: Seq<TurnView>, i: int)
    requires
        0 <= i <= turns.len(),
    ensures
        height_of(all_parts(turns.take(i))) <= height_of(all_parts(turns)),
    decreases turns.len() - i,
{
    if i == turns.len() {
        assert(turns.take(i) =~= turns);
    } else {
        lemma_parts_prefix(turns, i + 1);
        assert(turns.take(i + 1).drop_last() =~= turns.take(i));
        lemma_height_add(all_parts(turns.take(i)), turns[i].parts());
    }
}

proof fn lemma_turn_top_step(turns: Seq<TurnView>, base: nat, i: int)
    requires
        0 < i <= turns.len(),
        base + height_of(all_parts(turns)) <= usize::MAX,
    ensures
        turn_top(turns, base, i) == base + height_of(all_parts(turns.take(i))),
    decreases i,
{
    assert(turns.take(i).drop_last() =~= turns.take(i - 1));
    lemma_height_add(all_parts(turns.take(i - 1)), turns[i - 1].parts());
    lemma_parts_prefix(turns, i);
    if i > 1 {
        lemma_turn_top_step(turns, base, i - 1);
    } else {
        assert(turns.take(0) =~= Seq::empty());
        assert(all_parts(turns.take(0)) =~= Seq::empty());
        assert(height_of(Seq::<SegView>::empty()) == 0);
        assert(turn_top(turns, base, 0) == base);
    }
}

proof fn lemma_evicted_parts_covered(t: TurnView, start: int, top: int, bottom: int)
    requires
        start >= bottom || start + height_of(t.parts()) <= top,
    ensures
        covered(evicted_turn(t).parts(), start, top, bottom),
        height_of(evicted_turn(t).parts()) == height_of(t.parts()),
{
    let s = t.parts();
    let e = evicted_turn(t).parts();
    assert forall|k: int| 0 <= k < s.len() implies (#[trigger] e[k]) == evicted(s[k]) by {}
    lemma_evicted_heights(s, e);
    lemma_covered_outside(e, start, top, bottom);
}

proof fn lemma_drawn_parts_covered(
    t: TurnView,
    turn: Turn,
    num: u64,
    items: Seq<ItemView>,
    width: u16,
    start: int,
    top: int,
    bottom: int,
)
    requires
        draw_count(t, items) == 0,
        t.content.len() <= items.len(),
    ensures
        covered(drawn_turn(t, turn, num, items, width).parts(), start, top, bottom),
        drawn_turn(t, turn, num, items, width).parts() == t.parts(),
{
    lemma_missing_none(t.content, t.content.len() as int);
    let d = drawn_turn(t, turn, num, items, width);
    assert(d.content =~= t.content);
    assert(d.parts() =~= t.parts());
    assert forall|k: int| 0 <= k < d.parts().len() implies !missing(#[trigger] d.parts()[k]) by {
        if 0 < k < d.parts().len() - 1 {
            assert(d.parts()[k] == t.content[k - 1]);
        }
    }
    lemma_covered_drawn(d.parts(), start, top, bottom);
}

pub proof fn lemma_outside_window(
    turns: Seq<TurnView>,
    base: nat,
    top: usize,
    height: usize,
    i: int,
)
    requires
        0 <= i < turns.len(),
        top + height <= usize::MAX,
        ({
            let (lo, hi) = keep_range(turns, base, Some((top, height)));
            i < lo || i > hi
        }),
        turns.len() <= usize::MAX,
    ensures
        turn_top(turns, base, i) >= top + height || turn_top(turns, base, i + 1) <= top,
{
    if turn_top(turns, base, i) < top + height && turn_top(turns, base, i + 1) > top {
        lemma_first_below(turns, base, top as nat, 0, i);
        lemma_last_above(turns, base, (top + height) as nat, turns.len() as int, i);
    }
}

proof fn lemma_window_drawn(
    session: SessionState,
    turns: Seq<TurnView>,
    base: nat,
    top: usize,
    height: usize,
    width: u16,
    n: int,
)
    requires
        0 <= n <= turns.len(),
        turns.len() == session.timeline.turns@.len(),
        turns.len() <= usize::MAX,
        base + height_of(all_parts(turns)) <= usize::MAX,
        top + height <= usize::MAX,
        forall|i: int|
            0 <= i < turns.len() ==> (#[trigger] turns[i]).content.len() <= session_items(
                session,
                i,
            ).len(),
        ({
            let (lo, hi) = keep_range(turns, base, Some((top, height)));
            layout_count(session, turns, lo, hi, turns.len() as int) == 0
        }),
    ensures
        ({
            let (lo, hi) = keep_range(turns, base, Some((top, height)));
            let next = laid_out(session, turns, lo, hi, width).take(n);
            &&& covered(all_parts(next), base as int, top as int, top + height)
            &&& height_of(all_parts(next)) == height_of(all_parts(turns.take(n)))
        }),
    decreases n,
{
    let (lo, hi) = keep_range(turns, base, Some((top, height)));
    let all = laid_out(session, turns, lo, hi, width);
    let next = all.take(n);
    if n == 0 {
        assert(next =~= Seq::empty());
        assert(turns.take(0) =~= Seq::empty());
    } else {
        let i = n - 1;
        lemma_window_drawn(session, turns, base, top, height, width, i);
        assert(next.drop_last() =~= all.take(i));
        assert(turns.take(n).drop_last() =~= turns.take(i));
        lemma_turn_top_exact(turns, base, i);
        lemma_turn_top_exact(turns, base, n);
        let start = base + height_of(all_parts(turns.take(i)));
        lemma_height_add(all_parts(turns.take(i)), turns[i].parts());
        lemma_height_add(all_parts(all.take(i)), all[i].parts());
        if i < lo || i > hi {
            lemma_outside_window(turns, base, top, height, i);
            lemma_evicted_parts_covered(turns[i], start as int, top as int, top + height);
        } else {
            lemma_layout_none(session, turns, lo, hi, turns.len() as int, i);
            assert(turns[i].content.len() <= session_items(session, i).len());
            lemma_drawn_parts_covered(
                turns[i],
                session.timeline.turns@[i],
                session.timeline.number(i),
                session_items(session, i),
                width,
                start as int,
                top as int,
                top + height,
            );
        }
        lemma_covered_add(
            all_parts(all.take(i)),
            all[i].parts(),
            base as int,
            top as int,
            top + height,
        );
    }
}

/// Once laying out draws nothing more, every block that takes a line of the
/// window has its lines.
pub proof fn law_settled_window_is_drawn(
    session: SessionState,
    turns: Seq<TurnView>,
    base: nat,
    top: usize,
    height: usize,
    width: u16,
)
    requires
        turns.len() == session.timeline.turns@.len(),
        turns.len() <= usize::MAX,
        base + height_of(all_parts(turns)) <= usize::MAX,
        top + height <= usize::MAX,
        forall|i: int|
            0 <= i < turns.len() ==> (#[trigger] turns[i]).content.len() <= session_items(
                session,
                i,
            ).len(),
        ({
            let (lo, hi) = keep_range(turns, base, Some((top, height)));
            layout_count(session, turns, lo, hi, turns.len() as int) == 0
        }),
    ensures
        ({
            let (lo, hi) = keep_range(turns, base, Some((top, height)));
            let next = laid_out(session, turns, lo, hi, width);
            &&& covered(all_parts(next), base as int, top as int, top + height)
            &&& height_of(all_parts(next)) == height_of(all_parts(turns))
        }),
{
    let (lo, hi) = keep_range(turns, base, Some((top, height)));
    let next = laid_out(session, turns, lo, hi, width);
    lemma_window_drawn(session, turns, base, top, height, width, turns.len() as int);
    assert(next.take(turns.len() as int) =~= next);
    assert(turns.take(turns.len() as int) =~= turns);
}

} // verus!
