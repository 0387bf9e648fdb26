//! What a change of one block draws: that block and nothing else.

use crate::align::{align_items, aligned, item_ids, known_ids, known_slots, slots_of};
use crate::cache_laws::{
    distinct, ids_distinct, item_key, lemma_aligned_turns_keyed, lemma_block_estimate_positive,
    lemma_drawn_turn_ready, lemma_last_index_distinct, lemma_nothing_to_lay_out,
    lemma_settled_ready, turn_keyed, turn_ready,
};
use crate::plan::ItemView;
use crate::refresh::{
    align_range, aligned_at, aligned_turns, all_aligned, banner_height, draw_count, laid_out,
    layout_count, missing, missing_count, one, refreshed, session_items, settled, turn_ids,
    MAX_LAYOUT_PASSES,
};
use crate::render_transcript::{banner, banner_key, drawn_width};
use crate::seg::{post_key, pre_key, CacheView, SegView, TurnView};
use crate::session::SessionState;
use vstd::prelude::*;

verus! {

/// Two states of a session that differ at most in what block `at` of turn `of`
/// holds: the same turns with the same blocks, everything else cached under
/// the same keys. The block is shown by itself in both.
pub open spec fn differ_in_block(
    a: SessionState,
    b: SessionState,
    of: int,
    at: int,
    width: u16,
) -> bool {
    &&& a.timeline.turns@.len() == b.timeline.turns@.len()
    &&& banner(a) == banner(b)
    &&& banner_key(a, width) == banner_key(b, width)
    &&& 0 <= of < a.timeline.turns@.len()
    &&& 0 <= at < session_items(a, of).len()
    &&& session_items(a, of)[at].shown is Whole
    &&& session_items(b, of)[at].shown is Whole
    &&& forall|i: int|
        0 <= i < a.timeline.turns@.len() ==> same_frame(a, b, i, width)
            && #[trigger] session_items(b, i).len() == session_items(a, i).len()
    &&& forall|i: int, k: int|
        0 <= i < a.timeline.turns@.len() && 0 <= k < session_items(a, i).len() ==> same_item(
            #[trigger] session_items(a, i)[k],
            session_items(b, i)[k],
            i == of && k == at,
            width,
        )
}

/// What stands around the blocks of turn `i` is the same in both states.
pub open spec fn same_frame(a: SessionState, b: SessionState, i: int, width: u16) -> bool {
    let s = a.timeline.turns@[i];
    let t = b.timeline.turns@[i];
    &&& s.turn_id@ == t.turn_id@
    &&& pre_key(s, a.timeline.number(i), width) == pre_key(t, b.timeline.number(i), width)
    &&& post_key(s.failure) == post_key(t.failure)
}

/// The same block; unless it `may_change`, cached under the same key.
pub open spec fn same_item(a: ItemView, b: ItemView, may_change: bool, width: u16) -> bool {
    &&& a.block.block_id@ == b.block.block_id@
    &&& !may_change ==> item_key(a, width) == item_key(b, width)
}

/// Whether the block is cached under another key in `b`.
pub open spec fn key_changed(a: SessionState, b: SessionState, of: int, at: int, width: u16) -> bool {
    item_key(session_items(a, of)[at], width) != item_key(session_items(b, of)[at], width)
}

proof fn lemma_missing_prefix(a: Seq<SegView>, b: Seq<SegView>, n: int)
    requires
        n <= a.len(),
        n <= b.len(),
        forall|k: int| 0 <= k < n ==> #[trigger] a[k] == b[k],
    ensures
        missing_count(a, n) == missing_count(b, n),
    decreases n,
{
    if n > 0 {
        lemma_missing_prefix(a, b, n - 1);
        assert(a[n - 1] == b[n - 1]);
    }
}

proof fn lemma_changed_items(
    t: TurnView,
    a: SessionState,
    b: SessionState,
    of: int,
    at: int,
    i: int,
    width: u16,
    items: Seq<ItemView>,
)
    requires
        differ_in_block(a, b, of, at, width),
        0 <= i < a.timeline.turns@.len(),
        turn_ready(t, a, i, width),
        distinct(t.ids),
        items.len() <= session_items(b, i).len(),
        items == session_items(b, i).take(items.len() as int),
    ensures
        ({
            let r = align_items(items, known_ids(t), known_slots(t), width);
            &&& r.content.len() == items.len()
            &&& r.slots.len() == t.content.len()
            &&& forall|k: int|
                items.len() <= k < t.content.len() ==> #[trigger] r.slots[k] == Some(t.content[k])
            &&& r.rebuilt + missing_count(r.content, items.len() as int) == one(
                i == of && at < items.len() && key_changed(a, b, of, at, width),
            )
        }),
    decreases items.len(),
{
    let old_items = session_items(a, i);
    let all = session_items(b, i);
    assert(all.len() == old_items.len());
    if items.len() > 0 {
        let n = items.len() - 1;
        assert(items.drop_last() =~= all.take(n as int));
        lemma_changed_items(t, a, b, of, at, i, width, items.drop_last());
        let p = align_items(items.drop_last(), known_ids(t), known_slots(t), width);
        let r = align_items(items, known_ids(t), known_slots(t), width);
        assert(items.last() == all[n as int]);
        assert(same_item(old_items[n as int], all[n as int], i == of && n == at, width));
        assert(known_ids(t)[n as int] == items.last().block.block_id@);
        lemma_last_index_distinct(known_ids(t), n as int);
        let prev = t.content[n as int];
        assert(p.slots[n as int] == Some(prev));
        assert(prev.key == item_key(old_items[n as int], width) && !missing(prev));
        let (seg, drew) = aligned(Some(prev), items.last(), width);
        assert(r.content == p.content.push(seg));
        lemma_missing_prefix(r.content, p.content, n as int);
        lemma_block_estimate_positive(items.last().block, width as nat);
        if item_key(items.last(), width) == prev.key {
            assert(!drew && !missing(seg));
        } else {
            assert(i == of && n == at);
            assert(one(drew) + one(missing(seg)) == 1);
        }
    }
}

proof fn lemma_changed_turn(
    t: TurnView,
    a: SessionState,
    b: SessionState,
    of: int,
    at: int,
    i: int,
    hi: int,
    width: u16,
)
    requires
        differ_in_block(a, b, of, at, width),
        0 <= i < a.timeline.turns@.len(),
        i <= hi,
        turn_ready(t, a, i, width),
        distinct(t.ids),
    ensures
        ({
            let (r, n) = aligned_at(b, i, 0, hi, width, Some(t));
            n + draw_count(r, session_items(b, i)) == one(
                i == of && key_changed(a, b, of, at, width),
            )
        }),
{
    let items = session_items(b, i);
    assert(items.len() == session_items(a, i).len());
    assert(items =~= items.take(items.len() as int));
    lemma_changed_items(t, a, b, of, at, i, width, items);
    assert(same_frame(a, b, i, width));
}

proof fn lemma_layout_prefix(
    session: SessionState,
    x: Seq<TurnView>,
    y: Seq<TurnView>,
    lo: int,
    hi: int,
    n: int,
)
    requires
        n <= x.len(),
        n <= y.len(),
        forall|i: int| 0 <= i < n ==> #[trigger] x[i] == y[i],
    ensures
        layout_count(session, x, lo, hi, n) == layout_count(session, y, lo, hi, n),
    decreases n,
{
    if n > 0 {
        lemma_layout_prefix(session, x, y, lo, hi, n - 1);
        assert(x[n - 1] == y[n - 1]);
    }
}

proof fn lemma_changed_turns(
    turns: Seq<TurnView>,
    a: SessionState,
    b: SessionState,
    of: int,
    at: int,
    n: int,
    hi: int,
    width: u16,
)
    requires
        differ_in_block(a, b, of, at, width),
        0 <= n <= a.timeline.turns@.len() <= usize::MAX,
        n <= hi + 1,
        turns.len() == a.timeline.turns@.len(),
        distinct(turn_ids(turns)),
        forall|i: int| 0 <= i < turns.len() ==> turn_ready(#[trigger] turns[i], a, i, width),
        forall|i: int| 0 <= i < turns.len() ==> distinct((#[trigger] turns[i]).ids),
    ensures
        ({
            let r = aligned_turns(b, n, 0, hi, width, turn_ids(turns), slots_of(turns));
            &&& r.turns.len() == n
            &&& r.slots.len() == turns.len()
            &&& forall|k: int| n <= k < turns.len() ==> #[trigger] r.slots[k] == Some(turns[k])
            &&& r.rebuilt + layout_count(b, r.turns, 0, usize::MAX as int, n) == one(
                of < n && key_changed(a, b, of, at, width),
            )
        }),
    decreases n,
{
    if n > 0 {
        lemma_changed_turns(turns, a, b, of, at, n - 1, hi, width);
        let ids = turn_ids(turns);
        let p = aligned_turns(b, n - 1, 0, hi, width, ids, slots_of(turns));
        let t = turns[n - 1];
        assert(turn_ready(t, a, n - 1, width));
        assert(distinct(t.ids));
        assert(same_frame(a, b, n - 1, width)) by {
            assert(session_items(b, n - 1).len() == session_items(a, n - 1).len());
        }
        assert(ids[n - 1] == b.timeline.turns@[n - 1].turn_id@);
        lemma_last_index_distinct(ids, n - 1);
        assert(p.slots[n - 1] == Some(t));
        lemma_changed_turn(t, a, b, of, at, n - 1, hi, width);
        let r = aligned_turns(b, n, 0, hi, width, ids, slots_of(turns));
        let (q, more) = aligned_at(b, n - 1, 0, hi, width, Some(t));
        assert(r.turns == p.turns.push(q));
        lemma_layout_prefix(b, r.turns, p.turns, 0, usize::MAX as int, n - 1);
    }
}

proof fn lemma_after_refresh(c: CacheView, session: SessionState, width: u16)
    requires
        session.timeline.turns@.len() <= usize::MAX,
        ids_distinct(session),
    ensures
        ({
            let turns = refreshed(c, session, width, None).0.turns;
            let w = drawn_width(width);
            &&& turns.len() == session.timeline.turns@.len()
            &&& distinct(turn_ids(turns))
            &&& forall|i: int|
                0 <= i < turns.len() ==> turn_ready(#[trigger] turns[i], session, i, w)
            &&& forall|i: int| 0 <= i < turns.len() ==> distinct((#[trigger] turns[i]).ids)
        }),
{
    let w = drawn_width(width);
    let k = if c.width == w {
        c
    } else {
        CacheView { width: w, banner: None, empty: None, turns: Seq::empty() }
    };
    let n = session.timeline.turns@.len() as int;
    let (lo, hi) = align_range(k, session, None);
    lemma_aligned_turns_keyed(session, n, hi, w, turn_ids(k.turns), slots_of(k.turns));
    let a = all_aligned(k, session, None, w);
    lemma_settled_ready(session, a.turns, banner_height(k), w, MAX_LAYOUT_PASSES as nat);
    let turns = refreshed(c, session, width, None).0.turns;
    assert forall|i: int, j: int| 0 <= i < j < turns.len() implies #[trigger] turn_ids(turns)[i]
        != #[trigger] turn_ids(turns)[j] by {
        assert(turn_ready(turns[i], session, i, w));
        assert(turn_ready(turns[j], session, j, w));
        assert(session.timeline.turns@[i].turn_id@ != session.timeline.turns@[j].turn_id@);
    }
    assert forall|i: int| 0 <= i < turns.len() implies distinct((#[trigger] turns[i]).ids) by {
        assert(turn_ready(turns[i], session, i, w));
        assert(distinct(item_ids(session_items(session, i))));
    }
}

/// When one block changes, the next refresh draws that block alone: one block
/// if it is cached under another key now, and none if it is not.
pub proof fn law_change_draws_one_block(
    c: CacheView,
    a: SessionState,
    b: SessionState,
    of: int,
    at: int,
    width: u16,
)
    requires
        a.timeline.turns@.len() <= usize::MAX,
        ids_distinct(a),
        differ_in_block(a, b, of, at, drawn_width(width)),
    ensures
        refreshed(refreshed(c, a, width, None).0, b, width, None).1 == one(
            key_changed(a, b, of, at, drawn_width(width)),
        ),
{
    let w = drawn_width(width);
    lemma_after_refresh(c, a, width);
    let first = refreshed(c, a, width, None).0;
    let n = a.timeline.turns@.len() as int;
    let (lo, hi) = align_range(first, b, None);
    lemma_changed_turns(first.turns, a, b, of, at, n, hi, w);
    lemma_aligned_turns_keyed(b, n, hi, w, turn_ids(first.turns), slots_of(first.turns));
    let r = all_aligned(first, b, None, w);
    let next = laid_out(b, r.turns, 0, usize::MAX as int, w);
    assert forall|i: int| 0 <= i < next.len() implies turn_ready(#[trigger] next[i], b, i, w) by {
        assert(turn_keyed(r.turns[i], b, i, w));
        lemma_drawn_turn_ready(r.turns[i], b, i, w);
    }
    lemma_nothing_to_lay_out(next, b, w, 0, usize::MAX as int, n);
    reveal_with_fuel(settled, 3);
    assert(r.rebuilt + settled(
        b,
        r.turns,
        banner_height(first),
        None,
        w,
        MAX_LAYOUT_PASSES as nat,
    ).1 == one(key_changed(a, b, of, at, w)));
}

} // verus!
