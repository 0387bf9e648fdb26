//! Refreshing the block cache: blocks near the window have their lines, the
//! others only their heights.

use crate::align::{
    align_turn_seg, aligned_turn, find_last, growing, init, is_growing, slots_of, streaming_seg,
    taken, take_slot, to_slots,
};
use crate::anim::AnimSink;
use crate::estimates::cap;
use crate::highlight::Highlighter;
use crate::plan::{items_of, plan_turn, plan_within, turn_items, ItemView, PlanItem, Shown};
use crate::render_line::{rows, RenderLine, SpanStyle};
use crate::render_transcript::{
    banner, banner_cache_key, banner_key, drawn_width, empty_row, item_rows, item_slots,
    render_banner, render_item_lines, render_turn_post, render_turn_pre, turn_post, turn_pre,
};
use crate::seg::{
    lemma_turns_push, maybe_seg, seg_of_lines, segs, segs_wf, turns_view, BlockBody, BlockSeg,
    BodyView, CacheView, RenderStats, SegView, TranscriptCache, TurnSeg, TurnView,
    KEEP_MARGIN_TURNS,
};
use crate::session::SessionState;
use crate::stream::stream_new;
use crate::text::{lemma_texts_push, texts};
use crate::timeline::{block_count, Round, Turn};
use std::sync::Arc;
use vstd::prelude::*;

verus! {

broadcast use {lemma_turns_push, lemma_texts_push};

/// How often the layout is redone at most.
pub const MAX_LAYOUT_PASSES: usize = 4;

/// The line at which turn `i` starts, the first one starting at `base`.
pub open spec fn turn_top(turns: Seq<TurnView>, base: nat, i: int) -> nat
    decreases i,
{
    if i <= 0 {
        base
    } else {
        cap(turn_top(turns, base, i - 1) + turns[i - 1].height())
    }
}

/// The first turn from `i` on that ends below line `top`.
pub open spec fn first_below(turns: Seq<TurnView>, base: nat, top: nat, i: int) -> Option<int>
    decreases turns.len() - i,
{
    if i >= turns.len() {
        None
    } else if turn_top(turns, base, i + 1) > top {
        Some(i)
    } else {
        first_below(turns, base, top, i + 1)
    }
}

/// The last of the first `n` turns that starts above line `bottom`.
pub open spec fn last_above(turns: Seq<TurnView>, base: nat, bottom: nat, n: int) -> int
    decreases n,
{
    if n <= 0 {
        0
    } else if turn_top(turns, base, n - 1) < bottom {
        n - 1
    } else {
        last_above(turns, base, bottom, n - 1)
    }
}

/// The turns that keep their lines: those in the window and a few on either
/// side; all of them where there is no window or it lies below the last turn.
pub open spec fn keep_range(turns: Seq<TurnView>, base: nat, viewport: Option<(usize, usize)>) -> (
    int,
    int,
) {
    match viewport {
        None => (0, usize::MAX as int),
        Some((top, height)) => match first_below(turns, base, top as nat, 0) {
            None => (0, usize::MAX as int),
            Some(f) => {
                let last = last_above(turns, base, cap((top + height) as nat), turns.len() as int);
                let lo = if f >= KEEP_MARGIN_TURNS {
                    f - KEEP_MARGIN_TURNS
                } else {
                    0
                };
                let hi = if last + KEEP_MARGIN_TURNS <= turns.len() - 1 {
                    last + KEEP_MARGIN_TURNS
                } else {
                    turns.len() - 1
                };
                (lo, hi)
            },
        },
    }
}

/// Only the height of a block.
pub open spec fn evicted(s: SegView) -> SegView {
    SegView {
        key: s.key,
        body: if s.body.rendered() {
            BodyView::Height(s.body.height() as usize)
        } else {
            s.body
        },
        anim: Seq::empty(),
        stream: None,
    }
}

/// Only the heights of a turn.
pub open spec fn evicted_turn(t: TurnView) -> TurnView {
    TurnView {
        pre: evicted(t.pre),
        content: Seq::new(t.content.len(), |i: int| evicted(t.content[i])),
        post: evicted(t.post),
        ..t
    }
}

/// A block with its lines: growing text is wrapped, anything else drawn.
pub open spec fn drawn(key: u64, item: ItemView, width: u16) -> SegView {
    if item.shown is Whole && growing(item.block) {
        streaming_seg(key, stream_new(item.block.text@, width as nat))
    } else {
        SegView {
            key,
            body: BodyView::Lines(item_rows(item, width as nat, None)),
            anim: item_slots(item, width as nat),
            stream: None,
        }
    }
}

/// The block has a height and not its lines.
pub open spec fn missing(s: SegView) -> bool {
    !s.body.rendered() && s.body.height() > 0
}

/// Block `i` of a turn with its lines.
pub open spec fn filled(content: Seq<SegView>, items: Seq<ItemView>, i: int, width: u16) -> SegView {
    if i < items.len() && missing(content[i]) {
        drawn(content[i].key, items[i], width)
    } else {
        content[i]
    }
}

/// How many of the first `n` blocks are missing their lines.
pub open spec fn missing_count(content: Seq<SegView>, n: int) -> nat
    decreases n,
{
    if n <= 0 {
        0
    } else {
        missing_count(content, n - 1) + if missing(content[n - 1]) {
            1nat
        } else {
            0
        }
    }
}

/// The smaller number.
pub open spec fn lower(a: nat, b: nat) -> nat {
    if a <= b {
        a
    } else {
        b
    }
}

/// A turn with all its lines.
pub open spec fn drawn_turn(t: TurnView, turn: Turn, num: u64, items: Seq<ItemView>, width: u16)
    -> TurnView {
    TurnView {
        pre: if t.pre.body is Lines {
            t.pre
        } else {
            seg_of_lines(t.pre.key, turn_pre(turn, num, width as nat))
        },
        content: Seq::new(t.content.len(), |i: int| filled(t.content, items, i, width)),
        post: if t.post.body is Lines {
            t.post
        } else {
            seg_of_lines(t.post.key, turn_post(turn.failure, width as nat))
        },
        ..t
    }
}

/// How many blocks have to be drawn for a turn.
pub open spec fn draw_count(t: TurnView, items: Seq<ItemView>) -> nat {
    missing_count(t.content, lower(items.len(), t.content.len()) as int) + (if t.pre.body is Lines {
        0nat
    } else {
        1
    }) + (if t.post.body is Lines {
        0nat
    } else {
        1
    })
}

/// The items of turn `i` of a session.
pub open spec fn session_items(session: SessionState, i: int) -> Seq<ItemView> {
    turn_items(session.timeline.turns@[i], session.expanded_groups@)
}

/// Turn `i` with all its lines.
pub open spec fn drawn_at(session: SessionState, turns: Seq<TurnView>, i: int, width: u16) -> TurnView {
    drawn_turn(
        turns[i],
        session.timeline.turns@[i],
        session.timeline.number(i),
        session_items(session, i),
        width,
    )
}

/// The turns from `lo` to `hi` with their lines, the others without.
pub open spec fn laid_out(session: SessionState, turns: Seq<TurnView>, lo: int, hi: int, width: u16)
    -> Seq<TurnView> {
    Seq::new(
        turns.len(),
        |i: int|
            if i < lo || i > hi {
                evicted_turn(turns[i])
            } else {
                drawn_at(session, turns, i, width)
            },
    )
}

/// How many blocks that draws in the first `n` turns.
pub open spec fn layout_count(session: SessionState, turns: Seq<TurnView>, lo: int, hi: int, n: int)
    -> nat
    decreases n,
{
    if n <= 0 {
        0
    } else {
        layout_count(session, turns, lo, hi, n - 1) + if n - 1 < lo || n - 1 > hi {
            0nat
        } else {
            draw_count(turns[n - 1], session_items(session, n - 1))
        }
    }
}

/// Lays turns out until drawing changes nothing any more, `n` times at most;
/// the second part counts the blocks drawn.
pub open spec fn settled(
    session: SessionState,
    turns: Seq<TurnView>,
    base: nat,
    viewport: Option<(usize, usize)>,
    width: u16,
    n: nat,
) -> (Seq<TurnView>, nat)
    decreases n,
{
    if n == 0 {
        (turns, 0)
    } else {
        let (lo, hi) = keep_range(turns, base, viewport);
        let next = laid_out(session, turns, lo, hi, width);
        let count = layout_count(session, turns, lo, hi, turns.len() as int);
        if count == 0 {
            (next, 0)
        } else {
            let (last, more) = settled(session, next, base, viewport, width, (n - 1) as nat);
            (last, count + more)
        }
    }
}

/// Turn `i` is kept and takes a line of the window.
pub open spec fn in_window(
    turns: Seq<TurnView>,
    base: nat,
    top: usize,
    height: usize,
    i: int,
) -> bool {
    let (lo, hi) = keep_range(turns, base, Some((top, height)));
    &&& lo <= i <= hi
    &&& turn_top(turns, base, i + 1) > top
    &&& turn_top(turns, base, i) < cap((top + height) as nat)
}

/// The turns in the window with their lines.
pub open spec fn window_filled(
    session: SessionState,
    turns: Seq<TurnView>,
    base: nat,
    top: usize,
    height: usize,
    width: u16,
) -> Seq<TurnView> {
    Seq::new(
        turns.len(),
        |i: int|
            if in_window(turns, base, top, height, i) {
                drawn_at(session, turns, i, width)
            } else {
                turns[i]
            },
    )
}

/// How many blocks that draws in the first `n` turns.
pub open spec fn window_count(
    session: SessionState,
    turns: Seq<TurnView>,
    base: nat,
    top: usize,
    height: usize,
    n: int,
) -> nat
    decreases n,
{
    if n <= 0 {
        0
    } else {
        window_count(session, turns, base, top, height, n - 1) + if in_window(
            turns,
            base,
            top,
            height,
            n - 1,
        ) {
            draw_count(turns[n - 1], session_items(session, n - 1))
        } else {
            0nat
        }
    }
}

/// Turns brought in line so far: what is left of the cached ones, the result,
/// and how many blocks were drawn.
#[verifier::ext_equal]
pub struct TurnsView {
    pub slots: Seq<Option<TurnView>>,
    pub turns: Seq<TurnView>,
    pub rebuilt: nat,
}

/// Turn `i` in line with the timeline; one outside `lo` and `hi` that has as
/// many blocks as before stays as it is.
pub open spec fn aligned_at(
    session: SessionState,
    i: int,
    lo: int,
    hi: int,
    width: u16,
    prev: Option<TurnView>,
) -> (TurnView, nat) {
    let turn = session.timeline.turns@[i];
    if (i < lo || i > hi) && (prev matches Some(t) && t.content.len() == block_count(turn.rounds@)) {
        (prev->0, 0)
    } else {
        aligned_turn(turn, session.timeline.number(i), session.expanded_groups@, width, prev)
    }
}

/// The first `n` turns in line with the timeline.
pub open spec fn aligned_turns(
    session: SessionState,
    n: int,
    lo: int,
    hi: int,
    width: u16,
    ids: Seq<Seq<char>>,
    slots: Seq<Option<TurnView>>,
) -> TurnsView
    decreases n,
{
    if n <= 0 {
        TurnsView { slots, turns: Seq::empty(), rebuilt: 0 }
    } else {
        let p = aligned_turns(session, n - 1, lo, hi, width, ids, slots);
        let (prev, rest) = taken(ids, p.slots, session.timeline.turns@[n - 1].turn_id@);
        let (t, more) = aligned_at(session, n - 1, lo, hi, width, prev);
        TurnsView { slots: rest, turns: p.turns.push(t), rebuilt: p.rebuilt + more }
    }
}

/// The height of the banner.
pub open spec fn banner_height(c: CacheView) -> nat {
    match c.banner {
        Some(b) => b.body.height(),
        None => 0,
    }
}

/// Which turns are surely brought in line: those kept before, and new ones.
pub open spec fn align_range(c: CacheView, session: SessionState, viewport: Option<(usize, usize)>)
    -> (int, int) {
    let (lo0, hi0) = keep_range(c.turns, banner_height(c), viewport);
    let count = session.timeline.turns@.len() as int;
    let last = if count > 0 {
        count - 1
    } else {
        0
    };
    let most = if hi0 >= c.turns.len() {
        hi0
    } else {
        c.turns.len() as int
    };
    let hi = if most <= last {
        most
    } else {
        last
    };
    (
        if lo0 <= hi {
            lo0
        } else {
            hi
        },
        hi,
    )
}

/// All turns in line with the timeline.
pub open spec fn all_aligned(
    c: CacheView,
    session: SessionState,
    viewport: Option<(usize, usize)>,
    width: u16,
) -> TurnsView {
    let (lo, hi) = align_range(c, session, viewport);
    aligned_turns(
        session,
        session.timeline.turns@.len() as int,
        lo,
        hi,
        width,
        turn_ids(c.turns),
        slots_of(c.turns),
    )
}

/// The ids of cached turns.
pub open spec fn turn_ids(turns: Seq<TurnView>) -> Seq<Seq<char>> {
    Seq::new(turns.len(), |i: int| turns[i].turn_id)
}

/// The banner, and whether it was drawn.
pub open spec fn new_banner(c: CacheView, session: SessionState, width: u16) -> (
    Option<SegView>,
    bool,
) {
    let key = banner_key(session, width);
    match banner(session) {
        Some(row) => match c.banner {
            Some(s) if s.key == key => (c.banner, false),
            _ => (Some(seg_of_lines(key, seq![row])), true),
        },
        None => (None, false),
    }
}

/// The hint of an empty session, and whether it was drawn.
pub open spec fn new_empty(c: CacheView, session: SessionState) -> (Option<SegView>, bool) {
    if session.timeline.turns@.len() > 0 {
        (None, false)
    } else {
        match c.empty {
            Some(_) => (c.empty, false),
            None => (Some(seg_of_lines(1, seq![empty_row()])), true),
        }
    }
}

/// One for true.
pub open spec fn one(b: bool) -> nat {
    if b {
        1
    } else {
        0
    }
}

/// The turns after a refresh, and how many blocks were drawn for them: they
/// are brought in line, laid out, and drawn wherever the window shows them.
pub open spec fn shown_turns(
    c: CacheView,
    session: SessionState,
    viewport: Option<(usize, usize)>,
    width: u16,
) -> (Seq<TurnView>, nat) {
    let base = banner_height(c);
    let a = all_aligned(c, session, viewport, width);
    let (turns, more) = settled(
        session,
        a.turns,
        base,
        viewport,
        width,
        MAX_LAYOUT_PASSES as nat,
    );
    match viewport {
        Some((top, height)) => (
            window_filled(session, turns, base, top, height, width),
            a.rebuilt + more + window_count(
                session,
                turns,
                base,
                top,
                height,
                turns.len() as int,
            ),
        ),
        None => (turns, a.rebuilt + more),
    }
}

/// The cache after a refresh, and how many blocks were drawn: turns are
/// brought in line, laid out, and drawn wherever the window shows them; then
/// come banner and hint.
pub open spec fn refreshed(
    cache: CacheView,
    session: SessionState,
    asked: u16,
    viewport: Option<(usize, usize)>,
) -> (CacheView, nat) {
    let width = drawn_width(asked);
    let c = if cache.width == width {
        cache
    } else {
        CacheView { width, banner: None, empty: None, turns: Seq::empty() }
    };
    let (turns, n) = shown_turns(c, session, viewport, width);
    let (b, b_new) = new_banner(c, session, width);
    let (e, e_new) = new_empty(c, session);
    (
        CacheView { width, banner: b, empty: e, turns },
        n + one(b_new) + one(e_new),
    )
}

/// How many blocks have their lines.
pub open spec fn resident(s: Seq<SegView>) -> nat
    decreases s.len(),
{
    if s.len() == 0 {
        0
    } else {
        resident(s.drop_last()) + one(s.last().body.rendered())
    }
}

fn base_of(cache: &TranscriptCache) -> (n: usize)
    ensures
        n == banner_height(cache@),
{
    match &cache.banner {
        Some(b) => b.body.height(),
        None => 0,
    }
}

/// The turns that keep their lines.
pub fn keep_turn_range(turns: &Vec<TurnSeg>, base: usize, viewport: Option<(usize, usize)>) -> (r: (
    usize,
    usize,
))
    ensures
        (r.0 as int, r.1 as int) == keep_range(turns_view(turns@), base as nat, viewport),
{
    let (top, height) = match viewport {
        Some(v) => v,
        None => {
            return (0, usize::MAX);
        },
    };
    let ghost all = turns_view(turns@);
    let bottom: usize = top.saturating_add(height);
    let n: usize = turns.len();
    let mut acc: usize = base;
    let mut first: Option<usize> = None;
    let mut last: usize = 0;
    let mut i: usize = 0;
    while i < n
        invariant
            i <= n == turns@.len(),
            all == turns_view(turns@),
            acc == turn_top(all, base as nat, i as int),
            last == last_above(all, base as nat, bottom as nat, i as int),
            first_below(all, base as nat, top as nat, 0) == match first {
                Some(f) => Some(f as int),
                None => first_below(all, base as nat, top as nat, i as int),
            },
            first matches Some(f) ==> f < n,
            last < n || last == 0,
        decreases n - i,
    {
        let end: usize = acc.saturating_add(turns[i].height());
        if first.is_none() && end > top {
            first = Some(i);
        }
        if acc < bottom {
            last = i;
        }
        acc = end;
        i += 1;
    }
    match first {
        Some(f) => {
            let hi: usize = last.saturating_add(KEEP_MARGIN_TURNS);
            (
                f.saturating_sub(KEEP_MARGIN_TURNS),
                if hi <= n - 1 {
                    hi
                } else {
                    n - 1
                },
            )
        },
        None => (0, usize::MAX),
    }
}

fn evict_seg(s: &mut BlockSeg)
    ensures
        final(s).wf(),
        final(s)@ == evicted(old(s)@),
{
    if s.body.is_rendered() {
        let h = s.body.height();
        s.body = BlockBody::Height(h);
    }
    s.anim = Vec::new();
    s.stream = None;
    assert(s.anim@ =~= Seq::empty());
}

/// Keeps only the heights of a turn.
pub fn evict_turn(t: &mut TurnSeg)
    ensures
        final(t).wf(),
        final(t)@ == evicted_turn(old(t)@),
{
    let ghost before = segs(t.content@);
    evict_seg(&mut t.pre);
    let n: usize = t.content.len();
    let mut i: usize = 0;
    while i < n
        invariant
            i <= n == t.content@.len(),
            before.len() == n,
            before == segs(old(t).content@),
            t.pre@ == evicted(old(t)@.pre),
            t.pre.wf(),
            t.post@ == old(t)@.post,
            t.turn_id == old(t).turn_id,
            t.struct_key == old(t).struct_key,
            t.content_ids == old(t).content_ids,
            forall|j: int| 0 <= j < i ==> (#[trigger] t.content@[j])@ == evicted(before[j]),
            forall|j: int| 0 <= j < i ==> (#[trigger] t.content@[j]).wf(),
            forall|j: int| i <= j < n ==> (#[trigger] t.content@[j])@ == before[j],
        decreases n - i,
    {
        evict_seg(&mut t.content[i]);
        i += 1;
    }
    evict_seg(&mut t.post);
    assert(segs(t.content@) =~= evicted_turn(old(t)@).content);
}

/// Draws a block.
pub fn render_block_into(
    hl: &Highlighter,
    seg: &mut BlockSeg,
    turn: &Turn,
    item: &PlanItem,
    width: u16,
)
    requires
        item.within(*turn),
        width > 0,
    ensures
        final(seg).wf(),
        final(seg)@ == drawn(old(seg).key, item.of(*turn), width),
{
    let block = &turn.rounds[item.round].blocks[item.block];
    let whole = match item.shown {
        Shown::Whole => true,
        _ => false,
    };
    if whole && is_growing(block) {
        *seg = init(seg.key, block, width);
        return;
    }
    let mut sink = AnimSink::Slots(Vec::new());
    assert(sink.slots() =~= Seq::empty());
    let lines = render_item_lines(hl, turn, item, width as usize, &mut sink);
    let anim = sink.into_vec();
    assert(anim@ =~= item_slots(item.of(*turn), width as nat));
    *seg = BlockSeg { key: seg.key, body: BlockBody::Lines(Arc::new(lines)), anim, stream: None };
}

fn has_lines(body: &BlockBody) -> (r: bool)
    ensures
        r == (body@ is Lines),
{
    match body {
        BlockBody::Lines(_) => true,
        _ => false,
    }
}

/// Draws what a turn is missing; the result counts the blocks drawn.
pub fn fill_turn(
    hl: &Highlighter,
    t: &mut TurnSeg,
    turn: &Turn,
    num: u64,
    groups: &Vec<(String, u32)>,
    width: u16,
) -> (count: usize)
    requires
        old(t).wf(),
        width > 0,
    ensures
        final(t).wf(),
        final(t)@ == drawn_turn(old(t)@, *turn, num, turn_items(*turn, groups@), width),
        count == cap(draw_count(old(t)@, turn_items(*turn, groups@))),
{
    let plan = plan_turn(turn, groups);
    let ghost items = turn_items(*turn, groups@);
    let ghost before = segs(t.content@);
    let mut count: usize = 0;
    let n: usize = if plan.len() <= t.content.len() {
        plan.len()
    } else {
        t.content.len()
    };
    let mut i: usize = 0;
    while i < n
        invariant
            i <= n <= t.content@.len(),
            n == lower(items.len(), before.len()),
            t.content@.len() == before.len(),
            n <= plan@.len(),
            width > 0,
            plan_within(*turn, plan@),
            items == items_of(*turn, plan@),
            before == segs(old(t).content@),
            t.pre == old(t).pre,
            t.post == old(t).post,
            t.turn_id == old(t).turn_id,
            t.struct_key == old(t).struct_key,
            t.content_ids == old(t).content_ids,
            segs_wf(t.content@),
            forall|j: int|
                0 <= j < i ==> (#[trigger] t.content@[j])@ == filled(before, items, j, width),
            forall|j: int| i <= j < before.len() ==> (#[trigger] t.content@[j])@ == before[j],
            count == cap(missing_count(before, i as int)),
        decreases n - i,
    {
        assert(t.content@[i as int]@ == before[i as int]);
        if !t.content[i].body.is_rendered() && t.content[i].body.height() > 0 {
            assert(plan@[i as int].within(*turn));
            assert(items[i as int] == plan@[i as int].of(*turn));
            render_block_into(hl, &mut t.content[i], turn, &plan[i], width);
            count = count.saturating_add(1);
        }
        i += 1;
    }
    assert(segs(t.content@) =~= drawn_turn(old(t)@, *turn, num, items, width).content);
    if !has_lines(&t.pre.body) {
        let lines = render_turn_pre(turn, num, width as usize);
        t.pre = BlockSeg::of_lines(t.pre.key, lines);
        count = count.saturating_add(1);
    }
    if !has_lines(&t.post.body) {
        let lines = render_turn_post(&turn.failure, width as usize);
        t.post = BlockSeg::of_lines(t.post.key, lines);
        count = count.saturating_add(1);
    }
    count
}

/// All turns are kept consistently.
pub open spec fn turns_wf(v: Seq<TurnSeg>) -> bool {
    forall|i: int| 0 <= i < v.len() ==> (#[trigger] v[i]).wf()
}

/// Lays the turns out once; the result counts the blocks drawn.
fn lay_out(
    hl: &Highlighter,
    session: &SessionState,
    turns: &mut Vec<TurnSeg>,
    lo: usize,
    hi: usize,
    width: u16,
) -> (count: usize)
    requires
        width > 0,
        turns_wf(old(turns)@),
        old(turns)@.len() == session.timeline.turns@.len(),
    ensures
        turns_wf(final(turns)@),
        turns_view(final(turns)@) == laid_out(
            *session,
            turns_view(old(turns)@),
            lo as int,
            hi as int,
            width,
        ),
        count == cap(
            layout_count(
                *session,
                turns_view(old(turns)@),
                lo as int,
                hi as int,
                old(turns)@.len() as int,
            ),
        ),
{
    let ghost before = turns_view(turns@);
    let n: usize = turns.len();
    let mut count: usize = 0;
    let mut i: usize = 0;
    while i < n
        invariant
            i <= n == turns@.len(),
            n == before.len(),
            n == session.timeline.turns@.len(),
            width > 0,
            turns_wf(turns@),
            forall|j: int|
                0 <= j < i ==> (#[trigger] turns@[j])@ == laid_out(
                    *session,
                    before,
                    lo as int,
                    hi as int,
                    width,
                )[j],
            forall|j: int| i <= j < n ==> (#[trigger] turns@[j])@ == before[j],
            count == cap(layout_count(*session, before, lo as int, hi as int, i as int)),
        decreases n - i,
    {
        assert(turns@[i as int]@ == before[i as int]);
        if i < lo || i > hi {
            evict_turn(&mut turns[i]);
        } else {
            let num = session.timeline.turn_number(i);
            let k = fill_turn(
                hl,
                &mut turns[i],
                &session.timeline.turns[i],
                num,
                &session.expanded_groups,
                width,
            );
            count = count.saturating_add(k);
        }
        i += 1;
    }
    assert(turns_view(turns@) =~= laid_out(*session, before, lo as int, hi as int, width));
    count
}

/// Draws the turns in the window; the result counts the blocks drawn.
fn fill_window(
    hl: &Highlighter,
    session: &SessionState,
    turns: &mut Vec<TurnSeg>,
    base: usize,
    top: usize,
    height: usize,
    width: u16,
) -> (count: usize)
    requires
        width > 0,
        turns_wf(old(turns)@),
        old(turns)@.len() == session.timeline.turns@.len(),
    ensures
        turns_wf(final(turns)@),
        turns_view(final(turns)@) == window_filled(
            *session,
            turns_view(old(turns)@),
            base as nat,
            top,
            height,
            width,
        ),
        count == cap(
            window_count(
                *session,
                turns_view(old(turns)@),
                base as nat,
                top,
                height,
                old(turns)@.len() as int,
            ),
        ),
{
    let ghost before = turns_view(turns@);
    let (lo, hi) = keep_turn_range(turns, base, Some((top, height)));
    let bottom: usize = top.saturating_add(height);
    let n: usize = turns.len();
    let mut acc: usize = base;
    let mut count: usize = 0;
    let mut i: usize = 0;
    while i < n
        invariant
            i <= n == turns@.len(),
            n == before.len(),
            n == session.timeline.turns@.len(),
            width > 0,
            turns_wf(turns@),
            bottom == cap((top + height) as nat),
            (lo as int, hi as int) == keep_range(before, base as nat, Some((top, height))),
            acc == turn_top(before, base as nat, i as int),
            forall|j: int|
                0 <= j < i ==> (#[trigger] turns@[j])@ == window_filled(
                    *session,
                    before,
                    base as nat,
                    top,
                    height,
                    width,
                )[j],
            forall|j: int| i <= j < n ==> (#[trigger] turns@[j])@ == before[j],
            count == cap(
                window_count(*session, before, base as nat, top, height, i as int),
            ),
        decreases n - i,
    {
        assert(turns@[i as int]@ == before[i as int]);
        let end: usize = acc.saturating_add(turns[i].height());
        if i >= lo && i <= hi && end > top && acc < bottom {
            let num = session.timeline.turn_number(i);
            let k = fill_turn(
                hl,
                &mut turns[i],
                &session.timeline.turns[i],
                num,
                &session.expanded_groups,
                width,
            );
            count = count.saturating_add(k);
        }
        acc = end;
        i += 1;
    }
    assert(turns_view(turns@) =~= window_filled(
        *session,
        before,
        base as nat,
        top,
        height,
        width,
    ));
    count
}

/// Cached turns that can be taken out.
pub open spec fn turn_slots(v: Seq<Option<TurnSeg>>) -> Seq<Option<TurnView>> {
    Seq::new(
        v.len(),
        |i: int|
            match v[i] {
                Some(t) => Some(t@),
                None => None,
            },
    )
}

/// All turns that are left are kept consistently.
pub open spec fn turn_slots_wf(v: Seq<Option<TurnSeg>>) -> bool {
    forall|i: int| 0 <= i < v.len() ==> ((#[trigger] v[i]) matches Some(t) ==> t.wf())
}

fn take_turn(ids: &Vec<String>, slots: &mut Vec<Option<TurnSeg>>, id: &str) -> (r: Option<TurnSeg>)
    requires
        ids@.len() == old(slots)@.len(),
        turn_slots_wf(old(slots)@),
    ensures
        final(slots)@.len() == old(slots)@.len(),
        turn_slots_wf(final(slots)@),
        r matches Some(t) ==> t.wf(),
        ({
            let (prev, rest) = taken(texts(ids@), turn_slots(old(slots)@), id@);
            &&& prev == match r {
                Some(t) => Some(t@),
                None => None,
            }
            &&& rest == turn_slots(final(slots)@)
        }),
{
    match find_last(ids, id) {
        Some(k) => {
            let ghost before = slots@;
            let r = take_slot(slots, k);
            assert(before[k as int] == r);
            assert(turn_slots(slots@) =~= turn_slots(before).update(k as int, None));
            r
        },
        None => None,
    }
}

fn count_blocks(rounds: &Vec<Round>) -> (n: u128)
    ensures
        n == block_count(rounds@),
{
    let mut n: u128 = 0;
    let mut i: usize = 0;
    assert(rounds@.take(0) =~= Seq::empty());
    while i < rounds.len()
        invariant
            i <= rounds@.len(),
            n == block_count(rounds@.take(i as int)),
            n <= i * (usize::MAX as int),
        decreases rounds@.len() - i,
    {
        proof {
            assert(rounds@.take(i + 1).drop_last() =~= rounds@.take(i as int));
            assert(i * (usize::MAX as int) + usize::MAX <= u128::MAX) by (nonlinear_arith)
                requires
                    i <= usize::MAX,
                    usize::MAX <= 0xffff_ffff_ffff_ffff,
            ;
            assert((i + 1) * (usize::MAX as int) == i * (usize::MAX as int) + usize::MAX)
                by (nonlinear_arith);
        }
        n = n + rounds[i].blocks.len() as u128;
        i += 1;
    }
    assert(rounds@.take(i as int) =~= rounds@);
    n
}

fn align_at(
    session: &SessionState,
    i: usize,
    lo: usize,
    hi: usize,
    width: u16,
    prev: Option<TurnSeg>,
    rebuilt: usize,
) -> (r: (TurnSeg, usize))
    requires
        i < session.timeline.turns@.len(),
        prev matches Some(t) ==> t.wf(),
    ensures
        r.0.wf(),
        ({
            let (t, n) = aligned_at(
                *session,
                i as int,
                lo as int,
                hi as int,
                width,
                match prev {
                    Some(t) => Some(t@),
                    None => None,
                },
            );
            &&& r.0@ == t
            &&& r.1 == cap(rebuilt as nat + n)
        }),
{
    let turn = &session.timeline.turns[i];
    let num = session.timeline.turn_number(i);
    if i < lo || i > hi {
        let same = match &prev {
            Some(t) => (t.content.len() as u128) == count_blocks(&turn.rounds),
            None => false,
        };
        if same {
            match prev {
                Some(t) => {
                    return (t, rebuilt);
                },
                None => {},
            }
        }
    }
    align_turn_seg(turn, num, &session.expanded_groups, width, prev, rebuilt)
}

fn ids_of_turns(turns: &Vec<TurnSeg>) -> (out: Vec<String>)
    ensures
        texts(out@) == turn_ids(turns_view(turns@)),
{
    let mut out: Vec<String> = Vec::new();
    let ghost want = turn_ids(turns_view(turns@));
    let mut i: usize = 0;
    while i < turns.len()
        invariant
            i <= turns@.len(),
            want == turn_ids(turns_view(turns@)),
            texts(out@) == want.take(i as int),
        decreases turns@.len() - i,
    {
        out.push(turns[i].turn_id.clone());
        i += 1;
        assert(texts(out@) =~= want.take(i as int));
    }
    assert(texts(out@) =~= want);
    out
}

fn align_all(
    session: &SessionState,
    turns: Vec<TurnSeg>,
    lo: usize,
    hi: usize,
    width: u16,
) -> (r: (Vec<TurnSeg>, usize))
    requires
        turns_wf(turns@),
    ensures
        turns_wf(r.0@),
        r.0@.len() == session.timeline.turns@.len(),
        ({
            let a = aligned_turns(
                *session,
                session.timeline.turns@.len() as int,
                lo as int,
                hi as int,
                width,
                turn_ids(turns_view(turns@)),
                slots_of(turns_view(turns@)),
            );
            &&& turns_view(r.0@) == a.turns
            &&& r.1 == cap(a.rebuilt)
        }),
{
    let ids = ids_of_turns(&turns);
    let ghost views = turns_view(turns@);
    let mut slots = to_slots(turns);
    assert(turn_slots(slots@) =~= slots_of(views));
    assert(texts(ids@).len() == ids@.len());
    let mut out: Vec<TurnSeg> = Vec::new();
    let mut rebuilt: usize = 0;
    let mut i: usize = 0;
    assert(turns_view(out@) =~= Seq::empty());
    while i < session.timeline.turns.len()
        invariant
            i <= session.timeline.turns@.len(),
            ids@.len() == slots@.len(),
            texts(ids@) == turn_ids(views),
            turn_slots_wf(slots@),
            turns_wf(out@),
            out@.len() == i,
            ({
                let a = aligned_turns(
                    *session,
                    i as int,
                    lo as int,
                    hi as int,
                    width,
                    turn_ids(views),
                    slots_of(views),
                );
                &&& turns_view(out@) == a.turns
                &&& turn_slots(slots@) == a.slots
                &&& rebuilt == cap(a.rebuilt)
            }),
        decreases session.timeline.turns@.len() - i,
    {
        let prev = take_turn(&ids, &mut slots, session.timeline.turns[i].turn_id.as_str());
        let (t, n) = align_at(session, i, lo, hi, width, prev, rebuilt);
        out.push(t);
        rebuilt = n;
        i += 1;
    }
    (out, rebuilt)
}

fn settle(
    hl: &Highlighter,
    session: &SessionState,
    turns: &mut Vec<TurnSeg>,
    base: usize,
    viewport: Option<(usize, usize)>,
    width: u16,
) -> (count: usize)
    requires
        width > 0,
        turns_wf(old(turns)@),
        old(turns)@.len() == session.timeline.turns@.len(),
    ensures
        turns_wf(final(turns)@),
        final(turns)@.len() == old(turns)@.len(),
        ({
            let (t, n) = settled(
                *session,
                turns_view(old(turns)@),
                base as nat,
                viewport,
                width,
                MAX_LAYOUT_PASSES as nat,
            );
            &&& turns_view(final(turns)@) == t
            &&& count == cap(n)
        }),
{
    let ghost start = turns_view(turns@);
    let ghost goal = settled(
        *session,
        start,
        base as nat,
        viewport,
        width,
        MAX_LAYOUT_PASSES as nat,
    );
    let mut count: usize = 0;
    let mut left: usize = MAX_LAYOUT_PASSES;
    let mut done: bool = false;
    let ghost mut sum: nat = 0;
    while left > 0 && !done
        invariant
            left <= MAX_LAYOUT_PASSES,
            width > 0,
            turns_wf(turns@),
            turns@.len() == session.timeline.turns@.len(),
            turns@.len() == old(turns)@.len(),
            count == cap(sum),
            done ==> goal == (turns_view(turns@), sum),
            !done ==> ({
                let (t, n) = settled(
                    *session,
                    turns_view(turns@),
                    base as nat,
                    viewport,
                    width,
                    left as nat,
                );
                goal == (t, sum + n)
            }),
        decreases left,
    {
        let ghost now = turns_view(turns@);
        let (lo, hi) = keep_turn_range(turns, base, viewport);
        let k = lay_out(hl, session, turns, lo, hi, width);
        assert(turns_view(turns@).len() == turns@.len());
        let ghost c = layout_count(*session, now, lo as int, hi as int, now.len() as int);
        if k == 0 {
            done = true;
            assert(c == 0);
        } else {
            count = count.saturating_add(k);
            proof {
                sum = sum + c;
            }
        }
        left -= 1;
    }
    count
}

fn resident_in(v: &Vec<BlockSeg>) -> (n: usize)
    ensures
        n == resident(segs(v@)),
        n <= v@.len(),
{
    let ghost all = segs(v@);
    let mut n: usize = 0;
    let mut i: usize = 0;
    assert(all.take(0) =~= Seq::empty());
    while i < v.len()
        invariant
            i <= v@.len(),
            n <= i,
            all == segs(v@),
            n == resident(all.take(i as int)),
        decreases v@.len() - i,
    {
        proof {
            assert(all.take(i + 1).drop_last() =~= all.take(i as int));
            assert(all.take(i + 1).last() == v@[i as int]@);
        }
        if v[i].body.is_rendered() {
            n += 1;
        }
        i += 1;
    }
    assert(all.take(i as int) =~= all);
    n
}

proof fn lemma_resident_add(a: Seq<SegView>, b: Seq<SegView>)
    ensures
        resident(a + b) == resident(a) + resident(b),
    decreases b.len(),
{
    if b.len() == 0 {
        assert(a + b =~= a);
    } else {
        assert((a + b).drop_last() =~= a + b.drop_last());
        lemma_resident_add(a, b.drop_last());
    }
}

proof fn lemma_resident_one(s: SegView)
    ensures
        resident(seq![s]) == one(s.body.rendered()),
{
    assert(seq![s].drop_last() =~= Seq::empty());
    assert(resident(Seq::<SegView>::empty()) == 0);
}

fn resident_opt(o: &Option<BlockSeg>) -> (n: usize)
    ensures
        n == resident(maybe_seg(crate::seg::opt_seg(*o))),
        n <= 1,
{
    match o {
        Some(s) => {
            proof {
                lemma_resident_one(s@);
            }
            if s.body.is_rendered() {
                1
            } else {
                0
            }
        },
        None => 0,
    }
}

/// How many blocks have their lines.
pub fn count_resident(cache: &TranscriptCache) -> (n: usize)
    ensures
        n == cap(resident(cache@.parts())),
{
    let ghost turns = turns_view(cache.turns@);
    let mut n: usize = resident_opt(&cache.banner);
    let ghost head = maybe_seg(cache@.banner);
    let mut i: usize = 0;
    assert(turns.take(0) =~= Seq::empty());
    assert(head + Seq::<SegView>::empty() =~= head);
    while i < cache.turns.len()
        invariant
            i <= cache.turns@.len(),
            turns == turns_view(cache.turns@),
            n == cap(resident(head + crate::seg::all_parts(turns.take(i as int)))),
        decreases cache.turns@.len() - i,
    {
        let t = &cache.turns[i];
        proof {
            assert(turns.take(i + 1).drop_last() =~= turns.take(i as int));
            let a = crate::seg::all_parts(turns.take(i as int));
            let p = t@.parts();
            assert(head + (a + p) =~= head + a + p);
            lemma_resident_add(head + a, p);
            lemma_resident_add(seq![t@.pre] + t@.content, seq![t@.post]);
            lemma_resident_add(seq![t@.pre], t@.content);
            lemma_resident_one(t@.pre);
            lemma_resident_one(t@.post);
        }
        if t.pre.body.is_rendered() {
            n = n.saturating_add(1);
        }
        n = n.saturating_add(resident_in(&t.content));
        if t.post.body.is_rendered() {
            n = n.saturating_add(1);
        }
        i += 1;
    }
    assert(turns.take(i as int) =~= turns);
    proof {
        lemma_resident_add(
            head + crate::seg::all_parts(turns),
            maybe_seg(cache@.empty),
        );
    }
    n.saturating_add(resident_opt(&cache.empty))
}

fn empty_seg() -> (s: BlockSeg)
    ensures
        s.wf(),
        s@ == seg_of_lines(1, seq![empty_row()]),
{
    let mut lines: Vec<RenderLine> = Vec::new();
    let l = RenderLine::new().span("（暂无回合——输入消息开始对话）", SpanStyle::Dim);
    assert(l@ =~= empty_row());
    lines.push(l);
    assert(rows(lines@) =~= seq![empty_row()]);
    BlockSeg::of_lines(1, lines)
}

fn refresh_banner(cache: &mut TranscriptCache, session: &SessionState, width: u16) -> (new: bool)
    requires
        old(cache).wf(),
    ensures
        final(cache).wf(),
        (final(cache)@.banner, new) == new_banner(old(cache)@, *session, width),
        final(cache).turns == old(cache).turns,
        final(cache).empty == old(cache).empty,
        final(cache).width == old(cache).width,
        final(cache).stats == old(cache).stats,
{
    let key = banner_cache_key(session, width);
    match render_banner(session) {
        Some(line) => {
            let fresh = match &cache.banner {
                Some(s) => s.key == key,
                None => false,
            };
            if fresh {
                return false;
            }
            let mut lines: Vec<RenderLine> = Vec::new();
            lines.push(line);
            assert(rows(lines@) =~= seq![line@]);
            cache.banner = Some(BlockSeg::of_lines(key, lines));
            true
        },
        None => {
            cache.banner = None;
            false
        },
    }
}

fn refresh_hint(cache: &mut TranscriptCache, session: &SessionState) -> (new: bool)
    requires
        old(cache).wf(),
    ensures
        final(cache).wf(),
        (final(cache)@.empty, new) == new_empty(old(cache)@, *session),
        final(cache).turns == old(cache).turns,
        final(cache).banner == old(cache).banner,
        final(cache).width == old(cache).width,
        final(cache).stats == old(cache).stats,
{
    if session.timeline.turns.len() > 0 {
        cache.empty = None;
        return false;
    }
    if cache.empty.is_some() {
        return false;
    }
    cache.empty = Some(empty_seg());
    true
}

fn refresh_turns(
    hl: &Highlighter,
    session: &SessionState,
    width: u16,
    viewport: Option<(usize, usize)>,
    cache: &mut TranscriptCache,
) -> (n: usize)
    requires
        old(cache).wf(),
        width > 0,
    ensures
        final(cache).wf(),
        final(cache).width == old(cache).width,
        final(cache).banner == old(cache).banner,
        final(cache).empty == old(cache).empty,
        ({
            let (t, k) = shown_turns(old(cache)@, *session, viewport, width);
            &&& turns_view(final(cache).turns@) == t
            &&& n == cap(k)
        }),
{
    let ghost c = cache@;
    let base = base_of(cache);
    let (lo0, hi0) = keep_turn_range(&cache.turns, base, viewport);
    let count: usize = session.timeline.turns.len();
    let last: usize = count.saturating_sub(1);
    let old_len: usize = cache.turns.len();
    let most: usize = if hi0 >= old_len {
        hi0
    } else {
        old_len
    };
    let hi: usize = if most <= last {
        most
    } else {
        last
    };
    let lo: usize = if lo0 <= hi {
        lo0
    } else {
        hi
    };
    assert((lo as int, hi as int) == align_range(c, *session, viewport));
    let mut old_turns: Vec<TurnSeg> = Vec::new();
    std::mem::swap(&mut cache.turns, &mut old_turns);
    let (turns, rebuilt) = align_all(session, old_turns, lo, hi, width);
    let mut turns = turns;
    let ghost a = all_aligned(c, *session, viewport, width);
    assert(turns_view(turns@) == a.turns);
    let more = settle(hl, session, &mut turns, base, viewport, width);
    let mut n: usize = rebuilt.saturating_add(more);
    match viewport {
        Some(v) => {
            let extra = fill_window(hl, session, &mut turns, base, v.0, v.1, width);
            n = n.saturating_add(extra);
        },
        None => {},
    }
    cache.turns = turns;
    n
}

/// Brings the cache up to date with the session; blocks in and near the
/// window, given as its first line and height, have their lines afterwards. How
/// long it took is left to the caller, who has the clock, to write down.
pub fn refresh(
    hl: &Highlighter,
    session: &SessionState,
    width: u16,
    viewport: Option<(usize, usize)>,
    cache: &mut TranscriptCache,
) -> (stats: RenderStats)
    requires
        old(cache).wf(),
    ensures
        final(cache).wf(),
        ({
            let (c, n) = refreshed(old(cache)@, *session, width, viewport);
            &&& final(cache)@ == c
            &&& final(cache).stats == stats
            &&& stats.rebuilt_blocks == cap(n)
            &&& stats.resident_blocks == cap(resident(c.parts()))
        }),
{
    let width: u16 = if width < 20 {
        20
    } else {
        width
    };
    if cache.width != width {
        *cache = TranscriptCache::new(width);
    }
    let ghost c = cache@;
    let mut n = refresh_turns(hl, session, width, viewport, cache);
    assert(new_banner(cache@, *session, width) == new_banner(c, *session, width));
    let b_new = refresh_banner(cache, session, width);
    if b_new {
        n = n.saturating_add(1);
    }
    let e_new = refresh_hint(cache, session);
    if e_new {
        n = n.saturating_add(1);
    }
    let stats = RenderStats {
        rebuilt_blocks: n,
        resident_blocks: count_resident(cache),
        render_us: 0,
    };
    cache.stats = stats;
    assert(cache@ =~= refreshed(old(cache)@, *session, width, viewport).0);
    stats
}

} // verus!
