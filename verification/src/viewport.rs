//! What part of the transcript is shown, and where its animated cells are.

use crate::anim::{anim_glyph, glyph};
use crate::estimates::cap;
use crate::highlight::Highlighter;
use crate::refresh::{refresh, refreshed};
use crate::seg::{height_of, CacheView, TranscriptCache, ViewportSlot};
use crate::session::{Scroll, SessionState};
use vstd::prelude::*;

verus! {

/// How often the shown part is computed again because drawing changed the
/// number of lines.
pub const VIEWPORT_FIXPOINT_PASSES: usize = 4;

/// The first line shown: the last `height` lines are, or those `offset`
/// lines further up when the end is not followed.
pub open spec fn top_line(total: nat, height: usize, scroll: Scroll) -> usize {
    let end = total - height;
    let back = if scroll.follow {
        0
    } else {
        scroll.offset as int
    };
    if end - back > 0 {
        (end - back) as usize
    } else {
        0
    }
}

/// The first line shown.
pub fn viewport_top(total: usize, height: usize, scroll: Scroll) -> (top: usize)
    ensures
        top == top_line(total as nat, height, scroll),
{
    let end: usize = total.saturating_sub(height);
    if scroll.follow {
        end
    } else {
        end.saturating_sub(scroll.offset)
    }
}

/// Following the end shows the last lines; nothing beyond them is ever shown
/// while there are enough.
pub proof fn law_window_stays_within(total: usize, height: usize, scroll: Scroll)
    ensures
        height <= total ==> top_line(total as nat, height, scroll) + height <= total,
        height <= total && scroll.follow ==> top_line(total as nat, height, scroll) + height
            == total,
        total < height ==> top_line(total as nat, height, scroll) == 0,
{
}

/// The first line shown of what a cache holds.
pub open spec fn cache_top(c: CacheView, height: usize, scroll: Scroll) -> usize {
    top_line(cap(height_of(c.parts())), height, scroll)
}

/// The cache after drawing the lines from `top` on.
#[verifier::opaque]
pub open spec fn drawn_at(
    c: CacheView,
    session: SessionState,
    width: u16,
    height: usize,
    top: usize,
) -> CacheView {
    refreshed(c, session, width, Some((top, height))).0
}

fn draw_at(
    hl: &Highlighter,
    sess: &SessionState,
    width: u16,
    height: usize,
    top: usize,
    cache: &mut TranscriptCache,
)
    requires
        old(cache).wf(),
    ensures
        final(cache).wf(),
        final(cache)@ == drawn_at(old(cache)@, *sess, width, height, top),
{
    let _ = refresh(hl, sess, width, Some((top, height)), cache);
    proof {
        reveal(drawn_at);
    }
}

/// The cache after at most `n` rounds of drawing what is shown, until what is
/// shown does not move any more.
pub open spec fn viewed(
    c: CacheView,
    session: SessionState,
    width: u16,
    height: usize,
    top: usize,
    n: nat,
) -> CacheView
    decreases n,
{
    if n == 0 {
        c
    } else {
        let next = drawn_at(c, session, width, height, top);
        let moved = cache_top(next, height, session.scroll);
        if moved == top {
            next
        } else {
            viewed(next, session, width, height, moved, (n - 1) as nat)
        }
    }
}

/// Draws what is shown of a session. Drawing can change the number of lines,
/// and so what is shown: this goes on until it does not move any more, a few
/// times at most.
pub fn refresh_at_viewport(
    hl: &Highlighter,
    sess: &SessionState,
    width: u16,
    height: usize,
    cache: &mut TranscriptCache,
)
    requires
        old(cache).wf(),
    ensures
        final(cache).wf(),
        final(cache)@ == viewed(
            old(cache)@,
            *sess,
            width,
            height,
            cache_top(old(cache)@, height, sess.scroll),
            VIEWPORT_FIXPOINT_PASSES as nat,
        ),
{
    let ghost start = cache@;
    let ghost first = cache_top(start, height, sess.scroll);
    let mut top: usize = viewport_top(cache.total_lines(), height, sess.scroll);
    let mut left: usize = VIEWPORT_FIXPOINT_PASSES;
    while left > 0
        invariant
            left <= VIEWPORT_FIXPOINT_PASSES,
            cache.wf(),
            start == old(cache)@,
            first == cache_top(start, height, sess.scroll),
            viewed(start, *sess, width, height, first, VIEWPORT_FIXPOINT_PASSES as nat) == viewed(
                cache@,
                *sess,
                width,
                height,
                top,
                left as nat,
            ),
        decreases left,
    {
        let ghost c = cache@;
        draw_at(hl, sess, width, height, top, cache);
        let next = viewport_top(cache.total_lines(), height, sess.scroll);
        assert(next == cache_top(cache@, height, sess.scroll));
        if next == top {
            assert(viewed(c, *sess, width, height, top, left as nat) == cache@);
            return;
        }
        top = next;
        left -= 1;
    }
}

/// Once what is shown does not move any more, it is what the cache draws: the
/// line that the last round drew from is the first line shown.
pub proof fn law_settled_view_is_drawn(
    c: CacheView,
    session: SessionState,
    width: u16,
    height: usize,
    top: usize,
)
    requires
        cache_top(drawn_at(c, session, width, height, top), height, session.scroll) == top,
    ensures
        ({
            let v = viewed(c, session, width, height, top, VIEWPORT_FIXPOINT_PASSES as nat);
            &&& v == drawn_at(c, session, width, height, top)
            &&& cache_top(v, height, session.scroll) == top
        }),
{
}

/// Where the transcript is on the screen.
#[derive(Clone, Copy, Debug, PartialEq, Eq, Structural)]
pub struct Area {
    pub x: u16,
    pub y: u16,
    pub width: u16,
    pub height: u16,
}

/// A glyph and its cell.
#[derive(Clone, Copy, Debug)]
pub struct PlacedGlyph {
    pub x: u16,
    pub y: u16,
    pub glyph: &'static str,
}

/// A glyph and its cell.
#[verifier::ext_equal]
pub struct PlacedView {
    pub x: u16,
    pub y: u16,
    pub glyph: Seq<char>,
}

/// Glyphs and their cells.
pub open spec fn placed_view(v: Seq<PlacedGlyph>) -> Seq<PlacedView> {
    Seq::new(v.len(), |i: int| PlacedView { x: v[i].x, y: v[i].y, glyph: v[i].glyph@ })
}

/// A slot whose glyph is drawn: it has one, and its cell is in the area, whose
/// last column is left to the scroll bar.
pub open spec fn is_placed(area: Area, s: ViewportSlot, frame: u64) -> bool {
    glyph(s.kind, frame as int) is Some && s.col + 1 < area.width && s.row < area.height
}

/// The glyphs of the first `n` slots.
pub open spec fn placed(area: Area, slots: Seq<ViewportSlot>, frame: u64, n: nat) -> Seq<PlacedView>
    decreases n,
{
    if n == 0 {
        Seq::empty()
    } else {
        let rest = placed(area, slots, frame, (n - 1) as nat);
        let s = slots[n - 1];
        if is_placed(area, s, frame) {
            rest.push(
                PlacedView {
                    x: (area.x + s.col) as u16,
                    y: (area.y + s.row) as u16,
                    glyph: glyph(s.kind, frame as int)->0,
                },
            )
        } else {
            rest
        }
    }
}

/// The glyphs to draw over the transcript in a frame.
pub fn place_slots(area: Area, slots: &Vec<ViewportSlot>, frame: u64) -> (out: Vec<PlacedGlyph>)
    requires
        area.x + area.width <= u16::MAX,
        area.y + area.height <= u16::MAX,
    ensures
        placed_view(out@) == placed(area, slots@, frame, slots@.len()),
{
    let mut out: Vec<PlacedGlyph> = Vec::new();
    let n: usize = slots.len();
    let mut i: usize = 0;
    assert(placed_view(out@) =~= placed(area, slots@, frame, 0));
    while i < n
        invariant
            i <= n == slots@.len(),
            area.x + area.width <= u16::MAX,
            area.y + area.height <= u16::MAX,
            placed_view(out@) == placed(area, slots@, frame, i as nat),
        decreases n - i,
    {
        let s = slots[i];
        let ghost before = out@;
        if s.col < area.width.saturating_sub(1) && s.row < area.height {
            if let Some(g) = anim_glyph(s.kind, frame) {
                let p = PlacedGlyph { x: area.x + s.col, y: area.y + s.row, glyph: g };
                out.push(p);
                assert(placed_view(out@) =~= placed_view(before).push(
                    PlacedView { x: p.x, y: p.y, glyph: g@ },
                ));
            }
        }
        i += 1;
    }
    out
}

/// Every glyph is drawn within the area, off its last column.
pub proof fn law_glyphs_stay_within(area: Area, slots: Seq<ViewportSlot>, frame: u64, n: nat, k: int)
    requires
        area.x + area.width <= u16::MAX,
        area.y + area.height <= u16::MAX,
        n <= slots.len(),
        0 <= k < placed(area, slots, frame, n).len(),
    ensures
        ({
            let p = placed(area, slots, frame, n)[k];
            area.x <= p.x && p.x + 1 < area.x + area.width && area.y <= p.y && p.y < area.y
                + area.height
        }),
    decreases n,
{
    if n > 0 {
        let rest = placed(area, slots, frame, (n - 1) as nat);
        if k < rest.len() {
            law_glyphs_stay_within(area, slots, frame, (n - 1) as nat, k);
        }
    }
}

} // verus!
