//! The block cache of a transcript: what is cached, under which keys, and how
//! the visible window is read out of it.

use crate::anim::{AnimKind, AnimSlot};
use crate::estimates::cap;
use crate::plan::{h_str, h_u64, mix, mix_str, FNV_OFFSET};
use crate::render_line::{rows, RenderLine, SpanView};
use crate::render_transcript::{bit, bit_of};
use crate::stream::{stream_prefix, StreamState, StreamView};
use crate::text::texts;
use crate::timeline::{
    Block, Round, TimelineBlockKind, TimelineBlockState, TimelineFailure, TimelineTurnState,
    Turn,
};
use std::sync::Arc;
use vstd::prelude::*;

verus! {

/// How many turns beyond the window stay drawn on either side.
pub const KEEP_MARGIN_TURNS: usize = 3;

/// An animated cell of the window: its line and column there.
#[derive(Clone, Copy, Debug, PartialEq, Eq, Structural)]
pub struct ViewportSlot {
    pub row: u16,
    pub col: u16,
    pub kind: AnimKind,
}

/// What is kept of a block: its lines, the lines of growing text, or only its
/// height.
#[derive(Clone, Debug)]
pub enum BlockBody {
    Lines(Arc<Vec<RenderLine>>),
    Streaming { prefix: Arc<Vec<RenderLine>>, tail: Vec<RenderLine> },
    Height(usize),
}

/// What is kept of a block.
#[verifier::ext_equal]
pub enum BodyView {
    Lines(Seq<Seq<SpanView>>),
    Streaming { prefix: Seq<Seq<SpanView>>, tail: Seq<Seq<SpanView>> },
    Height(usize),
}

impl View for BlockBody {
    type V = BodyView;

    open spec fn view(&self) -> BodyView {
        match *self {
            BlockBody::Lines(l) => BodyView::Lines(rows(l@)),
            BlockBody::Streaming { prefix, tail } => BodyView::Streaming {
                prefix: rows(prefix@),
                tail: rows(tail@),
            },
            BlockBody::Height(n) => BodyView::Height(n),
        }
    }
}

impl BodyView {
    /// The lines of the block are there.
    pub open spec fn rendered(self) -> bool {
        self !is Height
    }

    /// The lines of the block.
    pub open spec fn shown(self) -> Seq<Seq<SpanView>> {
        match self {
            BodyView::Lines(l) => l,
            BodyView::Streaming { prefix, tail } => prefix + tail,
            BodyView::Height(_) => Seq::empty(),
        }
    }

    /// How many lines the block takes.
    pub open spec fn height(self) -> nat {
        match self {
            BodyView::Height(n) => n as nat,
            _ => cap(self.shown().len()),
        }
    }
}

impl BlockBody {
    /// How many lines the block takes.
    pub fn height(&self) -> (n: usize)
        ensures
            n == self@.height(),
    {
        match self {
            BlockBody::Lines(l) => l.len(),
            BlockBody::Streaming { prefix, tail } => prefix.len().saturating_add(tail.len()),
            BlockBody::Height(n) => *n,
        }
    }

    /// The lines, where they are there in one piece.
    pub fn lines(&self) -> (r: Option<&Arc<Vec<RenderLine>>>)
        ensures
            match r {
                Some(l) => self@ == BodyView::Lines(rows(l@)),
                None => self@ !is Lines,
            },
    {
        match self {
            BlockBody::Lines(l) => Some(l),
            _ => None,
        }
    }

    /// Whether the lines of the block are there.
    pub fn is_rendered(&self) -> (r: bool)
        ensures
            r == self@.rendered(),
    {
        match self {
            BlockBody::Height(_) => false,
            _ => true,
        }
    }

    /// Line `i` of the block.
    pub fn line(&self, i: usize) -> (r: Option<&RenderLine>)
        ensures
            match r {
                Some(l) => i < self@.shown().len() && l@ == self@.shown()[i as int],
                None => i >= self@.shown().len(),
            },
    {
        match self {
            BlockBody::Lines(l) => if i < l.len() {
                Some(&l[i])
            } else {
                None
            },
            BlockBody::Streaming { prefix, tail } => {
                let n: usize = prefix.len();
                if i < n {
                    Some(&prefix[i])
                } else if i - n < tail.len() {
                    Some(&tail[i - n])
                } else {
                    None
                }
            },
            BlockBody::Height(_) => None,
        }
    }

    /// Appends the lines of the block.
    pub fn push_rendered_lines<'a>(&'a self, out: &mut Vec<&'a RenderLine>)
        ensures
            ref_rows(final(out)@) == ref_rows(old(out)@) + self@.shown(),
    {
        let ghost start = ref_rows(out@);
        match self {
            BlockBody::Lines(l) => push_refs(l, 0, l.len(), out),
            BlockBody::Streaming { prefix, tail } => {
                push_refs(prefix, 0, prefix.len(), out);
                push_refs(tail, 0, tail.len(), out);
                assert(rows(prefix@).subrange(0, prefix@.len() as int) =~= rows(prefix@));
                assert(rows(tail@).subrange(0, tail@.len() as int) =~= rows(tail@));
                assert(ref_rows(out@) =~= start + (rows(prefix@) + rows(tail@)));
            },
            BlockBody::Height(_) => {
                assert(start + Seq::<Seq<SpanView>>::empty() =~= start);
            },
        }
        assert(self@ is Lines ==> self@.shown().subrange(0, self@.shown().len() as int)
            =~= self@.shown());
    }
}

/// What borrowed lines show.
pub open spec fn ref_rows(v: Seq<&RenderLine>) -> Seq<Seq<SpanView>> {
    Seq::new(v.len(), |i: int| v[i]@)
}

proof fn lemma_ref_rows_push(v: Seq<&RenderLine>, l: &RenderLine)
    ensures
        ref_rows(v.push(l)) == ref_rows(v).push(l@),
{
    assert(ref_rows(v.push(l)) =~= ref_rows(v).push(l@));
}

fn push_refs<'a>(v: &'a Vec<RenderLine>, from: usize, to: usize, out: &mut Vec<&'a RenderLine>)
    requires
        from <= to <= v@.len(),
    ensures
        ref_rows(final(out)@) == ref_rows(old(out)@) + rows(v@).subrange(from as int, to as int),
{
    let ghost start = ref_rows(out@);
    let ghost all = rows(v@);
    let mut i: usize = from;
    assert(start + all.subrange(from as int, from as int) =~= start);
    while i < to
        invariant
            from <= i <= to <= v@.len(),
            all == rows(v@),
            ref_rows(out@) == start + all.subrange(from as int, i as int),
        decreases to - i,
    {
        proof {
            lemma_ref_rows_push(out@, &v@[i as int]);
            assert(start + all.subrange(from as int, i + 1) =~= (start + all.subrange(
                from as int,
                i as int,
            )).push(all[i as int]));
        }
        out.push(&v[i]);
        i += 1;
    }
}

/// A cached block: what it was drawn from, as a hash; what is kept of it; its
/// animated cells; and, for growing text, where wrapping stands.
#[derive(Clone, Debug)]
pub struct BlockSeg {
    pub key: u64,
    pub body: BlockBody,
    pub anim: Vec<AnimSlot>,
    pub stream: Option<StreamState>,
}

/// A cached block.
#[verifier::ext_equal]
pub struct SegView {
    pub key: u64,
    pub body: BodyView,
    pub anim: Seq<AnimSlot>,
    pub stream: Option<StreamView>,
}

impl View for BlockSeg {
    type V = SegView;

    open spec fn view(&self) -> SegView {
        SegView {
            key: self.key,
            body: self.body@,
            anim: self.anim@,
            stream: match self.stream {
                Some(s) => Some(s@),
                None => None,
            },
        }
    }
}

impl SegView {
    /// Growing text is kept with exactly its finished lines in front.
    pub open spec fn ok(self) -> bool {
        self.stream matches Some(s) ==> (self.body matches BodyView::Streaming { prefix, tail }
            && prefix == stream_prefix(s))
    }
}

impl BlockSeg {
    /// The block is kept consistently.
    pub open spec fn wf(&self) -> bool {
        &&& self@.ok()
        &&& self.stream matches Some(s) ==> s.wf()
    }

    /// A block of which only the height is kept.
    pub fn of_height(key: u64, height: usize) -> (s: Self)
        ensures
            s.wf(),
            s@ == seg_of_height(key, height),
    {
        let s = BlockSeg { key, body: BlockBody::Height(height), anim: Vec::new(), stream: None };
        assert(s.anim@ =~= Seq::empty());
        s
    }

    /// A block kept as lines without animation.
    pub fn of_lines(key: u64, lines: Vec<RenderLine>) -> (s: Self)
        ensures
            s.wf(),
            s@ == seg_of_lines(key, rows(lines@)),
    {
        let s = BlockSeg { key, body: BlockBody::Lines(Arc::new(lines)), anim: Vec::new(), stream: None };
        assert(s.anim@ =~= Seq::empty());
        s
    }
}

/// A block of which only the height is kept.
pub open spec fn seg_of_height(key: u64, height: usize) -> SegView {
    SegView { key, body: BodyView::Height(height), anim: Seq::empty(), stream: None }
}

/// A block kept as lines without animation.
pub open spec fn seg_of_lines(key: u64, lines: Seq<Seq<SpanView>>) -> SegView {
    SegView { key, body: BodyView::Lines(lines), anim: Seq::empty(), stream: None }
}

/// Cached blocks.
pub open spec fn segs(v: Seq<BlockSeg>) -> Seq<SegView> {
    Seq::new(v.len(), |i: int| v[i]@)
}

/// Pushing a block pushes what is cached of it.
pub broadcast proof fn lemma_segs_push(v: Seq<BlockSeg>, s: BlockSeg)
    ensures
        #[trigger] segs(v.push(s)) == segs(v).push(s@),
{
    assert(segs(v.push(s)) =~= segs(v).push(s@));
}

/// All blocks are kept consistently.
pub open spec fn segs_wf(v: Seq<BlockSeg>) -> bool {
    forall|i: int| 0 <= i < v.len() ==> (#[trigger] v[i]).wf()
}

/// A cached turn: what stands before its blocks, the blocks in the order in
/// which they are shown, with their ids, and what stands after them.
#[derive(Clone, Debug)]
pub struct TurnSeg {
    pub turn_id: String,
    pub struct_key: u64,
    pub pre: BlockSeg,
    pub content: Vec<BlockSeg>,
    pub content_ids: Vec<String>,
    pub post: BlockSeg,
}

/// A cached turn.
#[verifier::ext_equal]
pub struct TurnView {
    pub turn_id: Seq<char>,
    pub struct_key: u64,
    pub pre: SegView,
    pub content: Seq<SegView>,
    pub ids: Seq<Seq<char>>,
    pub post: SegView,
}

impl View for TurnSeg {
    type V = TurnView;

    open spec fn view(&self) -> TurnView {
        TurnView {
            turn_id: self.turn_id@,
            struct_key: self.struct_key,
            pre: self.pre@,
            content: segs(self.content@),
            ids: texts(self.content_ids@),
            post: self.post@,
        }
    }
}

/// The lines of the first `n` blocks, counted.
pub open spec fn height_of(s: Seq<SegView>) -> nat
    decreases s.len(),
{
    if s.len() == 0 {
        0
    } else {
        height_of(s.drop_last()) + s.last().body.height()
    }
}

/// The height of concatenated blocks.
pub proof fn lemma_height_add(a: Seq<SegView>, b: Seq<SegView>)
    ensures
        height_of(a + b) == height_of(a) + height_of(b),
    decreases b.len(),
{
    if b.len() == 0 {
        assert(a + b =~= a);
    } else {
        assert((a + b).drop_last() =~= a + b.drop_last());
        lemma_height_add(a, b.drop_last());
    }
}

impl TurnView {
    /// The blocks of the turn, head and tail included.
    pub open spec fn parts(self) -> Seq<SegView> {
        seq![self.pre] + self.content + seq![self.post]
    }

    /// How many lines the turn takes.
    pub open spec fn height(self) -> nat {
        cap(height_of(self.parts()))
    }

    /// Growing text is kept with exactly its finished lines in front.
    pub open spec fn ok(self) -> bool {
        forall|i: int| 0 <= i < self.parts().len() ==> (#[trigger] self.parts()[i]).ok()
    }
}

fn seg_heights(v: &Vec<BlockSeg>) -> (n: usize)
    ensures
        n == cap(height_of(segs(v@))),
{
    let ghost all = segs(v@);
    let mut n: usize = 0;
    let mut i: usize = 0;
    assert(all.take(0) =~= Seq::empty());
    while i < v.len()
        invariant
            i <= v@.len(),
            all == segs(v@),
            n == cap(height_of(all.take(i as int))),
        decreases v@.len() - i,
    {
        proof {
            assert(all.take(i + 1).drop_last() =~= all.take(i as int));
            assert(all.take(i + 1).last() == v@[i as int]@);
        }
        n = n.saturating_add(v[i].body.height());
        i += 1;
    }
    assert(all.take(i as int) =~= all);
    n
}

proof fn lemma_height_one(s: SegView)
    ensures
        height_of(seq![s]) == s.body.height(),
{
    assert(seq![s].drop_last() =~= Seq::empty());
    assert(height_of(Seq::<SegView>::empty()) == 0);
}

impl TurnSeg {
    /// All blocks are kept consistently.
    pub open spec fn wf(&self) -> bool {
        &&& self.pre.wf()
        &&& self.post.wf()
        &&& segs_wf(self.content@)
    }

    /// How many lines the turn takes.
    pub fn height(&self) -> (n: usize)
        ensures
            n == self@.height(),
    {
        let inner = seg_heights(&self.content);
        proof {
            let t = self@;
            lemma_height_add(seq![t.pre] + t.content, seq![t.post]);
            lemma_height_add(seq![t.pre], t.content);
            lemma_height_one(t.pre);
            lemma_height_one(t.post);
        }
        self.pre.body.height().saturating_add(inner).saturating_add(self.post.body.height())
    }
}

/// What one refresh did.
#[derive(Clone, Copy, Debug, PartialEq, Eq, Structural)]
pub struct RenderStats {
    pub rebuilt_blocks: usize,
    pub resident_blocks: usize,
    /// Filled in by the caller, who has the clock.
    pub render_us: u64,
}

impl Default for RenderStats {
    fn default() -> (s: Self)
        ensures
            s == (RenderStats { rebuilt_blocks: 0, resident_blocks: 0, render_us: 0 }),
    {
        RenderStats { rebuilt_blocks: 0, resident_blocks: 0, render_us: 0 }
    }
}

/// The block cache of a transcript.
#[derive(Clone, Debug)]
pub struct TranscriptCache {
    pub width: u16,
    pub banner: Option<BlockSeg>,
    pub empty: Option<BlockSeg>,
    pub turns: Vec<TurnSeg>,
    pub stats: RenderStats,
}

/// The block cache of a transcript.
#[verifier::ext_equal]
pub struct CacheView {
    pub width: u16,
    pub banner: Option<SegView>,
    pub empty: Option<SegView>,
    pub turns: Seq<TurnView>,
}

/// Cached turns.
pub open spec fn turns_view(v: Seq<TurnSeg>) -> Seq<TurnView> {
    Seq::new(v.len(), |i: int| v[i]@)
}

/// Pushing a turn pushes what is cached of it.
pub broadcast proof fn lemma_turns_push(v: Seq<TurnSeg>, t: TurnSeg)
    ensures
        #[trigger] turns_view(v.push(t)) == turns_view(v).push(t@),
{
    assert(turns_view(v.push(t)) =~= turns_view(v).push(t@));
}

/// An optional block.
pub open spec fn opt_seg(o: Option<BlockSeg>) -> Option<SegView> {
    match o {
        Some(s) => Some(s@),
        None => None,
    }
}

/// An optional block as a sequence.
pub open spec fn maybe_seg(o: Option<SegView>) -> Seq<SegView> {
    match o {
        Some(s) => seq![s],
        None => Seq::empty(),
    }
}

/// The blocks of all turns.
pub open spec fn all_parts(turns: Seq<TurnView>) -> Seq<SegView>
    decreases turns.len(),
{
    if turns.len() == 0 {
        Seq::empty()
    } else {
        all_parts(turns.drop_last()) + turns.last().parts()
    }
}

impl View for TranscriptCache {
    type V = CacheView;

    open spec fn view(&self) -> CacheView {
        CacheView {
            width: self.width,
            banner: opt_seg(self.banner),
            empty: opt_seg(self.empty),
            turns: turns_view(self.turns@),
        }
    }
}

impl CacheView {
    /// All blocks from top to bottom.
    pub open spec fn parts(self) -> Seq<SegView> {
        maybe_seg(self.banner) + all_parts(self.turns) + maybe_seg(self.empty)
    }
}

/// The lines of all blocks that have theirs.
pub open spec fn flat(s: Seq<SegView>) -> Seq<Seq<SpanView>>
    decreases s.len(),
{
    if s.len() == 0 {
        Seq::empty()
    } else {
        flat(s.drop_last()) + s.last().body.shown()
    }
}

/// The lines of concatenated blocks.
pub proof fn lemma_flat_add(a: Seq<SegView>, b: Seq<SegView>)
    ensures
        flat(a + b) == flat(a) + flat(b),
    decreases b.len(),
{
    if b.len() == 0 {
        assert(a + b =~= a);
        assert(flat(a) + flat(b) =~= flat(a));
    } else {
        assert((a + b).drop_last() =~= a + b.drop_last());
        lemma_flat_add(a, b.drop_last());
        assert(flat(a + b) =~= flat(a) + flat(b));
    }
}

/// The lines of one block.
pub proof fn lemma_flat_one(s: SegView)
    ensures
        flat(seq![s]) == s.body.shown(),
{
    assert(seq![s].drop_last() =~= Seq::empty());
    assert(flat(Seq::<SegView>::empty()) =~= Seq::empty());
    assert(flat(seq![s]) =~= s.body.shown());
}

/// `room` lines from line `skip` on; a block without its lines shows nothing.
pub open spec fn window_rows(s: Seq<SegView>, skip: nat, room: nat) -> Seq<Seq<SpanView>>
    decreases s.len(),
{
    if s.len() == 0 || room == 0 {
        Seq::empty()
    } else {
        let body = s[0].body;
        let h = body.height();
        let rest = s.drop_first();
        if skip >= h {
            window_rows(rest, (skip - h) as nat, room)
        } else if !body.rendered() {
            window_rows(rest, 0, room)
        } else {
            let take = if room <= h - skip {
                room
            } else {
                (h - skip) as nat
            };
            body.shown().subrange(skip as int, (skip + take) as int) + window_rows(
                rest,
                0,
                (room - take) as nat,
            )
        }
    }
}

/// The cells of a block at line `start` that lie between the lines `top` and
/// `bottom` and left of column `width`.
pub open spec fn slots_between(
    anim: Seq<AnimSlot>,
    start: nat,
    top: nat,
    bottom: nat,
    width: nat,
) -> Seq<ViewportSlot>
    decreases anim.len(),
{
    if anim.len() == 0 {
        Seq::empty()
    } else {
        let before = slots_between(anim.drop_last(), start, top, bottom, width);
        let slot = anim.last();
        let at = start + slot.row;
        if top <= at < bottom && slot.col < width {
            before.push(
                ViewportSlot { row: (at - top) as u16, col: slot.col, kind: slot.kind },
            )
        } else {
            before
        }
    }
}

/// The animated cells between the lines `top` and `bottom`; the first block
/// stands at line `start`.
pub open spec fn slots_shown(
    s: Seq<SegView>,
    start: nat,
    top: nat,
    bottom: nat,
    width: nat,
) -> Seq<ViewportSlot>
    decreases s.len(),
{
    if s.len() == 0 || start >= bottom {
        Seq::empty()
    } else {
        let h = s[0].body.height();
        let here = if cap(start + h) > top && s[0].body.rendered() {
            slots_between(s[0].anim, start, top, bottom, width)
        } else {
            Seq::empty()
        };
        here + slots_shown(s.drop_first(), cap(start + h), top, bottom, width)
    }
}

/// What borrowed blocks are.
pub open spec fn ref_segs(v: Seq<&BlockSeg>) -> Seq<SegView> {
    Seq::new(v.len(), |i: int| v[i]@)
}

broadcast proof fn lemma_ref_segs_push(v: Seq<&BlockSeg>, s: &BlockSeg)
    ensures
        #[trigger] ref_segs(v.push(s)) == ref_segs(v).push(s@),
{
    assert(ref_segs(v.push(s)) =~= ref_segs(v).push(s@));
}

fn push_parts<'a>(t: &'a TurnSeg, out: &mut Vec<&'a BlockSeg>)
    ensures
        ref_segs(final(out)@) == ref_segs(old(out)@) + t@.parts(),
{
    broadcast use lemma_ref_segs_push;

    let ghost start = ref_segs(out@);
    let ghost all = t@.parts();
    out.push(&t.pre);
    assert(start.push(t.pre@) =~= start + all.take(1));
    let mut i: usize = 0;
    let n: usize = t.content.len();
    while i < n
        invariant
            i <= n == t.content@.len(),
            all == t@.parts(),
            ref_segs(out@) == start + all.take(i + 1),
        decreases n - i,
    {
        proof {
            assert(all[i + 1] == t.content@[i as int]@);
            assert(start + all.take(i + 2) =~= (start + all.take(i + 1)).push(all[i + 1]));
        }
        out.push(&t.content[i]);
        i += 1;
    }
    out.push(&t.post);
    assert(ref_segs(out@) =~= start + all);
}

impl TranscriptCache {
    /// All blocks are kept consistently.
    pub open spec fn wf(&self) -> bool {
        &&& forall|i: int| 0 <= i < self.turns@.len() ==> (#[trigger] self.turns@[i]).wf()
        &&& self.banner matches Some(s) ==> s.wf()
        &&& self.empty matches Some(s) ==> s.wf()
    }

    /// Nothing cached.
    pub fn new(width: u16) -> (c: Self)
        ensures
            c.wf(),
            c@ == (CacheView { width, banner: None, empty: None, turns: Seq::empty() }),
            c.stats == (RenderStats { rebuilt_blocks: 0, resident_blocks: 0, render_us: 0 }),
    {
        let c = TranscriptCache {
            width,
            banner: None,
            empty: None,
            turns: Vec::new(),
            stats: RenderStats { rebuilt_blocks: 0, resident_blocks: 0, render_us: 0 },
        };
        assert(c@.turns =~= Seq::empty());
        c
    }

    fn parts(&self) -> (out: Vec<&BlockSeg>)
        ensures
            ref_segs(out@) == self@.parts(),
    {
        broadcast use lemma_ref_segs_push;

        let mut out: Vec<&BlockSeg> = Vec::new();
        assert(ref_segs(out@) =~= Seq::empty());
        match &self.banner {
            Some(b) => {
                out.push(b);
            },
            None => {},
        }
        let ghost head = maybe_seg(self@.banner);
        let ghost turns = turns_view(self.turns@);
        assert(ref_segs(out@) =~= head);
        let mut i: usize = 0;
        assert(turns.take(0) =~= Seq::empty());
        assert(head + Seq::<SegView>::empty() =~= head);
        while i < self.turns.len()
            invariant
                i <= self.turns@.len(),
                turns == turns_view(self.turns@),
                ref_segs(out@) == head + all_parts(turns.take(i as int)),
            decreases self.turns@.len() - i,
        {
            proof {
                assert(turns.take(i + 1).drop_last() =~= turns.take(i as int));
                let a = all_parts(turns.take(i as int));
                let b = self.turns@[i as int]@.parts();
                assert(head + a + b =~= head + (a + b));
            }
            push_parts(&self.turns[i], &mut out);
            i += 1;
        }
        assert(turns.take(i as int) =~= turns);
        match &self.empty {
            Some(b) => {
                out.push(b);
            },
            None => {},
        }
        assert(ref_segs(out@) =~= self@.parts());
        out
    }

    /// How many lines there are in all.
    pub fn total_lines(&self) -> (n: usize)
        ensures
            n == cap(height_of(self@.parts())),
    {
        let parts = self.parts();
        let ghost all = ref_segs(parts@);
        let mut n: usize = 0;
        let mut i: usize = 0;
        assert(all.take(0) =~= Seq::empty());
        while i < parts.len()
            invariant
                i <= parts@.len(),
                all == ref_segs(parts@),
                n == cap(height_of(all.take(i as int))),
            decreases parts@.len() - i,
        {
            proof {
                assert(all.take(i + 1).drop_last() =~= all.take(i as int));
                assert(all.take(i + 1).last() == parts@[i as int]@);
            }
            n = n.saturating_add(parts[i].body.height());
            i += 1;
        }
        assert(all.take(i as int) =~= all);
        n
    }

    /// The visible lines: `height` of them from line `top` on.
    pub fn window(&self, top: usize, height: usize) -> (out: Vec<&RenderLine>)
        ensures
            ref_rows(out@) == window_rows(self@.parts(), top as nat, height as nat),
    {
        let parts = self.parts();
        let ghost all = ref_segs(parts@);
        let ghost whole = window_rows(all, top as nat, height as nat);
        let mut out: Vec<&RenderLine> = Vec::new();
        let mut skip: usize = top;
        let mut room: usize = height;
        let mut i: usize = 0;
        assert(ref_rows(out@) =~= Seq::empty());
        assert(all.skip(0) =~= all);
        assert(Seq::<Seq<SpanView>>::empty() + whole =~= whole);
        while i < parts.len() && room > 0
            invariant
                i <= parts@.len(),
                all == ref_segs(parts@),
                whole == ref_rows(out@) + window_rows(all.skip(i as int), skip as nat, room as nat),
            decreases parts@.len() - i,
        {
            let seg = parts[i];
            let ghost before = ref_rows(out@);
            proof {
                assert(all.skip(i as int)[0] == seg@);
                assert(all.skip(i as int).drop_first() =~= all.skip(i + 1));
            }
            let h = seg.body.height();
            if skip >= h {
                skip = skip - h;
            } else if !seg.body.is_rendered() {
                skip = 0;
            } else {
                let take: usize = if room <= h - skip {
                    room
                } else {
                    h - skip
                };
                push_lines(&seg.body, skip, take, &mut out);
                proof {
                    let a = seg@.body.shown().subrange(skip as int, skip + take);
                    let b = window_rows(all.skip(i + 1), 0, (room - take) as nat);
                    assert(before + (a + b) =~= before + a + b);
                }
                skip = 0;
                room = room - take;
            }
            i += 1;
        }
        assert(window_rows(all.skip(i as int), skip as nat, room as nat) =~= Seq::empty());
        assert(ref_rows(out@) =~= whole);
        out
    }

    /// The animated cells of the window.
    pub fn visible_slots(&self, top: usize, height: usize) -> (out: Vec<ViewportSlot>)
        ensures
            out@ == slots_shown(
                self@.parts(),
                0,
                top as nat,
                cap((top + height) as nat),
                self.width as nat,
            ),
    {
        let bottom: usize = top.saturating_add(height);
        let parts = self.parts();
        let ghost all = ref_segs(parts@);
        let ghost whole = slots_shown(all, 0, top as nat, bottom as nat, self.width as nat);
        let mut out: Vec<ViewportSlot> = Vec::new();
        let mut start: usize = 0;
        let mut i: usize = 0;
        assert(all.skip(0) =~= all);
        assert(out@ + whole =~= whole);
        while i < parts.len() && start < bottom
            invariant
                i <= parts@.len(),
                all == ref_segs(parts@),
                whole == out@ + slots_shown(
                    all.skip(i as int),
                    start as nat,
                    top as nat,
                    bottom as nat,
                    self.width as nat,
                ),
            decreases parts@.len() - i,
        {
            let seg = parts[i];
            let ghost before = out@;
            proof {
                assert(all.skip(i as int)[0] == seg@);
                assert(all.skip(i as int).drop_first() =~= all.skip(i + 1));
            }
            let h = seg.body.height();
            let end: usize = start.saturating_add(h);
            if end > top && seg.body.is_rendered() {
                push_slots(&seg.anim, start, top, bottom, self.width, &mut out);
            }
            proof {
                let a = if end > top && seg@.body.rendered() {
                    slots_between(
                        seg@.anim,
                        start as nat,
                        top as nat,
                        bottom as nat,
                        self.width as nat,
                    )
                } else {
                    Seq::empty()
                };
                let b = slots_shown(
                    all.skip(i + 1),
                    end as nat,
                    top as nat,
                    bottom as nat,
                    self.width as nat,
                );
                assert(before + (a + b) =~= before + a + b);
                assert(out@ =~= before + a);
            }
            start = end;
            i += 1;
        }
        assert(out@ =~= whole);
        out
    }

    /// All lines from top to bottom.
    pub fn flatten_lines(&self) -> (out: Vec<&RenderLine>)
        ensures
            ref_rows(out@) == flat(self@.parts()),
    {
        let parts = self.parts();
        let ghost all = ref_segs(parts@);
        let mut out: Vec<&RenderLine> = Vec::new();
        let mut i: usize = 0;
        assert(all.take(0) =~= Seq::empty());
        assert(ref_rows(out@) =~= Seq::empty());
        while i < parts.len()
            invariant
                i <= parts@.len(),
                all == ref_segs(parts@),
                ref_rows(out@) == flat(all.take(i as int)),
            decreases parts@.len() - i,
        {
            proof {
                assert(all.take(i + 1).drop_last() =~= all.take(i as int));
                assert(all.take(i + 1).last() == parts@[i as int]@);
            }
            parts[i].body.push_rendered_lines(&mut out);
            i += 1;
        }
        assert(all.take(i as int) =~= all);
        out
    }
}

fn push_lines<'a>(body: &'a BlockBody, from: usize, count: usize, out: &mut Vec<&'a RenderLine>)
    requires
        from + count <= body@.shown().len(),
        from + count <= usize::MAX,
    ensures
        ref_rows(final(out)@) == ref_rows(old(out)@) + body@.shown().subrange(
            from as int,
            from + count,
        ),
{
    let ghost start = ref_rows(out@);
    let ghost all = body@.shown();
    let end: usize = from + count;
    let mut i: usize = from;
    assert(start + all.subrange(from as int, from as int) =~= start);
    while i < end
        invariant
            from <= i <= end <= all.len(),
            all == body@.shown(),
            ref_rows(out@) == start + all.subrange(from as int, i as int),
        decreases end - i,
    {
        match body.line(i) {
            Some(l) => {
                proof {
                    lemma_ref_rows_push(out@, l);
                    assert(start + all.subrange(from as int, i + 1) =~= (start + all.subrange(
                        from as int,
                        i as int,
                    )).push(all[i as int]));
                }
                out.push(l);
            },
            None => {},
        }
        i += 1;
    }
}

fn push_slots(
    anim: &Vec<AnimSlot>,
    start: usize,
    top: usize,
    bottom: usize,
    width: u16,
    out: &mut Vec<ViewportSlot>,
)
    ensures
        final(out)@ == old(out)@ + slots_between(
            anim@,
            start as nat,
            top as nat,
            bottom as nat,
            width as nat,
        ),
{
    let ghost before = out@;
    let mut i: usize = 0;
    assert(anim@.take(0) =~= Seq::empty());
    assert(before + Seq::<ViewportSlot>::empty() =~= before);
    while i < anim.len()
        invariant
            i <= anim@.len(),
            out@ == before + slots_between(
                anim@.take(i as int),
                start as nat,
                top as nat,
                bottom as nat,
                width as nat,
            ),
        decreases anim@.len() - i,
    {
        let slot = anim[i];
        proof {
            assert(anim@.take(i + 1).drop_last() =~= anim@.take(i as int));
        }
        let at: u128 = start as u128 + slot.row as u128;
        if at >= top as u128 && at < bottom as u128 && slot.col < width {
            out.push(
                ViewportSlot { row: (at - top as u128) as u16, col: slot.col, kind: slot.kind },
            );
        }
        i += 1;
        assert(out@ =~= before + slots_between(
            anim@.take(i as int),
            start as nat,
            top as nat,
            bottom as nat,
            width as nat,
        ));
    }
    assert(anim@.take(i as int) =~= anim@);
}

/// A number for a block kind.
pub open spec fn kind_tag(k: TimelineBlockKind) -> u64 {
    match k {
        TimelineBlockKind::Text => 0,
        TimelineBlockKind::Reasoning => 1,
        TimelineBlockKind::Tool => 2,
        TimelineBlockKind::Notice => 3,
    }
}

fn block_kind_tag(k: TimelineBlockKind) -> (t: u64)
    ensures
        t == kind_tag(k),
{
    match k {
        TimelineBlockKind::Text => 0,
        TimelineBlockKind::Reasoning => 1,
        TimelineBlockKind::Tool => 2,
        TimelineBlockKind::Notice => 3,
    }
}

/// A number for a block state.
pub open spec fn state_tag(s: TimelineBlockState) -> u64 {
    match s {
        TimelineBlockState::Open => 0,
        TimelineBlockState::Sealed => 1,
    }
}

fn block_state_tag(s: TimelineBlockState) -> (t: u64)
    ensures
        t == state_tag(s),
{
    match s {
        TimelineBlockState::Open => 0,
        TimelineBlockState::Sealed => 1,
    }
}

/// A number for a turn state.
pub open spec fn turn_tag_of(s: TimelineTurnState) -> u64 {
    match s {
        TimelineTurnState::Running => 0,
        TimelineTurnState::Completed => 1,
        TimelineTurnState::Failed => 2,
        TimelineTurnState::Cancelled => 3,
    }
}

fn turn_state_tag(s: TimelineTurnState) -> (t: u64)
    ensures
        t == turn_tag_of(s),
{
    match s {
        TimelineTurnState::Running => 0,
        TimelineTurnState::Completed => 1,
        TimelineTurnState::Failed => 2,
        TimelineTurnState::Cancelled => 3,
    }
}

/// What a block is drawn from, as a hash: its id, revision, state and kind,
/// the width, and a tool's name. The text counts by its revision alone.
pub open spec fn block_key(block: Block, width: u16) -> u64 {
    let h = mix(
        mix(
            mix(
                mix(mix_str(mix(FNV_OFFSET, 0x626c_6b30), block.block_id@), block.rev),
                state_tag(block.state),
            ),
            kind_tag(block.kind),
        ),
        width as u64,
    );
    match block.tool {
        Some(t) => mix_str(h, t.name@),
        None => h,
    }
}

/// What a block is drawn from, as a hash.
pub fn block_cache_key(block: &Block, width: u16) -> (k: u64)
    ensures
        k == block_key(*block, width),
{
    let mut h: u64 = FNV_OFFSET;
    h_u64(&mut h, 0x626c_6b30);
    h_str(&mut h, block.block_id.as_str());
    h_u64(&mut h, block.rev);
    h_u64(&mut h, block_state_tag(block.state));
    h_u64(&mut h, block_kind_tag(block.kind));
    h_u64(&mut h, width as u64);
    match &block.tool {
        Some(t) => h_str(&mut h, t.name.as_str()),
        None => {},
    }
    h
}

/// Mixes a failure into a hash.
pub open spec fn mix_failure(h: u64, failure: Option<TimelineFailure>) -> u64 {
    match failure {
        Some(f) => mix_str(mix_str(h, f.code@), f.message@),
        None => h,
    }
}

/// Mixes the ids and places of blocks into a hash.
pub open spec fn mix_blocks(h: u64, blocks: Seq<Block>) -> u64
    decreases blocks.len(),
{
    if blocks.len() == 0 {
        h
    } else {
        let b = blocks.last();
        mix(mix_str(mix_blocks(h, blocks.drop_last()), b.block_id@), b.block_order as u64)
    }
}

/// Mixes the structure of rounds into a hash.
pub open spec fn mix_rounds(h: u64, rounds: Seq<Round>) -> u64
    decreases rounds.len(),
{
    if rounds.len() == 0 {
        h
    } else {
        let r = rounds.last();
        mix_blocks(mix(mix_rounds(h, rounds.drop_last()), r.round_num as u64), r.blocks@)
    }
}

/// The structure of a turn, as a hash: its own fields and which blocks it has,
/// but nothing of their content.
pub open spec fn struct_key(turn: Turn, num: u64) -> u64 {
    let h = mix(mix_str(mix(FNV_OFFSET, 0x7473_7430), turn.turn_id@), num);
    let k = mix(
        mix(
            mix(
                mix(mix(h, turn_tag_of(turn.state)), bit(turn.sealed)),
                bit(turn.offloaded),
            ),
            turn.thinking.segments as u64,
        ),
        turn.thinking.lines,
    );
    mix_rounds(mix_failure(mix_str(k, turn.user_text@), turn.failure), turn.rounds@)
}

fn h_failure(h: &mut u64, failure: &Option<TimelineFailure>)
    ensures
        *final(h) == mix_failure(*old(h), *failure),
{
    match failure {
        Some(f) => {
            h_str(h, f.code.as_str());
            h_str(h, f.message.as_str());
        },
        None => {},
    }
}

fn h_blocks(h: &mut u64, blocks: &Vec<Block>)
    ensures
        *final(h) == mix_blocks(*old(h), blocks@),
{
    let mut i: usize = 0;
    assert(blocks@.take(0) =~= Seq::empty());
    while i < blocks.len()
        invariant
            i <= blocks@.len(),
            *h == mix_blocks(*old(h), blocks@.take(i as int)),
        decreases blocks@.len() - i,
    {
        proof {
            assert(blocks@.take(i + 1).drop_last() =~= blocks@.take(i as int));
        }
        h_str(h, blocks[i].block_id.as_str());
        h_u64(h, blocks[i].block_order as u64);
        i += 1;
    }
    assert(blocks@.take(i as int) =~= blocks@);
}

/// The structure of a turn, as a hash.
pub fn turn_struct_key(turn: &Turn, num: u64) -> (k: u64)
    ensures
        k == struct_key(*turn, num),
{
    let mut h: u64 = FNV_OFFSET;
    h_u64(&mut h, 0x7473_7430);
    h_str(&mut h, turn.turn_id.as_str());
    h_u64(&mut h, num);
    h_u64(&mut h, turn_state_tag(turn.state));
    h_u64(&mut h, bit_of(turn.sealed));
    h_u64(&mut h, bit_of(turn.offloaded));
    h_u64(&mut h, turn.thinking.segments as u64);
    h_u64(&mut h, turn.thinking.lines);
    h_str(&mut h, turn.user_text.as_str());
    h_failure(&mut h, &turn.failure);
    let ghost h0 = h;
    let mut i: usize = 0;
    assert(turn.rounds@.take(0) =~= Seq::empty());
    while i < turn.rounds.len()
        invariant
            i <= turn.rounds@.len(),
            h == mix_rounds(h0, turn.rounds@.take(i as int)),
        decreases turn.rounds@.len() - i,
    {
        proof {
            assert(turn.rounds@.take(i + 1).drop_last() =~= turn.rounds@.take(i as int));
        }
        h_u64(&mut h, turn.rounds[i].round_num as u64);
        h_blocks(&mut h, &turn.rounds[i].blocks);
        i += 1;
    }
    assert(turn.rounds@.take(i as int) =~= turn.rounds@);
    h
}

/// What the head of a turn is drawn from, as a hash.
pub open spec fn pre_key(turn: Turn, num: u64, width: u16) -> u64 {
    let h = mix(
        mix(mix(mix(FNV_OFFSET, 0x7072_6530), turn_tag_of(turn.state)), bit(turn.offloaded)),
        num,
    );
    mix(
        mix(
            mix(mix_str(h, turn.user_text@), turn.thinking.segments as u64),
            turn.thinking.lines,
        ),
        width as u64,
    )
}

/// What the head of a turn is drawn from, as a hash.
pub fn turn_pre_key(turn: &Turn, num: u64, width: u16) -> (k: u64)
    ensures
        k == pre_key(*turn, num, width),
{
    let mut h: u64 = FNV_OFFSET;
    h_u64(&mut h, 0x7072_6530);
    h_u64(&mut h, turn_state_tag(turn.state));
    h_u64(&mut h, bit_of(turn.offloaded));
    h_u64(&mut h, num);
    h_str(&mut h, turn.user_text.as_str());
    h_u64(&mut h, turn.thinking.segments as u64);
    h_u64(&mut h, turn.thinking.lines);
    h_u64(&mut h, width as u64);
    h
}

/// What the end of a turn is drawn from, as a hash.
pub open spec fn post_key(failure: Option<TimelineFailure>) -> u64 {
    mix_failure(mix(FNV_OFFSET, 0x7073_7430), failure)
}

/// What the end of a turn is drawn from, as a hash.
pub fn turn_post_key(failure: &Option<TimelineFailure>) -> (k: u64)
    ensures
        k == post_key(*failure),
{
    let mut h: u64 = FNV_OFFSET;
    h_u64(&mut h, 0x7073_7430);
    h_failure(&mut h, failure);
    h
}

/// Two sequences of blocks have the same ids in the same places.
pub open spec fn same_blocks(a: Seq<Block>, b: Seq<Block>) -> bool {
    a.len() == b.len() && forall|i: int|
        0 <= i < a.len() ==> (#[trigger] a[i]).block_id@ == b[i].block_id@ && a[i].block_order
            == b[i].block_order
}

proof fn lemma_same_blocks(h: u64, a: Seq<Block>, b: Seq<Block>)
    requires
        same_blocks(a, b),
    ensures
        mix_blocks(h, a) == mix_blocks(h, b),
    decreases a.len(),
{
    if a.len() > 0 {
        assert(a.last().block_id@ == b.last().block_id@);
        assert forall|i: int| 0 <= i < a.len() - 1 implies (#[trigger] a.drop_last()[i]).block_id@
            == b.drop_last()[i].block_id@ && a.drop_last()[i].block_order
            == b.drop_last()[i].block_order by {
            assert(a[i].block_id@ == b[i].block_id@);
        }
        lemma_same_blocks(h, a.drop_last(), b.drop_last());
    }
}

/// Two sequences of rounds have the same numbers and blocks.
pub open spec fn same_rounds(a: Seq<Round>, b: Seq<Round>) -> bool {
    a.len() == b.len() && forall|i: int|
        0 <= i < a.len() ==> (#[trigger] a[i]).round_num == b[i].round_num && same_blocks(
            a[i].blocks@,
            b[i].blocks@,
        )
}

proof fn lemma_same_rounds(h: u64, a: Seq<Round>, b: Seq<Round>)
    requires
        same_rounds(a, b),
    ensures
        mix_rounds(h, a) == mix_rounds(h, b),
    decreases a.len(),
{
    if a.len() > 0 {
        assert(a.last().round_num == b.last().round_num);
        assert forall|i: int| 0 <= i < a.len() - 1 implies (#[trigger] a.drop_last()[i]).round_num
            == b.drop_last()[i].round_num && same_blocks(
            a.drop_last()[i].blocks@,
            b.drop_last()[i].blocks@,
        ) by {
            assert(a[i].round_num == b[i].round_num);
        }
        lemma_same_rounds(h, a.drop_last(), b.drop_last());
        lemma_same_blocks(
            mix(mix_rounds(h, a.drop_last()), a.last().round_num as u64),
            a.last().blocks@,
            b.last().blocks@,
        );
    }
}

/// The structure key of a turn ignores what its blocks hold: text, revision,
/// state and tool.
pub proof fn law_struct_key_ignores_content(a: Turn, b: Turn, num: u64)
    requires
        same_rounds(a.rounds@, b.rounds@),
        a.turn_id@ == b.turn_id@,
        a.state == b.state,
        a.sealed == b.sealed,
        a.offloaded == b.offloaded,
        a.thinking == b.thinking,
        a.user_text@ == b.user_text@,
        a.failure == b.failure,
    ensures
        struct_key(a, num) == struct_key(b, num),
{
    let h = mix(mix_str(mix(FNV_OFFSET, 0x7473_7430), a.turn_id@), num);
    let k = mix(
        mix(mix(mix(mix(h, turn_tag_of(a.state)), bit(a.sealed)), bit(a.offloaded)), a.thinking.segments as u64),
        a.thinking.lines,
    );
    lemma_same_rounds(mix_failure(mix_str(k, a.user_text@), a.failure), a.rounds@, b.rounds@);
}

/// The key of a block that is not a tool ignores its text: a change counts by
/// the revision alone.
pub proof fn law_block_key_ignores_text(a: Block, b: Block, width: u16)
    requires
        a.block_id@ == b.block_id@,
        a.rev == b.rev,
        a.state == b.state,
        a.kind == b.kind,
        a.tool is None,
        b.tool is None,
    ensures
        block_key(a, width) == block_key(b, width),
{
}

/// The lines that a block takes in the geometry: its own, or blank ones where
/// only its height is known.
pub open spec fn geometry(s: SegView) -> Seq<Seq<SpanView>> {
    match s.body {
        BodyView::Height(n) => Seq::new(n as nat, |i: int| Seq::empty()),
        _ => s.body.shown(),
    }
}

/// The lines of all blocks in the geometry.
pub open spec fn geometry_all(s: Seq<SegView>) -> Seq<Seq<SpanView>>
    decreases s.len(),
{
    if s.len() == 0 {
        Seq::empty()
    } else {
        geometry(s[0]) + geometry_all(s.drop_first())
    }
}

/// Every block that takes a line between `top` and `bottom` has its lines; the
/// first block stands at line `start`.
pub open spec fn covered(s: Seq<SegView>, start: int, top: int, bottom: int) -> bool
    decreases s.len(),
{
    s.len() == 0 || {
        let h = s[0].body.height();
        &&& (start < bottom && start + h > top && h > 0 ==> s[0].body.rendered())
        &&& covered(s.drop_first(), start + h, top, bottom)
    }
}

/// No block has more lines than can be counted.
pub open spec fn countable(s: Seq<SegView>) -> bool {
    forall|i: int| 0 <= i < s.len() ==> (#[trigger] s[i]).body.shown().len() <= usize::MAX
}

/// The window is the part of the transcript that it names, wherever the blocks
/// in it have their lines.
pub proof fn law_window_is_a_slice(s: Seq<SegView>, skip: nat, room: nat)
    requires
        countable(s),
        covered(s, 0, skip as int, (skip + room) as int),
    ensures
        ({
            let all = geometry_all(s);
            let n = all.len() as int;
            let from = if skip <= n {
                skip as int
            } else {
                n
            };
            let to = if skip + room <= n {
                (skip + room) as int
            } else {
                n
            };
            window_rows(s, skip, room) == all.subrange(from, to)
        }),
{
    lemma_window_is_a_slice(s, 0, skip as int, skip, room);
}

proof fn lemma_window_is_a_slice(s: Seq<SegView>, start: int, top: int, skip: nat, room: nat)
    requires
        countable(s),
        skip == top - start || (skip == 0 && top <= start),
        covered(s, start, top, start + skip + room),
    ensures
        ({
            let all = geometry_all(s);
            let n = all.len() as int;
            let from = if skip <= n {
                skip as int
            } else {
                n
            };
            let to = if skip + room <= n {
                (skip + room) as int
            } else {
                n
            };
            window_rows(s, skip, room) == all.subrange(from, to)
        }),
    decreases s.len(),
{
    let all = geometry_all(s);
    let n = all.len() as int;
    if s.len() == 0 || room == 0 {
        if s.len() > 0 {
            let from = if skip <= n {
                skip as int
            } else {
                n
            };
            assert(all.subrange(from, from) =~= Seq::empty());
        } else {
            assert(all.subrange(0, 0) =~= Seq::empty());
        }
    } else {
        let rest = s.drop_first();
        let h = s[0].body.height();
        assert(geometry(s[0]).len() == h);
        assert forall|i: int| 0 <= i < rest.len() implies (#[trigger] rest[i]).body.shown().len()
            <= usize::MAX by {
            assert(rest[i] == s[i + 1]);
        }
        let g = geometry_all(rest);
        assert(all =~= geometry(s[0]) + g);
        let to = if skip + room <= n {
            (skip + room) as int
        } else {
            n
        };
        if skip >= h {
            lemma_window_is_a_slice(rest, start + h, top, (skip - h) as nat, room);
            let from = if skip <= n {
                skip as int
            } else {
                n
            };
            assert(all.subrange(from, to) =~= g.subrange(from - h, to - h));
        } else {
            assert(s[0].body.rendered());
            let take = if room <= h - skip {
                room
            } else {
                (h - skip) as nat
            };
            lemma_covered_less(rest, start + h, top, start + skip + room, start + h + (room - take));
            lemma_window_is_a_slice(rest, start + h, top, 0, (room - take) as nat);
            assert(all.subrange(skip as int, to) =~= s[0].body.shown().subrange(
                skip as int,
                (skip + take) as int,
            ) + g.subrange(
                0,
                if room - take <= g.len() {
                    room - take
                } else {
                    g.len() as int
                },
            ));
        }
    }
}

proof fn lemma_covered_less(s: Seq<SegView>, start: int, top: int, bottom: int, less: int)
    requires
        covered(s, start, top, bottom),
        less <= bottom || less <= start,
    ensures
        covered(s, start, top, less),
    decreases s.len(),
{
    if s.len() > 0 {
        let h = s[0].body.height();
        lemma_covered_less(s.drop_first(), start + h, top, bottom, less);
    }
}

/// Every animated cell that is handed out lies in the window: in its lines and
/// left of the cache's right edge.
pub proof fn law_visible_slots_in_window(
    s: Seq<SegView>,
    start: nat,
    top: nat,
    height: nat,
    width: nat,
    i: int,
)
    requires
        top + height <= usize::MAX,
        height <= 0x1_0000,
        0 <= i < slots_shown(s, start, top, top + height, width).len(),
    ensures
        slots_shown(s, start, top, top + height, width)[i].row < height,
        slots_shown(s, start, top, top + height, width)[i].col < width,
    decreases s.len(),
{
    let h = s[0].body.height();
    let here = if cap(start + h) > top && s[0].body.rendered() {
        slots_between(s[0].anim, start, top, top + height, width)
    } else {
        Seq::empty()
    };
    if i < here.len() {
        lemma_slots_between(s[0].anim, start, top, top + height, width, i);
    } else {
        law_visible_slots_in_window(
            s.drop_first(),
            cap(start + h),
            top,
            height,
            width,
            i - here.len(),
        );
    }
}

proof fn lemma_slots_between(
    anim: Seq<AnimSlot>,
    start: nat,
    top: nat,
    bottom: nat,
    width: nat,
    i: int,
)
    requires
        top <= bottom,
        bottom - top <= 0x1_0000,
        0 <= i < slots_between(anim, start, top, bottom, width).len(),
    ensures
        slots_between(anim, start, top, bottom, width)[i].row < bottom - top,
        slots_between(anim, start, top, bottom, width)[i].col < width,
    decreases anim.len(),
{
    if anim.len() > 0 {
        let before = slots_between(anim.drop_last(), start, top, bottom, width);
        if i < before.len() {
            lemma_slots_between(anim.drop_last(), start, top, bottom, width, i);
        } else {
            let at = start + anim.last().row;
            assert((at - top) as u16 == at - top);
        }
    }
}

} // verus!
