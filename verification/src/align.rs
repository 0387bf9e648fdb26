//! Bringing cached turns in line with the timeline: what is still valid is
//! moved over, growing text is read on, and the rest is known by its estimated
//! height alone.

use crate::anim::AnimSlot;
use crate::estimates::{
    block_estimate, estimate_block_lines, estimate_post_lines, estimate_pre_lines,
    post_estimate, pre_estimate,
};
use crate::plan::{
    items_of, plan_turn, plan_within, turn_items, ItemView, PlanItem, Shown, ShownView,
};
use crate::render_line::{rows, RenderLine};
use crate::seg::{
    block_cache_key, block_key, lemma_segs_push, post_key, pre_key, seg_of_height, segs,
    segs_wf, struct_key, turn_post_key, turn_pre_key, turn_struct_key, BlockBody, BlockSeg,
    BodyView, SegView, TurnSeg, TurnView,
};
use crate::stream::{
    lemma_feed_keeps_sealed, stream_cursor, stream_fed, stream_new, stream_prefix, stream_tail,
    StreamState, StreamView,
};
use crate::text::{lemma_texts_push, str_eq, texts};
use crate::timeline::{Block, TimelineBlockKind, TimelineBlockState, Turn};
use crate::tool_card::{group_row, render_group_line};
use std::sync::Arc;
use vstd::prelude::*;

verus! {

broadcast use {lemma_segs_push, lemma_texts_push};

/// The last place of `id`.
pub open spec fn last_index(ids: Seq<Seq<char>>, id: Seq<char>) -> Option<int>
    decreases ids.len(),
{
    if ids.len() == 0 {
        None
    } else if ids.last() == id {
        Some(ids.len() - 1)
    } else {
        last_index(ids.drop_last(), id)
    }
}

/// The last place of `id` is one of the places.
pub proof fn lemma_last_index(ids: Seq<Seq<char>>, id: Seq<char>)
    ensures
        last_index(ids, id) matches Some(k) ==> 0 <= k < ids.len() && ids[k] == id,
        last_index(ids, id) is None ==> !ids.contains(id),
    decreases ids.len(),
{
    if ids.len() > 0 {
        lemma_last_index(ids.drop_last(), id);
        if last_index(ids, id) is None && ids.contains(id) {
            let i = choose|i: int| 0 <= i < ids.len() && ids[i] == id;
            assert(ids.drop_last()[i] == id);
        }
    }
}

/// The last place of `id`.
pub fn find_last(ids: &Vec<String>, id: &str) -> (r: Option<usize>)
    ensures
        match r {
            Some(k) => last_index(texts(ids@), id@) == Some(k as int) && k < ids@.len(),
            None => last_index(texts(ids@), id@) is None,
        },
{
    let ghost all = texts(ids@);
    let mut i: usize = ids.len();
    assert(all.take(i as int) =~= all);
    while i > 0
        invariant
            i <= ids@.len(),
            all == texts(ids@),
            last_index(all, id@) == last_index(all.take(i as int), id@),
        decreases i,
    {
        proof {
            assert(all.take(i as int).drop_last() =~= all.take(i - 1));
        }
        if str_eq(ids[i - 1].as_str(), id) {
            return Some(i - 1);
        }
        i -= 1;
    }
    None
}

/// Things that can be taken out one by one.
pub open spec fn slots_of<T>(v: Seq<T>) -> Seq<Option<T>> {
    Seq::new(v.len(), |i: int| Some(v[i]))
}

/// Makes things ready to be taken out one by one.
pub fn to_slots<T>(v: Vec<T>) -> (out: Vec<Option<T>>)
    ensures
        out@ == slots_of(v@),
{
    let ghost all = v@;
    let n: usize = v.len();
    let mut v = v;
    let mut rev: Vec<T> = Vec::new();
    let mut i: usize = 0;
    while i < n
        invariant
            i <= n == all.len(),
            v@ == all.take(n - i),
            rev@.len() == i,
            forall|j: int| 0 <= j < i ==> rev@[j] == all[n - 1 - j],
        decreases n - i,
    {
        match v.pop() {
            Some(x) => {
                rev.push(x);
            },
            None => {},
        }
        i += 1;
        assert(v@ =~= all.take(n - i));
    }
    let mut out: Vec<Option<T>> = Vec::new();
    let mut j: usize = 0;
    while j < n
        invariant
            j <= n == all.len(),
            rev@.len() == n - j,
            forall|k: int| 0 <= k < n - j ==> rev@[k] == all[n - 1 - k],
            out@ == slots_of(all).take(j as int),
        decreases n - j,
    {
        match rev.pop() {
            Some(x) => {
                out.push(Some(x));
            },
            None => {},
        }
        j += 1;
        assert(out@ =~= slots_of(all).take(j as int));
    }
    assert(slots_of(all).take(n as int) =~= slots_of(all));
    out
}

/// Takes out what stands at `k`.
pub fn take_slot<T>(slots: &mut Vec<Option<T>>, k: usize) -> (r: Option<T>)
    requires
        k < old(slots)@.len(),
    ensures
        r == old(slots)@[k as int],
        final(slots)@ == old(slots)@.update(k as int, None),
{
    let mut r: Option<T> = None;
    std::mem::swap(&mut slots[k], &mut r);
    r
}

/// Cached blocks that can be taken out.
pub open spec fn seg_slots(v: Seq<Option<BlockSeg>>) -> Seq<Option<SegView>> {
    Seq::new(
        v.len(),
        |i: int|
            match v[i] {
                Some(s) => Some(s@),
                None => None,
            },
    )
}

/// Growing text, cached.
pub open spec fn streaming_seg(key: u64, s: StreamView) -> SegView {
    SegView {
        key,
        body: BodyView::Streaming { prefix: stream_prefix(s), tail: stream_tail(s) },
        anim: seq![stream_cursor(s)],
        stream: Some(s),
    }
}

/// Text that still grows.
pub open spec fn growing(block: Block) -> bool {
    block.kind == TimelineBlockKind::Text && block.state == TimelineBlockState::Open
}

/// The cached block with what its text has grown by, where that can be read
/// on.
pub open spec fn carried(seg: SegView, block: Block, width: u16) -> Option<SegView> {
    if !growing(block) {
        None
    } else {
        match seg.stream {
            Some(s) => match stream_fed(s, block.text@, width as nat) {
                Some(n) => Some(streaming_seg(seg.key, n)),
                None => None,
            },
            None => None,
        }
    }
}

/// Whether a block's text still grows.
pub fn is_growing(block: &Block) -> (r: bool)
    ensures
        r == growing(*block),
{
    block.kind == TimelineBlockKind::Text && block.state == TimelineBlockState::Open
}

/// Caches growing text from its start.
pub fn init(key: u64, block: &Block, width: u16) -> (seg: BlockSeg)
    requires
        width > 0,
    ensures
        seg.wf(),
        seg@ == streaming_seg(key, stream_new(block.text@, width as nat)),
{
    let st = StreamState::new(block.text.as_str(), width as usize);
    let mut prefix: Vec<RenderLine> = Vec::new();
    assert(rows(prefix@) =~= stream_prefix(st@).take(0));
    st.extend_prefix(&mut prefix);
    let (tail, cursor) = st.tail_and_cursor();
    let mut anim: Vec<AnimSlot> = Vec::new();
    anim.push(cursor);
    assert(anim@ =~= seq![stream_cursor(st@)]);
    BlockSeg {
        key,
        body: BlockBody::Streaming { prefix: Arc::new(prefix), tail },
        anim,
        stream: Some(st),
    }
}

/// Reads on what a cached block's text has grown by; says whether it could.
pub fn carry(seg: &mut BlockSeg, block: &Block, width: u16) -> (r: bool)
    requires
        old(seg).wf(),
    ensures
        final(seg).wf(),
        r == (carried(old(seg)@, *block, width) is Some),
        r ==> carried(old(seg)@, *block, width) == Some(final(seg)@),
        !r ==> final(seg)@ == old(seg)@,
{
    if !is_growing(block) {
        return false;
    }
    let ghost before = seg@;
    let mut taken: Option<StreamState> = None;
    std::mem::swap(&mut seg.stream, &mut taken);
    let mut st = match taken {
        Some(s) => s,
        None => {
            assert(seg@ =~= before);
            return false;
        },
    };
    let ghost s0 = st@;
    let fed = st.feed(block.text.as_str(), width as usize);
    if !fed {
        seg.stream = Some(st);
        assert(seg@ =~= before);
        return false;
    }
    proof {
        lemma_feed_keeps_sealed(
            s0.model,
            crate::stream::chars_from(block.text@, s0.consumed),
            width as nat,
        );
        assert(stream_prefix(st@).take(s0.model.sealed.len() as int) =~= stream_prefix(s0)) by {
            assert forall|i: int| 0 <= i < s0.model.sealed.len() implies #[trigger] stream_prefix(
                st@,
            )[i] == stream_prefix(s0)[i] by {
                assert(st@.model.sealed.take(s0.model.sealed.len() as int)[i]
                    == s0.model.sealed[i]);
            }
        }
    }
    let (tail, cursor) = st.tail_and_cursor();
    let mut body = BlockBody::Height(0);
    std::mem::swap(&mut seg.body, &mut body);
    let prefix = match body {
        BlockBody::Streaming { prefix, .. } => st.shared_prefix(prefix),
        _ => st.shared_prefix(Arc::new(Vec::new())),
    };
    let mut anim: Vec<AnimSlot> = Vec::new();
    anim.push(cursor);
    assert(anim@ =~= seq![stream_cursor(st@)]);
    seg.body = BlockBody::Streaming { prefix, tail };
    seg.anim = anim;
    seg.stream = Some(st);
    true
}

/// A member of a folded run: what is still valid, with its lines made anew
/// where only the height was kept.
pub open spec fn folded_seg(prev: Option<SegView>, key: u64, body: BodyView) -> SegView {
    match prev {
        Some(s) if s.key == key => if s.body.rendered() {
            s
        } else {
            SegView { body, ..s }
        },
        _ => SegView { key, body, anim: Seq::empty(), stream: None },
    }
}

/// A block in line with the timeline, and whether that drew anything.
pub open spec fn aligned(prev: Option<SegView>, item: ItemView, width: u16) -> (SegView, bool) {
    let key = block_key(item.block, width);
    match item.shown {
        ShownView::Whole => {
            let guess = seg_of_height(key, block_estimate(item.block, width as nat) as usize);
            match prev {
                Some(s) => if s.key == key {
                    (s, false)
                } else {
                    match carried(s, item.block, width) {
                        Some(n) => (SegView { key, ..n }, true),
                        None => (guess, false),
                    }
                },
                None => (guess, false),
            }
        },
        ShownView::Line(states, sig) => (
            folded_seg(prev, key ^ sig, BodyView::Lines(seq![group_row(states, false)])),
            false,
        ),
        ShownView::Hidden(sig) => (folded_seg(prev, key ^ sig, BodyView::Height(0)), false),
    }
}

fn fold_into(prev: Option<BlockSeg>, key: u64, body: BlockBody) -> (r: BlockSeg)
    requires
        prev matches Some(s) ==> s.wf(),
        body@ !is Streaming,
    ensures
        r.wf(),
        r@ == folded_seg(
            match prev {
                Some(s) => Some(s@),
                None => None,
            },
            key,
            body@,
        ),
{
    match prev {
        Some(s) => {
            if s.key == key {
                let mut s = s;
                if !s.body.is_rendered() {
                    s.body = body;
                }
                return s;
            }
        },
        None => {},
    }
    let r = BlockSeg { key, body, anim: Vec::new(), stream: None };
    assert(r.anim@ =~= Seq::empty());
    r
}

/// A block in line with the timeline, and whether that drew anything.
pub fn align_block(prev: Option<BlockSeg>, block: &Block, shown: &Shown, width: u16) -> (r: (
    BlockSeg,
    bool,
))
    requires
        prev matches Some(s) ==> s.wf(),
    ensures
        r.0.wf(),
        (r.0@, r.1) == aligned(
            match prev {
                Some(s) => Some(s@),
                None => None,
            },
            ItemView { block: *block, shown: shown@ },
            width,
        ),
{
    let key = block_cache_key(block, width);
    match shown {
        Shown::Whole => {
            match prev {
                Some(s) => {
                    if s.key == key {
                        return (s, false);
                    }
                    let mut s = s;
                    if carry(&mut s, block, width) {
                        s.key = key;
                        return (s, true);
                    }
                },
                None => {},
            }
            (BlockSeg::of_height(key, estimate_block_lines(block, width as usize)), false)
        },
        Shown::Line(states, sig) => {
            let mut lines: Vec<RenderLine> = Vec::new();
            lines.push(render_group_line(states, false, width as usize));
            assert(rows(lines@) =~= seq![group_row(states@, false)]);
            (fold_into(prev, key ^ *sig, BlockBody::Lines(Arc::new(lines))), false)
        },
        Shown::Hidden(sig) => (fold_into(prev, key ^ *sig, BlockBody::Height(0)), false),
    }
}

/// Blocks brought in line so far: what is left of the cached ones, the result,
/// and how many were drawn.
#[verifier::ext_equal]
pub struct AlignView {
    pub slots: Seq<Option<SegView>>,
    pub content: Seq<SegView>,
    pub rebuilt: nat,
}

/// What stands at the last place of `id`, and the rest without it.
pub open spec fn taken<T>(ids: Seq<Seq<char>>, slots: Seq<Option<T>>, id: Seq<char>) -> (
    Option<T>,
    Seq<Option<T>>,
) {
    match last_index(ids, id) {
        Some(k) => (slots[k], slots.update(k, None)),
        None => (None, slots),
    }
}

/// The blocks of a turn in line with the timeline.
pub open spec fn align_items(
    items: Seq<ItemView>,
    ids: Seq<Seq<char>>,
    slots: Seq<Option<SegView>>,
    width: u16,
) -> AlignView
    decreases items.len(),
{
    if items.len() == 0 {
        AlignView { slots, content: Seq::empty(), rebuilt: 0 }
    } else {
        let p = align_items(items.drop_last(), ids, slots, width);
        let (prev, rest) = taken(ids, p.slots, items.last().block.block_id@);
        let (seg, drawn) = aligned(prev, items.last(), width);
        AlignView {
            slots: rest,
            content: p.content.push(seg),
            rebuilt: p.rebuilt + if drawn {
                1nat
            } else {
                0
            },
        }
    }
}

/// The cached blocks of a turn by their ids.
pub open spec fn known_ids(t: TurnView) -> Seq<Seq<char>> {
    if t.ids.len() <= t.content.len() {
        t.ids
    } else {
        t.ids.take(t.content.len() as int)
    }
}

/// What can be taken over of the blocks of a cached turn.
pub open spec fn known_slots(t: TurnView) -> Seq<Option<SegView>> {
    slots_of(t.content)
}

/// The ids of a turn's blocks in the order in which they are shown.
pub open spec fn item_ids(items: Seq<ItemView>) -> Seq<Seq<char>> {
    Seq::new(items.len(), |i: int| items[i].block.block_id@)
}

/// A turn in line with the timeline, and how many blocks were drawn for it.
pub open spec fn aligned_turn(
    turn: Turn,
    num: u64,
    groups: Seq<(String, u32)>,
    width: u16,
    prev: Option<TurnView>,
) -> (TurnView, nat) {
    let items = turn_items(turn, groups);
    let pk = pre_key(turn, num, width);
    let qk = post_key(turn.failure);
    let new_pre = seg_of_height(pk, pre_estimate(turn, width as nat) as usize);
    let new_post = seg_of_height(qk, post_estimate(turn.failure, width as nat) as usize);
    let a = match prev {
        Some(t) => align_items(items, known_ids(t), known_slots(t), width),
        None => align_items(items, Seq::empty(), Seq::empty(), width),
    };
    (
        TurnView {
            turn_id: turn.turn_id@,
            struct_key: struct_key(turn, num),
            pre: match prev {
                Some(t) if t.pre.key == pk => t.pre,
                _ => new_pre,
            },
            content: a.content,
            ids: item_ids(items),
            post: match prev {
                Some(t) if t.post.key == qk => t.post,
                _ => new_post,
            },
        },
        a.rebuilt,
    )
}

/// All blocks that are left are kept consistently.
pub open spec fn slots_wf(v: Seq<Option<BlockSeg>>) -> bool {
    forall|i: int| 0 <= i < v.len() ==> ((#[trigger] v[i]) matches Some(s) ==> s.wf())
}

fn take_seg(ids: &Vec<String>, slots: &mut Vec<Option<BlockSeg>>, id: &str) -> (r: Option<BlockSeg>)
    requires
        ids@.len() <= old(slots)@.len(),
        slots_wf(old(slots)@),
    ensures
        final(slots)@.len() == old(slots)@.len(),
        slots_wf(final(slots)@),
        r matches Some(s) ==> s.wf(),
        ({
            let (prev, rest) = taken(texts(ids@), seg_slots(old(slots)@), id@);
            &&& prev == match r {
                Some(s) => Some(s@),
                None => None,
            }
            &&& rest == seg_slots(final(slots)@)
        }),
{
    match find_last(ids, id) {
        Some(k) => {
            let ghost before = slots@;
            let r = take_slot(slots, k);
            assert(before[k as int] == r);
            assert(seg_slots(slots@) =~= seg_slots(before).update(k as int, None));
            r
        },
        None => None,
    }
}

fn align_blocks(
    turn: &Turn,
    plan: &Vec<PlanItem>,
    ids: &Vec<String>,
    slots: Vec<Option<BlockSeg>>,
    width: u16,
    rebuilt: usize,
) -> (r: (Vec<BlockSeg>, usize))
    requires
        plan_within(*turn, plan@),
        ids@.len() <= slots@.len(),
        slots_wf(slots@),
    ensures
        segs_wf(r.0@),
        ({
            let a = align_items(
                items_of(*turn, plan@),
                texts(ids@),
                seg_slots(slots@),
                width,
            );
            &&& segs(r.0@) == a.content
            &&& r.1 == crate::estimates::cap(rebuilt as nat + a.rebuilt)
        }),
{
    let ghost items = items_of(*turn, plan@);
    let ghost slots0 = seg_slots(slots@);
    let mut slots = slots;
    let mut content: Vec<BlockSeg> = Vec::new();
    let mut n: usize = rebuilt;
    let mut i: usize = 0;
    assert(items.take(0) =~= Seq::empty());
    assert(segs(content@) =~= Seq::empty());
    while i < plan.len()
        invariant
            i <= plan@.len(),
            plan_within(*turn, plan@),
            items == items_of(*turn, plan@),
            ids@.len() <= slots@.len(),
            slots_wf(slots@),
            segs_wf(content@),
            ({
                let a = align_items(items.take(i as int), texts(ids@), slots0, width);
                &&& segs(content@) == a.content
                &&& seg_slots(slots@) == a.slots
                &&& n == crate::estimates::cap(rebuilt as nat + a.rebuilt)
            }),
        decreases plan@.len() - i,
    {
        proof {
            assert(items.take(i + 1).drop_last() =~= items.take(i as int));
            assert(items.take(i + 1).last() == items[i as int]);
            assert(plan@[i as int].within(*turn));
        }
        let block = &turn.rounds[plan[i].round].blocks[plan[i].block];
        assert(items[i as int] == (ItemView { block: *block, shown: plan@[i as int].shown@ }));
        let prev = take_seg(ids, &mut slots, block.block_id.as_str());
        let (seg, drawn) = align_block(prev, block, &plan[i].shown, width);
        content.push(seg);
        if drawn {
            n = n.saturating_add(1);
        }
        i += 1;
    }
    assert(items.take(i as int) =~= items);
    (content, n)
}

fn ids_of(turn: &Turn, plan: &Vec<PlanItem>) -> (out: Vec<String>)
    requires
        plan_within(*turn, plan@),
    ensures
        texts(out@) == item_ids(items_of(*turn, plan@)),
{
    let mut out: Vec<String> = Vec::new();
    let ghost want = item_ids(items_of(*turn, plan@));
    let mut i: usize = 0;
    while i < plan.len()
        invariant
            i <= plan@.len(),
            plan_within(*turn, plan@),
            want == item_ids(items_of(*turn, plan@)),
            texts(out@) == want.take(i as int),
        decreases plan@.len() - i,
    {
        assert(plan@[i as int].within(*turn));
        let block = &turn.rounds[plan[i].round].blocks[plan[i].block];
        assert(want[i as int] == block.block_id@);
        out.push(block.block_id.clone());
        i += 1;
        assert(texts(out@) =~= want.take(i as int));
    }
    assert(texts(out@) =~= want);
    out
}

/// A turn in line with the timeline; `rebuilt` counts the blocks drawn.
pub fn align_turn_seg(
    turn: &Turn,
    num: u64,
    groups: &Vec<(String, u32)>,
    width: u16,
    prev: Option<TurnSeg>,
    rebuilt: usize,
) -> (r: (TurnSeg, usize))
    requires
        prev matches Some(t) ==> t.wf(),
    ensures
        r.0.wf(),
        ({
            let (t, n) = aligned_turn(
                *turn,
                num,
                groups@,
                width,
                match prev {
                    Some(t) => Some(t@),
                    None => None,
                },
            );
            &&& r.0@ == t
            &&& r.1 == crate::estimates::cap(rebuilt as nat + n)
        }),
{
    let pk = turn_pre_key(turn, num, width);
    let qk = turn_post_key(&turn.failure);
    let sk = turn_struct_key(turn, num);
    let plan = plan_turn(turn, groups);
    let new_ids = ids_of(turn, &plan);
    let mut pre: Option<BlockSeg> = None;
    let mut post: Option<BlockSeg> = None;
    let mut ids: Vec<String> = Vec::new();
    let mut slots: Vec<Option<BlockSeg>> = Vec::new();
    assert(texts(ids@) =~= Seq::empty());
    assert(seg_slots(slots@) =~= Seq::empty());
    match prev {
        Some(t) => {
            let TurnSeg { turn_id: _, struct_key: _, pre: p, content, content_ids, post: q } = t;
            if p.key == pk {
                pre = Some(p);
            }
            if q.key == qk {
                post = Some(q);
            }
            ids = content_ids;
            let n: usize = content.len();
            ids.truncate(n);
            slots = to_slots(content);
            proof {
                assert(texts(ids@) =~= known_ids(t@));
                assert(seg_slots(slots@) =~= known_slots(t@));
            }
        },
        None => {},
    }
    let (content, n) = align_blocks(turn, &plan, &ids, slots, width, rebuilt);
    let pre = match pre {
        Some(p) => p,
        None => BlockSeg::of_height(pk, estimate_pre_lines(turn, width as usize)),
    };
    let post = match post {
        Some(p) => p,
        None => BlockSeg::of_height(qk, estimate_post_lines(&turn.failure, width as usize)),
    };
    (
        TurnSeg {
            turn_id: turn.turn_id.clone(),
            struct_key: sk,
            pre,
            content,
            content_ids: new_ids,
            post,
        },
        n,
    )
}

} // verus!
