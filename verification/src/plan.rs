//! What a turn shows: blocks one by one, with runs of tool calls folded into
//! one line.

use crate::text::str_eq;
use crate::timeline::{block_count, Block, Round, TimelineBlockKind, TimelineToolState, Turn};
use crate::tool_card::{is_t1_tool, t1_tool};
use vstd::prelude::*;
use vstd::utf8::encode_utf8;

verus! {

pub const FNV_OFFSET: u64 = 0xcbf2_9ce4_8422_2325;

pub const FNV_PRIME: u64 = 0x0000_0100_0000_01b3;

/// Mixes a number into a hash.
pub open spec fn mix(h: u64, v: u64) -> u64 {
    (h ^ v).wrapping_mul(FNV_PRIME)
}

/// Mixes bytes into a hash, first to last.
pub open spec fn mix_bytes(h: u64, b: Seq<u8>) -> u64
    decreases b.len(),
{
    if b.len() == 0 {
        h
    } else {
        mix(mix_bytes(h, b.drop_last()), b.last() as u64)
    }
}

/// Mixes a text into a hash: its bytes and then their number, so that texts
/// in a row cannot trade characters.
pub open spec fn mix_str(h: u64, s: Seq<char>) -> u64 {
    mix(mix_bytes(h, encode_utf8(s)), encode_utf8(s).len() as u64)
}

/// Mixes a number into a hash.
pub fn h_u64(h: &mut u64, v: u64)
    ensures
        *final(h) == mix(*old(h), v),
{
    *h = (*h ^ v).wrapping_mul(FNV_PRIME);
}

/// Mixes a text into a hash.
pub fn h_str(h: &mut u64, s: &str)
    ensures
        *final(h) == mix_str(*old(h), s@),
{
    let bytes = s.as_bytes();
    let n: usize = bytes.len();
    let mut i: usize = 0;
    assert(bytes@.take(0) =~= Seq::empty());
    while i < n
        invariant
            i <= n == bytes@.len(),
            *h == mix_bytes(*old(h), bytes@.take(i as int)),
        decreases n - i,
    {
        h_u64(h, bytes[i] as u64);
        proof {
            assert(bytes@.take(i + 1).drop_last() =~= bytes@.take(i as int));
        }
        i += 1;
    }
    assert(bytes@.take(i as int) =~= bytes@);
    h_u64(h, n as u64);
}

/// A number for a tool state.
pub open spec fn tool_tag(s: TimelineToolState) -> u64 {
    match s {
        TimelineToolState::Prepared => 0,
        TimelineToolState::Running => 1,
        TimelineToolState::Succeeded => 2,
        TimelineToolState::Failed => 3,
        TimelineToolState::Cancelled => 4,
        TimelineToolState::Backgrounded => 5,
    }
}

/// A number for a tool state.
pub fn tool_state_tag(s: TimelineToolState) -> (t: u64)
    ensures
        t == tool_tag(s),
{
    match s {
        TimelineToolState::Prepared => 0,
        TimelineToolState::Running => 1,
        TimelineToolState::Succeeded => 2,
        TimelineToolState::Failed => 3,
        TimelineToolState::Cancelled => 4,
        TimelineToolState::Backgrounded => 5,
    }
}

/// How a block is shown.
#[derive(Debug)]
pub enum Shown {
    /// By itself.
    Whole,
    /// As the line of a folded run with these states; the number identifies
    /// the run.
    Line(Vec<TimelineToolState>, u64),
    /// Not at all, behind the line of its run.
    Hidden(u64),
}

/// How a block is shown.
#[verifier::ext_equal]
pub enum ShownView {
    Whole,
    Line(Seq<TimelineToolState>, u64),
    Hidden(u64),
}

impl View for Shown {
    type V = ShownView;

    open spec fn view(&self) -> ShownView {
        match *self {
            Shown::Whole => ShownView::Whole,
            Shown::Line(states, sig) => ShownView::Line(states@, sig),
            Shown::Hidden(sig) => ShownView::Hidden(sig),
        }
    }
}

/// A block of a turn, by round and place in it, and how it is shown.
#[derive(Debug)]
pub struct PlanItem {
    pub round: usize,
    pub block: usize,
    pub shown: Shown,
}

/// A block and how it is shown.
#[verifier::ext_equal]
pub struct ItemView {
    pub block: Block,
    pub shown: ShownView,
}

impl PlanItem {
    /// The block is one of the turn's.
    pub open spec fn within(&self, turn: Turn) -> bool {
        &&& self.round < turn.rounds@.len()
        &&& self.block < turn.rounds@[self.round as int].blocks@.len()
    }

    /// The block itself.
    pub open spec fn of(&self, turn: Turn) -> ItemView {
        ItemView {
            block: turn.rounds@[self.round as int].blocks@[self.block as int],
            shown: self.shown@,
        }
    }
}

/// The items of a plan.
pub open spec fn items_of(turn: Turn, plan: Seq<PlanItem>) -> Seq<ItemView> {
    Seq::new(plan.len(), |i: int| plan[i].of(turn))
}

/// A tool call that is drawn as a card, and so may be folded with its
/// neighbours.
pub open spec fn groupable(b: Block) -> bool {
    b.kind == TimelineBlockKind::Tool && (b.tool matches Some(t) && !t1_tool(t.name@))
}

/// A tool call that is drawn as a card.
pub fn is_groupable(b: &Block) -> (r: bool)
    ensures
        r == groupable(*b),
{
    if b.kind != TimelineBlockKind::Tool {
        return false;
    }
    match &b.tool {
        Some(t) => !is_t1_tool(t.name.as_str()),
        None => false,
    }
}

/// The states of a run of tool calls.
pub open spec fn states_of(g: Seq<Block>) -> Seq<TimelineToolState> {
    Seq::new(g.len(), |i: int| g[i].tool->0.state)
}

/// A failed tool call.
pub open spec fn failed(b: Block) -> bool {
    b.tool matches Some(t) && t.state == TimelineToolState::Failed
}

/// The last failed call of a run.
pub open spec fn last_failed(g: Seq<Block>) -> Option<int>
    decreases g.len(),
{
    if g.len() == 0 {
        None
    } else if failed(g.last()) {
        Some(g.len() - 1)
    } else {
        last_failed(g.drop_last())
    }
}

/// Mixes the ids and states of a run into a hash.
pub open spec fn mix_members(h: u64, g: Seq<Block>) -> u64
    decreases g.len(),
{
    if g.len() == 0 {
        h
    } else {
        let p = mix_str(mix_members(h, g.drop_last()), g.last().block_id@);
        match g.last().tool {
            Some(t) => mix(p, tool_tag(t.state)),
            None => p,
        }
    }
}

pub const GROUP_SALT: u64 = 0x9E37_79B9_7F4A_7C15;

/// Identifies a run of tool calls: where it stands, its members and their
/// states, and whether it is unfolded.
pub open spec fn group_sig(turn_id: Seq<char>, round_num: u32, g: Seq<Block>, expanded: bool) -> u64 {
    let h = mix(mix_str(FNV_OFFSET, turn_id), round_num as u64);
    mix(
        mix_members(h, g),
        if expanded {
            1
        } else {
            0
        },
    ).wrapping_add(GROUP_SALT)
}

/// The member of a folded run that stands for its line: the first that is not
/// shown as a card.
pub open spec fn line_at(g: Seq<Block>) -> int {
    if last_failed(g) == Some(0int) {
        1
    } else {
        0
    }
}

/// A member of a folded run: one stands for the line, the others show nothing.
pub open spec fn fold_item(g: Seq<Block>, i: int, sig: u64) -> ItemView {
    ItemView {
        block: g[i],
        shown: if i == line_at(g) {
            ShownView::Line(states_of(g), sig)
        } else {
            ShownView::Hidden(sig)
        },
    }
}

/// A block shown by itself.
pub open spec fn whole(b: Block) -> ItemView {
    ItemView { block: b, shown: ShownView::Whole }
}

/// Members `from` up to `to` of a folded run.
pub open spec fn fold_items(g: Seq<Block>, from: int, to: int, sig: u64) -> Seq<ItemView> {
    Seq::new((to - from) as nat, |k: int| fold_item(g, from + k, sig))
}

/// A run of tool calls: folded, with its last failed call shown behind the
/// others, or card by card.
pub open spec fn group_items(turn_id: Seq<char>, round_num: u32, g: Seq<Block>, expanded: bool)
    -> Seq<ItemView> {
    let n = g.len() as int;
    if expanded {
        Seq::new(g.len(), |k: int| whole(g[k]))
    } else {
        let sig = group_sig(turn_id, round_num, g, expanded);
        match last_failed(g) {
            Some(f) => fold_items(g, 0, f, sig) + fold_items(g, f + 1, n, sig) + seq![whole(g[f])],
            None => fold_items(g, 0, n, sig),
        }
    }
}

/// A round read so far: its finished items and the run of tool calls at its
/// end.
#[verifier::ext_equal]
pub struct Scan {
    pub items: Seq<ItemView>,
    pub group: Seq<Block>,
}

/// Reads the blocks of a round.
pub open spec fn scan(turn_id: Seq<char>, round_num: u32, blocks: Seq<Block>, expanded: bool) -> Scan
    decreases blocks.len(),
{
    if blocks.len() == 0 {
        Scan { items: Seq::empty(), group: Seq::empty() }
    } else {
        let s = scan(turn_id, round_num, blocks.drop_last(), expanded);
        let b = blocks.last();
        if groupable(b) {
            Scan { items: s.items, group: s.group.push(b) }
        } else {
            Scan {
                items: s.items + group_items(turn_id, round_num, s.group, expanded) + seq![whole(b)],
                group: Seq::empty(),
            }
        }
    }
}

/// The items of a round.
pub open spec fn round_items(turn_id: Seq<char>, round: Round, expanded: bool) -> Seq<ItemView> {
    let s = scan(turn_id, round.round_num, round.blocks@, expanded);
    s.items + group_items(turn_id, round.round_num, s.group, expanded)
}

/// The runs of a round are unfolded.
pub open spec fn unfolded(groups: Seq<(String, u32)>, turn_id: Seq<char>, round_num: u32) -> bool {
    exists|i: int|
        0 <= i < groups.len() && (#[trigger] groups[i]).0@ == turn_id && groups[i].1 == round_num
}

/// The items of the first rounds of a turn.
pub open spec fn rounds_items(turn_id: Seq<char>, rounds: Seq<Round>, groups: Seq<(String, u32)>)
    -> Seq<ItemView>
    decreases rounds.len(),
{
    if rounds.len() == 0 {
        Seq::empty()
    } else {
        let r = rounds.last();
        rounds_items(turn_id, rounds.drop_last(), groups) + round_items(
            turn_id,
            r,
            unfolded(groups, turn_id, r.round_num),
        )
    }
}

/// The items of a turn.
pub open spec fn turn_items(turn: Turn, groups: Seq<(String, u32)>) -> Seq<ItemView> {
    rounds_items(turn.turn_id@, turn.rounds@, groups)
}

proof fn lemma_last_failed(g: Seq<Block>)
    ensures
        last_failed(g) matches Some(f) ==> 0 <= f < g.len() && failed(g[f]) && forall|j: int|
            f < j < g.len() ==> !failed(#[trigger] g[j]),
        last_failed(g) is None ==> forall|j: int| 0 <= j < g.len() ==> !failed(#[trigger] g[j]),
    decreases g.len(),
{
    if g.len() > 0 {
        lemma_last_failed(g.drop_last());
        assert forall|j: int| 0 <= j < g.len() - 1 implies g.drop_last()[j] == #[trigger] g[j] by {}
    }
}

/// A run has as many items as calls.
pub proof fn lemma_group_len(turn_id: Seq<char>, round_num: u32, g: Seq<Block>, expanded: bool)
    ensures
        group_items(turn_id, round_num, g, expanded).len() == g.len(),
{
    lemma_last_failed(g);
}

proof fn lemma_scan_len(turn_id: Seq<char>, round_num: u32, blocks: Seq<Block>, expanded: bool)
    ensures
        ({
            let s = scan(turn_id, round_num, blocks, expanded);
            s.items.len() + s.group.len() == blocks.len()
        }),
    decreases blocks.len(),
{
    if blocks.len() > 0 {
        lemma_scan_len(turn_id, round_num, blocks.drop_last(), expanded);
        lemma_group_len(
            turn_id,
            round_num,
            scan(turn_id, round_num, blocks.drop_last(), expanded).group,
            expanded,
        );
    }
}

proof fn lemma_rounds_len(turn_id: Seq<char>, rounds: Seq<Round>, groups: Seq<(String, u32)>)
    ensures
        rounds_items(turn_id, rounds, groups).len() == block_count(rounds),
    decreases rounds.len(),
{
    if rounds.len() > 0 {
        let r = rounds.last();
        let e = unfolded(groups, turn_id, r.round_num);
        lemma_rounds_len(turn_id, rounds.drop_last(), groups);
        lemma_scan_len(turn_id, r.round_num, r.blocks@, e);
        lemma_group_len(
            turn_id,
            r.round_num,
            scan(turn_id, r.round_num, r.blocks@, e).group,
            e,
        );
    }
}

/// A folded run starts with its line, and its last failed call comes last as a
/// card; only a failed call by itself has nothing to fold.
pub proof fn law_folded_run_shows_its_line(turn_id: Seq<char>, round_num: u32, g: Seq<Block>)
    requires
        g.len() > 1 || (g.len() == 1 && !failed(g[0])),
    ensures
        ({
            let items = group_items(turn_id, round_num, g, false);
            &&& items[0].shown == ShownView::Line(
                states_of(g),
                group_sig(turn_id, round_num, g, false),
            )
            &&& last_failed(g) matches Some(f) ==> items.last() == whole(g[f])
        }),
{
    lemma_last_failed(g);
    if g.len() == 1 {
        assert(!failed(g[0]));
    }
}

/// A turn has one item for each of its blocks.
pub proof fn law_one_item_per_block(turn: Turn, groups: Seq<(String, u32)>)
    ensures
        turn_items(turn, groups).len() == block_count(turn.rounds@),
{
    lemma_rounds_len(turn.turn_id@, turn.rounds@, groups);
}

proof fn lemma_items_push(turn: Turn, plan: Seq<PlanItem>, p: PlanItem)
    ensures
        items_of(turn, plan.push(p)) == items_of(turn, plan).push(p.of(turn)),
{
    assert(items_of(turn, plan.push(p)) =~= items_of(turn, plan).push(p.of(turn)));
}

/// Every item names a block of the turn.
pub open spec fn plan_within(turn: Turn, plan: Seq<PlanItem>) -> bool {
    forall|i: int| 0 <= i < plan.len() ==> (#[trigger] plan[i]).within(turn)
}

/// Whether the runs of a round are unfolded.
pub fn is_unfolded(groups: &Vec<(String, u32)>, turn_id: &str, round_num: u32) -> (r: bool)
    ensures
        r == unfolded(groups@, turn_id@, round_num),
{
    let mut i: usize = 0;
    while i < groups.len()
        invariant
            i <= groups@.len(),
            forall|j: int|
                0 <= j < i ==> !((#[trigger] groups@[j]).0@ == turn_id@ && groups@[j].1 == round_num),
        decreases groups@.len() - i,
    {
        if str_eq(groups[i].0.as_str(), turn_id) && groups[i].1 == round_num {
            return true;
        }
        i += 1;
    }
    false
}

fn states_between(blocks: &Vec<Block>, from: usize, to: usize) -> (v: Vec<TimelineToolState>)
    requires
        from <= to <= blocks@.len(),
        forall|j: int| from <= j < to ==> groupable(#[trigger] blocks@[j]),
    ensures
        v@ == states_of(blocks@.subrange(from as int, to as int)),
{
    let mut v: Vec<TimelineToolState> = Vec::new();
    let ghost want = states_of(blocks@.subrange(from as int, to as int));
    let mut i: usize = from;
    while i < to
        invariant
            from <= i <= to <= blocks@.len(),
            forall|j: int| from <= j < to ==> groupable(#[trigger] blocks@[j]),
            want == states_of(blocks@.subrange(from as int, to as int)),
            v@ == want.take(i - from),
        decreases to - i,
    {
        match &blocks[i].tool {
            Some(t) => {
                v.push(t.state);
            },
            None => {},
        }
        i += 1;
        assert(want.take(i - from) =~= want.take(i - from - 1).push(want[i - from - 1]));
    }
    assert(want.take(i - from) =~= want);
    v
}

fn is_failed(b: &Block) -> (r: bool)
    ensures
        r == failed(*b),
{
    match &b.tool {
        Some(t) => t.state == TimelineToolState::Failed,
        None => false,
    }
}

fn last_failed_between(blocks: &Vec<Block>, from: usize, to: usize) -> (r: Option<usize>)
    requires
        from <= to <= blocks@.len(),
    ensures
        ({
            let g = blocks@.subrange(from as int, to as int);
            match r {
                Some(k) => from <= k < to && last_failed(g) == Some(k - from),
                None => last_failed(g) is None,
            }
        }),
{
    let mut i: usize = to;
    assert(blocks@.subrange(from as int, i as int) =~= blocks@.subrange(from as int, to as int));
    while i > from
        invariant
            from <= i <= to <= blocks@.len(),
            last_failed(blocks@.subrange(from as int, to as int)) == last_failed(
                blocks@.subrange(from as int, i as int),
            ),
        decreases i,
    {
        proof {
            assert(blocks@.subrange(from as int, i as int).drop_last() =~= blocks@.subrange(
                from as int,
                i - 1,
            ));
        }
        if is_failed(&blocks[i - 1]) {
            return Some(i - 1);
        }
        i -= 1;
    }
    None
}

fn sig_between(
    turn_id: &str,
    round_num: u32,
    blocks: &Vec<Block>,
    from: usize,
    to: usize,
    expanded: bool,
) -> (sig: u64)
    requires
        from <= to <= blocks@.len(),
    ensures
        sig == group_sig(
            turn_id@,
            round_num,
            blocks@.subrange(from as int, to as int),
            expanded,
        ),
{
    let mut h: u64 = FNV_OFFSET;
    h_str(&mut h, turn_id);
    h_u64(&mut h, round_num as u64);
    let ghost h0 = h;
    let ghost g = blocks@.subrange(from as int, to as int);
    let mut i: usize = from;
    assert(g.take(0) =~= Seq::empty());
    while i < to
        invariant
            from <= i <= to <= blocks@.len(),
            g == blocks@.subrange(from as int, to as int),
            h == mix_members(h0, g.take(i - from)),
        decreases to - i,
    {
        proof {
            assert(g.take(i - from + 1).drop_last() =~= g.take(i - from));
            assert(g.take(i - from + 1).last() == blocks@[i as int]);
        }
        h_str(&mut h, blocks[i].block_id.as_str());
        match &blocks[i].tool {
            Some(t) => {
                h_u64(&mut h, tool_state_tag(t.state));
            },
            None => {},
        }
        i += 1;
    }
    assert(g.take(i - from) =~= g);
    h_u64(
        &mut h,
        if expanded {
            1
        } else {
            0
        },
    );
    h.wrapping_add(GROUP_SALT)
}

/// Appends the folded members `lo` up to `hi` of the run from `from` up to
/// `to`, whose line stands at `line`.
fn push_folded(
    turn: &Turn,
    r: usize,
    from: usize,
    to: usize,
    lo: usize,
    hi: usize,
    line: usize,
    sig: u64,
    out: &mut Vec<PlanItem>,
)
    requires
        r < turn.rounds@.len(),
        line - from == line_at(
            turn.rounds@[r as int].blocks@.subrange(from as int, to as int),
        ),
        from <= lo <= hi <= to <= turn.rounds@[r as int].blocks@.len(),
        forall|j: int| from <= j < to ==> groupable(#[trigger] turn.rounds@[r as int].blocks@[j]),
        plan_within(*turn, old(out)@),
    ensures
        plan_within(*turn, final(out)@),
        items_of(*turn, final(out)@) == items_of(*turn, old(out)@) + fold_items(
            turn.rounds@[r as int].blocks@.subrange(from as int, to as int),
            lo - from,
            hi - from,
            sig,
        ),
{
    let blocks = &turn.rounds[r].blocks;
    let ghost g = blocks@.subrange(from as int, to as int);
    let ghost want = fold_items(g, lo - from, hi - from, sig);
    let ghost start = items_of(*turn, out@);
    let mut i: usize = lo;
    assert(start + want.take(0) =~= start);
    while i < hi
        invariant
            r < turn.rounds@.len(),
            *blocks == turn.rounds@[r as int].blocks,
            from <= lo <= i <= hi <= to <= blocks@.len(),
            forall|j: int| from <= j < to ==> groupable(#[trigger] blocks@[j]),
            g == blocks@.subrange(from as int, to as int),
            line - from == line_at(g),
            want == fold_items(g, lo - from, hi - from, sig),
            plan_within(*turn, out@),
            items_of(*turn, out@) == start + want.take(i - lo),
        decreases hi - i,
    {
        let shown = if i == line {
            Shown::Line(states_between(blocks, from, to), sig)
        } else {
            Shown::Hidden(sig)
        };
        let item = PlanItem { round: r, block: i, shown };
        assert(item.of(*turn) =~= want[i - lo]);
        proof {
            lemma_items_push(*turn, out@, item);
        }
        out.push(item);
        i += 1;
        assert(want.take(i - lo) =~= want.take(i - lo - 1).push(want[i - lo - 1]));
        assert(start + want.take(i - lo) =~= (start + want.take(i - lo - 1)).push(
            want[i - lo - 1],
        ));
    }
    assert(want.take(i - lo) =~= want);
}

fn push_whole(turn: &Turn, r: usize, i: usize, out: &mut Vec<PlanItem>)
    requires
        r < turn.rounds@.len(),
        i < turn.rounds@[r as int].blocks@.len(),
        plan_within(*turn, old(out)@),
    ensures
        plan_within(*turn, final(out)@),
        items_of(*turn, final(out)@) == items_of(*turn, old(out)@).push(
            whole(turn.rounds@[r as int].blocks@[i as int]),
        ),
{
    let item = PlanItem { round: r, block: i, shown: Shown::Whole };
    proof {
        lemma_items_push(*turn, out@, item);
        assert(item.of(*turn) =~= whole(turn.rounds@[r as int].blocks@[i as int]));
    }
    out.push(item);
}

/// Appends the run of tool calls from `from` up to `to`.
fn push_group(turn: &Turn, r: usize, from: usize, to: usize, expanded: bool, out: &mut Vec<PlanItem>)
    requires
        r < turn.rounds@.len(),
        from <= to <= turn.rounds@[r as int].blocks@.len(),
        forall|j: int| from <= j < to ==> groupable(#[trigger] turn.rounds@[r as int].blocks@[j]),
        plan_within(*turn, old(out)@),
    ensures
        plan_within(*turn, final(out)@),
        items_of(*turn, final(out)@) == items_of(*turn, old(out)@) + group_items(
            turn.turn_id@,
            turn.rounds@[r as int].round_num,
            turn.rounds@[r as int].blocks@.subrange(from as int, to as int),
            expanded,
        ),
{
    let round = &turn.rounds[r];
    let ghost g = round.blocks@.subrange(from as int, to as int);
    let ghost start = items_of(*turn, out@);
    if expanded {
        let ghost want = Seq::new(g.len(), |k: int| whole(g[k]));
        let mut i: usize = from;
        assert(start + want.take(0) =~= start);
        while i < to
            invariant
                r < turn.rounds@.len(),
                *round == turn.rounds@[r as int],
                from <= i <= to <= round.blocks@.len(),
                g == round.blocks@.subrange(from as int, to as int),
                want == Seq::new(g.len(), |k: int| whole(g[k])),
                plan_within(*turn, out@),
                items_of(*turn, out@) == start + want.take(i - from),
            decreases to - i,
        {
            push_whole(turn, r, i, out);
            i += 1;
            assert(start + want.take(i - from) =~= (start + want.take(i - from - 1)).push(
                want[i - from - 1],
            ));
        }
        assert(want.take(i - from) =~= want);
        return;
    }
    let sig = sig_between(
        turn.turn_id.as_str(),
        round.round_num,
        &round.blocks,
        from,
        to,
        expanded,
    );
    match last_failed_between(&round.blocks, from, to) {
        Some(k) => {
            let line: usize = if k == from {
                k + 1
            } else {
                from
            };
            push_folded(turn, r, from, to, from, k, line, sig, out);
            push_folded(turn, r, from, to, k + 1, to, line, sig, out);
            push_whole(turn, r, k, out);
            assert(items_of(*turn, out@) =~= start + group_items(
                turn.turn_id@,
                round.round_num,
                g,
                expanded,
            ));
        },
        None => {
            push_folded(turn, r, from, to, from, to, from, sig, out);
        },
    }
}

/// Appends the items of a round.
fn push_round(turn: &Turn, r: usize, expanded: bool, out: &mut Vec<PlanItem>)
    requires
        r < turn.rounds@.len(),
        plan_within(*turn, old(out)@),
    ensures
        plan_within(*turn, final(out)@),
        items_of(*turn, final(out)@) == items_of(*turn, old(out)@) + round_items(
            turn.turn_id@,
            turn.rounds@[r as int],
            expanded,
        ),
{
    let blocks = &turn.rounds[r].blocks;
    let n: usize = blocks.len();
    let ghost id = turn.turn_id@;
    let ghost num = turn.rounds@[r as int].round_num;
    let ghost start = items_of(*turn, out@);
    let mut from: usize = 0;
    let mut i: usize = 0;
    assert(blocks@.take(0) =~= Seq::empty());
    assert(blocks@.subrange(0, 0) =~= Seq::empty());
    assert(start + Seq::<ItemView>::empty() =~= start);
    while i < n
        invariant
            r < turn.rounds@.len(),
            *blocks == turn.rounds@[r as int].blocks,
            id == turn.turn_id@,
            num == turn.rounds@[r as int].round_num,
            n == blocks@.len(),
            from <= i <= n,
            plan_within(*turn, out@),
            forall|j: int| from <= j < i ==> groupable(#[trigger] blocks@[j]),
            ({
                let s = scan(id, num, blocks@.take(i as int), expanded);
                &&& items_of(*turn, out@) == start + s.items
                &&& s.group == blocks@.subrange(from as int, i as int)
            }),
        decreases n - i,
    {
        let ghost s = scan(id, num, blocks@.take(i as int), expanded);
        proof {
            assert(blocks@.take(i + 1).drop_last() =~= blocks@.take(i as int));
            assert(blocks@.take(i + 1).last() == blocks@[i as int]);
        }
        if is_groupable(&blocks[i]) {
            assert(s.group.push(blocks@[i as int]) =~= blocks@.subrange(from as int, i + 1));
        } else {
            push_group(turn, r, from, i, expanded, out);
            push_whole(turn, r, i, out);
            from = i + 1;
            proof {
                assert(items_of(*turn, out@) =~= start + (s.items + group_items(
                    id,
                    num,
                    s.group,
                    expanded,
                ) + seq![whole(blocks@[i as int])]));
                assert(blocks@.subrange(from as int, i + 1) =~= Seq::empty());
            }
        }
        i += 1;
    }
    assert(blocks@.take(i as int) =~= blocks@);
    let ghost s = scan(id, num, blocks@, expanded);
    push_group(turn, r, from, n, expanded, out);
    assert(items_of(*turn, out@) =~= start + (s.items + group_items(id, num, s.group, expanded)));
}

/// What a turn shows, block by block.
pub fn plan_turn(turn: &Turn, groups: &Vec<(String, u32)>) -> (plan: Vec<PlanItem>)
    ensures
        plan_within(*turn, plan@),
        items_of(*turn, plan@) == turn_items(*turn, groups@),
        plan@.len() == block_count(turn.rounds@),
{
    let mut plan: Vec<PlanItem> = Vec::new();
    let mut r: usize = 0;
    assert(turn.rounds@.take(0) =~= Seq::empty());
    assert(items_of(*turn, plan@) =~= Seq::empty());
    while r < turn.rounds.len()
        invariant
            r <= turn.rounds@.len(),
            plan_within(*turn, plan@),
            items_of(*turn, plan@) == rounds_items(
                turn.turn_id@,
                turn.rounds@.take(r as int),
                groups@,
            ),
        decreases turn.rounds@.len() - r,
    {
        proof {
            assert(turn.rounds@.take(r + 1).drop_last() =~= turn.rounds@.take(r as int));
        }
        let expanded = is_unfolded(groups, turn.turn_id.as_str(), turn.rounds[r].round_num);
        push_round(turn, r, expanded, &mut plan);
        r += 1;
    }
    assert(turn.rounds@.take(r as int) =~= turn.rounds@);
    proof {
        law_one_item_per_block(*turn, groups@);
        assert(items_of(*turn, plan@).len() == plan@.len());
    }
    plan
}

} // verus!
