//! How the tool calls of a round are folded.

use crate::plan::{
    failed, group_items, groupable, last_failed, round_items, scan, states_of, unfolded, whole,
    ItemView,
};
use crate::timeline::{Block, Round, TimelineBlockKind, TimelineToolState};
use crate::tool_card::t1_tool;
use vstd::prelude::*;

verus! {

/// The items of the blocks of a round.
pub open spec fn items_for(
    turn_id: Seq<char>,
    round_num: u32,
    blocks: Seq<Block>,
    expanded: bool,
) -> Seq<ItemView> {
    let s = scan(turn_id, round_num, blocks, expanded);
    s.items + group_items(turn_id, round_num, s.group, expanded)
}

proof fn lemma_run_scanned(turn_id: Seq<char>, round_num: u32, blocks: Seq<Block>, expanded: bool)
    requires
        forall|k: int| 0 <= k < blocks.len() ==> groupable(#[trigger] blocks[k]),
    ensures
        scan(turn_id, round_num, blocks, expanded).items.len() == 0,
        scan(turn_id, round_num, blocks, expanded).group == blocks,
    decreases blocks.len(),
{
    if blocks.len() > 0 {
        let d = blocks.drop_last();
        assert forall|k: int| 0 <= k < d.len() implies groupable(#[trigger] d[k]) by {
            assert(d[k] == blocks[k]);
        }
        lemma_run_scanned(turn_id, round_num, d, expanded);
        assert(groupable(blocks[blocks.len() - 1]));
        assert(d.push(blocks.last()) =~= blocks);
    } else {
        assert(scan(turn_id, round_num, blocks, expanded).group =~= blocks);
    }
}

/// Tool calls that stand in a row fold together: all of them, as one run.
pub proof fn law_calls_in_a_row_fold_together(turn_id: Seq<char>, round: Round, expanded: bool)
    requires
        forall|k: int| 0 <= k < round.blocks@.len() ==> groupable(#[trigger] round.blocks@[k]),
    ensures
        round_items(turn_id, round, expanded) == group_items(
            turn_id,
            round.round_num,
            round.blocks@,
            expanded,
        ),
{
    lemma_run_scanned(turn_id, round.round_num, round.blocks@, expanded);
    let s = scan(turn_id, round.round_num, round.blocks@, expanded);
    assert(s.items + group_items(turn_id, round.round_num, s.group, expanded) =~= group_items(
        turn_id,
        round.round_num,
        round.blocks@,
        expanded,
    ));
}

/// Any other block ends a run: what stands before it and behind it is folded
/// apart, and the block itself is shown whole between.
pub proof fn law_other_block_ends_the_run(
    turn_id: Seq<char>,
    round_num: u32,
    a: Seq<Block>,
    b: Block,
    c: Seq<Block>,
    expanded: bool,
)
    requires
        !groupable(b),
    ensures
        items_for(turn_id, round_num, a + seq![b] + c, expanded) == items_for(
            turn_id,
            round_num,
            a,
            expanded,
        ) + seq![whole(b)] + items_for(turn_id, round_num, c, expanded),
{
    let front = items_for(turn_id, round_num, a, expanded) + seq![whole(b)];
    lemma_scan_behind(turn_id, round_num, a, b, c, expanded);
    let s = scan(turn_id, round_num, a + seq![b] + c, expanded);
    let t = scan(turn_id, round_num, c, expanded);
    let g = group_items(turn_id, round_num, t.group, expanded);
    assert(front + t.items + g =~= front + (t.items + g));
}

proof fn lemma_scan_behind(
    turn_id: Seq<char>,
    round_num: u32,
    a: Seq<Block>,
    b: Block,
    c: Seq<Block>,
    expanded: bool,
)
    requires
        !groupable(b),
    ensures
        ({
            let s = scan(turn_id, round_num, a + seq![b] + c, expanded);
            let t = scan(turn_id, round_num, c, expanded);
            &&& s.items == items_for(turn_id, round_num, a, expanded) + seq![whole(b)] + t.items
            &&& s.group == t.group
        }),
    decreases c.len(),
{
    let all = a + seq![b] + c;
    let front = items_for(turn_id, round_num, a, expanded) + seq![whole(b)];
    if c.len() == 0 {
        assert(all.drop_last() =~= a);
        assert(all.last() == b);
        assert(front + Seq::<ItemView>::empty() =~= front);
    } else {
        let d = c.drop_last();
        lemma_scan_behind(turn_id, round_num, a, b, d, expanded);
        assert(all.drop_last() =~= a + seq![b] + d);
        assert(all.last() == c.last());
        let t = scan(turn_id, round_num, d, expanded);
        let g = group_items(turn_id, round_num, t.group, expanded);
        let w = seq![whole(c.last())];
        assert(front + t.items + g + w =~= front + (t.items + g + w));
    }
}

/// Folded are the tool calls that have a card; the one-line calls, the texts
/// and the notices are not.
pub proof fn law_only_cards_fold(b: Block)
    ensures
        groupable(b) <==> (b.kind == TimelineBlockKind::Tool && b.tool is Some && !t1_tool(
            b.tool->0.name@,
        )),
{
}

proof fn lemma_last_bad(g: Seq<Block>)
    ensures
        last_failed(g) matches Some(f) ==> 0 <= f < g.len() && failed(g[f]) && forall|j: int|
            f < j < g.len() ==> !failed(#[trigger] g[j]),
        last_failed(g) is None ==> forall|j: int| 0 <= j < g.len() ==> !failed(#[trigger] g[j]),
    decreases g.len(),
{
    if g.len() > 0 {
        let d = g.drop_last();
        lemma_last_bad(d);
        assert forall|j: int| 0 <= j < d.len() implies d[j] == #[trigger] g[j] by {}
    }
}

/// A folded run of calls shows one line that tells the states of all of them,
/// in order, and the last one that failed, whole; of the others nothing.
pub proof fn law_folded_run(turn_id: Seq<char>, round_num: u32, g: Seq<Block>, k: int, f: int)
    requires
        g.len() > 1,
        0 <= k < g.len(),
    ensures
        ({
            let items = group_items(turn_id, round_num, g, false);
            &&& items.len() == g.len()
            &&& last_bad(g, f) ==> items.last().shown is Whole && items.last().block == g[f]
            &&& items[k].shown is Whole ==> k == g.len() - 1 && items[k].block.tool is Some
                && items[k].block.tool->0.state == TimelineToolState::Failed
            &&& items[0].shown is Line
            &&& items[0].shown->Line_0.len() == g.len()
            &&& forall|j: int|
                0 <= j < g.len() ==> (#[trigger] items[0].shown->Line_0[j]) == g[j].tool->0.state
            &&& k > 0 ==> !(items[k].shown is Line)
        }),
{
    lemma_last_bad(g);
    match last_failed(g) {
        Some(f) => {
            assert(last_bad(g, f));
        },
        None => {
            assert forall|f: int| !(#[trigger] last_bad(g, f)) by {}
        },
    }
    assert(states_of(g).len() == g.len());
}

/// Call `f` is the last of a run that failed.
pub open spec fn last_bad(g: Seq<Block>, f: int) -> bool {
    &&& 0 <= f < g.len()
    &&& g[f].tool is Some && g[f].tool->0.state == TimelineToolState::Failed
    &&& forall|j: int|
        f < j < g.len() ==> !((#[trigger] g[j]).tool is Some && g[j].tool->0.state
            == TimelineToolState::Failed)
}

/// A round is unfolded exactly where it was asked for.
pub proof fn law_unfolding_is_asked_for(
    groups: Seq<(String, u32)>,
    turn_id: Seq<char>,
    round_num: u32,
    i: int,
)
    ensures
        (0 <= i < groups.len() && groups[i].0@ == turn_id && groups[i].1 == round_num) ==> unfolded(
            groups,
            turn_id,
            round_num,
        ),
        (forall|j: int|
            0 <= j < groups.len() ==> (#[trigger] groups[j]).0@ != turn_id || groups[j].1
                != round_num) ==> !unfolded(groups, turn_id, round_num),
{
}

} // verus!
