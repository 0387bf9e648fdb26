//! What an exported document holds: every turn, and in it everything that was
//! said and done.

use crate::export::{
    block_text, blocks_text, body_note, fenced, prefixed_text, rounds_text, session_text, tool_label,
    tool_text, turn_calls, turn_label, turn_text, turns_text, calls, detail_note, header_note,
};
use crate::render_line::run_on;
use crate::text::{blank, dec, lines, occurs, occurs_at, one_line, starts_with, trim_end};
use crate::timeline::{
    Block, Round, TimelineBlockKind, TimelineToolBody, TimelineToolHeader, TimelineToolState,
    TimelineTurnState, TimelineView, ToolCard, Turn,
};
use crate::transcript_laws::all_blocks;
use vstd::prelude::*;

verus! {

/// Lines of which each stands behind a prefix and ends in a line feed.
pub open spec fn quoted(ls: Seq<Seq<char>>, prefix: Seq<char>) -> Seq<Seq<char>> {
    Seq::new(ls.len(), |i: int| prefix + ls[i] + seq!['\n'])
}

/// The head of the section of a tool call.
pub open spec fn section_head(tool: ToolCard) -> Seq<char> {
    seq!['#', '#', '#', ' ', '⚙', ' '] + tool.name@ + seq![' ', '·', ' '] + state_word(tool.state)
}

/// A state of a tool call in words.
pub open spec fn state_word(s: TimelineToolState) -> Seq<char> {
    match s {
        TimelineToolState::Prepared => seq!['已', '准', '备'],
        TimelineToolState::Running => seq!['运', '行', '中'],
        TimelineToolState::Succeeded => seq!['已', '完', '成'],
        TimelineToolState::Failed => seq!['失', '败'],
        TimelineToolState::Cancelled => seq!['已', '取', '消'],
        TimelineToolState::Backgrounded => seq!['后', '台', '运', '行'],
    }
}

/// A state of a turn in words.
pub open spec fn turn_word(s: TimelineTurnState) -> Seq<char> {
    match s {
        TimelineTurnState::Running => seq!['进', '行', '中'],
        TimelineTurnState::Completed => seq!['已', '完', '成'],
        TimelineTurnState::Failed => seq!['失', '败'],
        TimelineTurnState::Cancelled => seq!['已', '取', '消'],
    }
}

/// What a document has to hold of a block: the text of an answer and an empty
/// line behind it, the lines of a notice behind a mark, a section for a tool
/// call, and nothing of reasoning.
pub open spec fn holds(part: Seq<char>, block: Block) -> bool {
    match block.kind {
        TimelineBlockKind::Text => if blank(block.text@) {
            part.len() == 0
        } else {
            part == block.text@ + seq!['\n', '\n']
        },
        TimelineBlockKind::Reasoning => part.len() == 0,
        TimelineBlockKind::Notice => part == run_on(
            quoted(lines(block.text@), seq!['>', ' ', '·', ' ']),
        ) + seq!['\n'],
        TimelineBlockKind::Tool => match block.tool {
            Some(t) => starts_with(part, section_head(t)) && part.len() > section_head(t).len(),
            None => part.len() == 0,
        },
    }
}

/// The parts of a document hold the blocks, one for one.
pub open spec fn all_hold(parts: Seq<Seq<char>>, blocks: Seq<Block>) -> bool {
    &&& parts.len() == blocks.len()
    &&& forall|k: int| 0 <= k < blocks.len() ==> holds(#[trigger] parts[k], blocks[k])
}

/// `text` is a head, then what holds the blocks in order, then a rule.
pub open spec fn exported(text: Seq<char>, head: Seq<char>, parts: Seq<Seq<char>>, blocks: Seq<Block>)
    -> bool {
    &&& all_hold(parts, blocks)
    &&& text == head + run_on(parts) + seq!['-', '-', '-', '\n', '\n']
}

proof fn lemma_words(s: TimelineToolState, t: TimelineTurnState)
    ensures
        tool_label(s) == state_word(s),
        turn_label(t) == turn_word(t),
{
    reveal_strlit("已准备");
    reveal_strlit("运行中");
    reveal_strlit("已完成");
    reveal_strlit("失败");
    reveal_strlit("已取消");
    reveal_strlit("后台运行");
    reveal_strlit("进行中");
    assert(tool_label(s) =~= state_word(s));
    assert(turn_label(t) =~= turn_word(t));
}

proof fn lemma_run_on_push(parts: Seq<Seq<char>>, p: Seq<char>)
    ensures
        run_on(parts.push(p)) == run_on(parts) + p,
{
    assert(parts.push(p).drop_last() =~= parts);
}

proof fn lemma_run_on_add(a: Seq<Seq<char>>, b: Seq<Seq<char>>)
    ensures
        run_on(a + b) == run_on(a) + run_on(b),
    decreases b.len(),
{
    if b.len() == 0 {
        assert(a + b =~= a);
        assert(run_on(a) + run_on(b) =~= run_on(a));
    } else {
        assert((a + b).drop_last() =~= a + b.drop_last());
        lemma_run_on_add(a, b.drop_last());
        assert(run_on(a + b) =~= run_on(a) + run_on(b));
    }
}

proof fn lemma_quoted(ls: Seq<Seq<char>>, prefix: Seq<char>)
    ensures
        prefixed_text(ls, prefix) == run_on(quoted(ls, prefix)),
    decreases ls.len(),
{
    reveal_strlit("\n");
    assert("\n"@ =~= seq!['\n']);
    if ls.len() > 0 {
        lemma_quoted(ls.drop_last(), prefix);
        assert(quoted(ls, prefix).drop_last() =~= quoted(ls.drop_last(), prefix));
    } else {
        assert(run_on(quoted(ls, prefix)) =~= Seq::empty());
    }
}

proof fn lemma_section(tool: ToolCard)
    ensures
        starts_with(tool_text(tool), section_head(tool)),
        tool_text(tool).len() > section_head(tool).len(),
{
    reveal_strlit("### ⚙ ");
    reveal_strlit(" · ");
    reveal_strlit("\n\n");
    lemma_words(tool.state, TimelineTurnState::Running);
    assert("### ⚙ "@ =~= seq!['#', '#', '#', ' ', '⚙', ' ']);
    assert(" · "@ =~= seq![' ', '·', ' ']);
    let h = section_head(tool);
    assert(tool_text(tool).take(h.len() as int) =~= h);
}

/// A block stands in the document as what it is.
pub proof fn law_block_is_exported(block: Block)
    ensures
        holds(block_text(block), block),
{
    reveal_strlit("\n\n");
    reveal_strlit("\n");
    reveal_strlit("> · ");
    assert("\n\n"@ =~= seq!['\n', '\n']);
    assert("\n"@ =~= seq!['\n']);
    assert("> · "@ =~= seq!['>', ' ', '·', ' ']);
    match block.kind {
        TimelineBlockKind::Notice => {
            lemma_quoted(lines(block.text@), seq!['>', ' ', '·', ' ']);
        },
        TimelineBlockKind::Tool => {
            if let Some(t) = block.tool {
                lemma_section(t);
            }
        },
        _ => {},
    }
}

proof fn lemma_blocks(blocks: Seq<Block>) -> (parts: Seq<Seq<char>>)
    ensures
        all_hold(parts, blocks),
        run_on(parts) == blocks_text(blocks),
    decreases blocks.len(),
{
    if blocks.len() == 0 {
        Seq::empty()
    } else {
        let before = lemma_blocks(blocks.drop_last());
        law_block_is_exported(blocks.last());
        let parts = before.push(block_text(blocks.last()));
        lemma_run_on_push(before, block_text(blocks.last()));
        assert forall|k: int| 0 <= k < blocks.len() implies holds(#[trigger] parts[k], blocks[k]) by {
            if k < blocks.len() - 1 {
                assert(parts[k] == before[k]);
                assert(blocks.drop_last()[k] == blocks[k]);
            }
        }
        parts
    }
}

proof fn lemma_rounds(rounds: Seq<Round>) -> (parts: Seq<Seq<char>>)
    ensures
        all_hold(parts, all_blocks(rounds)),
        run_on(parts) == rounds_text(rounds),
    decreases rounds.len(),
{
    if rounds.len() == 0 {
        Seq::empty()
    } else {
        let a = lemma_rounds(rounds.drop_last());
        let b = lemma_blocks(rounds.last().blocks@);
        lemma_run_on_add(a, b);
        let all = all_blocks(rounds);
        let first = all_blocks(rounds.drop_last());
        let parts = a + b;
        assert forall|k: int| 0 <= k < all.len() implies holds(#[trigger] parts[k], all[k]) by {
            if k < first.len() {
                assert(parts[k] == a[k]);
                assert(all[k] == first[k]);
            } else {
                assert(parts[k] == b[k - first.len()]);
                assert(all[k] == rounds.last().blocks@[k - first.len()]);
            }
        }
        parts
    }
}

/// What stands in a document before the blocks of a turn: its title, and then
/// what the user said, line by line behind a mark.
pub open spec fn opens_turn(head: Seq<char>, turn: Turn, n: nat) -> bool {
    &&& starts_with(
        head,
        seq!['#', '#', ' ', 'T', 'u', 'r', 'n', ' '] + dec(n) + seq![' ', '·', ' '] + turn_word(
            turn.state,
        ),
    )
    &&& exists|pre: Seq<char>| #[trigger] quotes_user(head, pre, turn.user_text@)
    &&& turn.failure matches Some(f) ==> occurs(head, f.code@) && occurs(head, f.message@)
}

/// `head` is `pre` and what the user said.
pub open spec fn quotes_user(head: Seq<char>, pre: Seq<char>, text: Seq<char>) -> bool {
    if blank(text) {
        head == pre + seq!['>', ' ', '（', '空', '）', '\n', '\n']
    } else {
        head == pre + (run_on(quoted(lines(text), seq!['>', ' '])) + seq!['\n'])
    }
}

/// `text` is a head that opens the turn and then holds its blocks.
pub open spec fn turn_exported(text: Seq<char>, turn: Turn, n: nat) -> bool {
    exists|head: Seq<char>, parts: Seq<Seq<char>>|
        #[trigger] exported(text, head, parts, all_blocks(turn.rounds@)) && opens_turn(head, turn, n)
}

proof fn lemma_occurs_mid(a: Seq<char>, p: Seq<char>, b: Seq<char>)
    ensures
        occurs(a + p + b, p),
{
    assert((a + p + b).subrange(a.len() as int, (a.len() + p.len()) as int) =~= p);
    assert(occurs_at(a + p + b, p, a.len() as int));
}

/// A turn is exported whole: its title, what the user said, and then every block
/// of every round, in order.
#[verifier::spinoff_prover]
#[verifier::rlimit(50)]
pub proof fn law_turn_is_exported_whole(turn: Turn, n: nat)
    ensures
        turn_exported(turn_text(turn, n), turn, n),
{
    reveal_strlit("---\n\n");
    reveal_strlit("> （空）\n\n");
    reveal_strlit("> ");
    reveal_strlit("\n");
    reveal_strlit("## Turn ");
    reveal_strlit(" · ");
    assert("---\n\n"@ =~= seq!['-', '-', '-', '\n', '\n']);
    assert("> （空）\n\n"@ =~= seq!['>', ' ', '（', '空', '）', '\n', '\n']);
    assert("> "@ =~= seq!['>', ' ']);
    assert("\n"@ =~= seq!['\n']);
    assert("## Turn "@ =~= seq!['#', '#', ' ', 'T', 'u', 'r', 'n', ' ']);
    assert(" · "@ =~= seq![' ', '·', ' ']);
    lemma_words(TimelineToolState::Failed, turn.state);
    let parts = lemma_rounds(turn.rounds@);
    let title = crate::export::turn_title(turn, n);
    let mark = if turn.offloaded {
        "> ⚠ 本回合已 offload——正文仅剩预览壳，完整内容存于 daemon。\n\n"@
    } else {
        Seq::empty()
    };
    let fail = crate::export::failure_note(turn.failure);
    let who = "**❯ 用户**\n\n"@;
    let quote = crate::export::user_quote(turn.user_text@);
    let pre = title + mark + fail + who;
    let head = pre + quote;
    lemma_quoted(lines(turn.user_text@), seq!['>', ' ']);
    assert(quotes_user(head, pre, turn.user_text@));
    let start = seq!['#', '#', ' ', 'T', 'u', 'r', 'n', ' '] + dec(n) + seq![' ', '·', ' '] + turn_word(
        turn.state,
    );
    assert(title.take(start.len() as int) =~= start);
    assert(head.take(start.len() as int) =~= title.take(start.len() as int));
    if let Some(f) = turn.failure {
        let a = "> ✗ 失败（"@;
        let b = "）："@;
        let c = "\n\n"@;
        let x = title + mark + a;
        let y = b + f.message@ + c + who + quote;
        assert(head =~= x + f.code@ + y);
        lemma_occurs_mid(x, f.code@, y);
        let z = x + f.code@ + b;
        let u = c + who + quote;
        assert(head =~= z + f.message@ + u);
        lemma_occurs_mid(z, f.message@, u);
    }
    assert(opens_turn(head, turn, n));
    assert(turn_text(turn, n) =~= head + run_on(parts) + seq!['-', '-', '-', '\n', '\n']);
    assert(exported(turn_text(turn, n), head, parts, all_blocks(turn.rounds@)));
}

/// Whether a block is a tool call, or one that failed.
pub open spec fn is_call(b: Block, failed: bool) -> bool {
    b.kind == TimelineBlockKind::Tool && b.tool is Some && (failed ==> b.tool->0.state is Failed)
}

/// How many of the blocks are tool calls, or failed ones.
pub open spec fn call_count(blocks: Seq<Block>, failed: bool) -> nat
    decreases blocks.len(),
{
    if blocks.len() == 0 {
        0
    } else {
        call_count(blocks.drop_last(), failed) + if is_call(blocks.last(), failed) {
            1nat
        } else {
            0
        }
    }
}

proof fn lemma_count_add(a: Seq<Block>, b: Seq<Block>, failed: bool)
    ensures
        call_count(a + b, failed) == call_count(a, failed) + call_count(b, failed),
    decreases b.len(),
{
    if b.len() == 0 {
        assert(a + b =~= a);
    } else {
        assert((a + b).drop_last() =~= a + b.drop_last());
        lemma_count_add(a, b.drop_last(), failed);
    }
}

proof fn lemma_calls(blocks: Seq<Block>, failed: bool)
    ensures
        calls(blocks, failed) == call_count(blocks, failed),
    decreases blocks.len(),
{
    if blocks.len() > 0 {
        lemma_calls(blocks.drop_last(), failed);
    }
}

proof fn lemma_turn_calls(rounds: Seq<Round>, failed: bool)
    ensures
        turn_calls(rounds, failed) == call_count(all_blocks(rounds), failed),
    decreases rounds.len(),
{
    if rounds.len() > 0 {
        lemma_turn_calls(rounds.drop_last(), failed);
        lemma_calls(rounds.last().blocks@, failed);
        lemma_count_add(all_blocks(rounds.drop_last()), rounds.last().blocks@, failed);
    }
}

/// The title of a turn counts the calls in all its rounds, and those that failed;
/// of a turn without any it says nothing.
pub proof fn law_title_counts_the_calls(turn: Turn, n: nat)
    requires
        call_count(all_blocks(turn.rounds@), false) <= u64::MAX,
    ensures
        ({
            let title = crate::export::turn_title(turn, n);
            let total = call_count(all_blocks(turn.rounds@), false);
            let failed = call_count(all_blocks(turn.rounds@), true);
            &&& starts_with(turn_text(turn, n), title)
            &&& total > 0 ==> occurs(title, dec(total) + seq![' ', '工', '具'])
            &&& failed > 0 ==> occurs(title, seq!['（'] + dec(failed) + seq!['✗', '）'])
            &&& total == 0 && turn.thinking.segments == 0 ==> title == seq![
                '#',
                '#',
                ' ',
                'T',
                'u',
                'r',
                'n',
                ' ',
            ] + dec(n) + seq![' ', '·', ' '] + turn_word(turn.state) + seq!['\n', '\n']
        }),
{
    let title = crate::export::turn_title(turn, n);
    let total = call_count(all_blocks(turn.rounds@), false);
    let failed = call_count(all_blocks(turn.rounds@), true);
    lemma_turn_calls(turn.rounds@, false);
    lemma_turn_calls(turn.rounds@, true);
    lemma_fewer(all_blocks(turn.rounds@));
    lemma_words(TimelineToolState::Failed, turn.state);
    reveal_strlit("## Turn ");
    reveal_strlit(" · ");
    reveal_strlit("\n\n");
    reveal_strlit(" 工具");
    reveal_strlit("（");
    reveal_strlit("✗）");
    assert("## Turn "@ =~= seq!['#', '#', ' ', 'T', 'u', 'r', 'n', ' ']);
    assert(" · "@ =~= seq![' ', '·', ' ']);
    assert("\n\n"@ =~= seq!['\n', '\n']);
    assert(" 工具"@ =~= seq![' ', '工', '具']);
    assert("（"@ =~= seq!['（']);
    assert("✗）"@ =~= seq!['✗', '）']);
    assert(turn_text(turn, n).take(title.len() as int) =~= title);
    let a = "## Turn "@ + dec(n) + " · "@ + turn_label(turn.state) + crate::export::thinking_note(turn);
    if total > 0 {
        let p = dec(total) + seq![' ', '工', '具'];
        let bad = if failed > 0 {
            "（"@ + dec(failed) + "✗）"@
        } else {
            Seq::empty()
        };
        assert(title =~= (a + " · "@) + p + (bad + "\n\n"@));
        lemma_occurs_mid(a + " · "@, p, bad + "\n\n"@);
        if failed > 0 {
            assert(title =~= (a + " · "@ + p) + bad + "\n\n"@);
            lemma_occurs_mid(a + " · "@ + p, bad, "\n\n"@);
            assert(bad =~= seq!['（'] + dec(failed) + seq!['✗', '）']);
        }
    } else if turn.thinking.segments == 0 {
        assert(title =~= seq!['#', '#', ' ', 'T', 'u', 'r', 'n', ' '] + dec(n) + seq![' ', '·', ' ']
            + turn_word(turn.state) + seq!['\n', '\n']);
    }
}

proof fn lemma_fewer(blocks: Seq<Block>)
    ensures
        call_count(blocks, true) <= call_count(blocks, false),
    decreases blocks.len(),
{
    if blocks.len() > 0 {
        lemma_fewer(blocks.drop_last());
    }
}

/// The turns of a document.
pub open spec fn turn_texts(turns: Seq<Turn>) -> Seq<Seq<char>> {
    Seq::new(turns.len(), |i: int| turn_text(turns[i], (i + 1) as nat))
}

proof fn lemma_turns(turns: Seq<Turn>)
    ensures
        turns_text(turns) == run_on(turn_texts(turns)),
    decreases turns.len(),
{
    if turns.len() > 0 {
        lemma_turns(turns.drop_last());
        assert(turn_texts(turns).drop_last() =~= turn_texts(turns.drop_last()));
    } else {
        assert(run_on(turn_texts(turns)) =~= Seq::empty());
    }
}

/// A document names the session, how many turns it has and when it was made, and
/// then holds every turn, in order and numbered from one; it warns where turns
/// are missing, and only there.
pub proof fn law_session_is_exported_whole(seed: Seq<char>, timeline: TimelineView, stamp: Seq<char>)
    ensures
        ({
            let text = session_text(seed, timeline, stamp);
            let n = timeline.turns.len();
            exists|head: Seq<char>|
                {
                    &&& #[trigger] document(text, head, timeline.turns)
                    &&& occurs(head, seq!['`'] + seed + seq!['`'])
                    &&& occurs(head, dec(n))
                    &&& occurs(head, stamp + seq!['\n'])
                    &&& timeline.has_more || timeline.truncated_before ==> head.contains('⚠')
                }
        }),
{
    let text = session_text(seed, timeline, stamp);
    let n = timeline.turns.len();
    lemma_turns(timeline.turns);
    reveal_strlit("- 会话：`");
    reveal_strlit("`\n");
    reveal_strlit("\n");
    reveal_strlit("- ⚠ 更早回合已折叠（不在本文件内）\n");
    reveal_strlit("- ⚠ 更早回合未包含（仅存于 daemon 归档）\n");
    let a = "# qaqh 会话导出\n\n"@;
    let b = "- 回合数："@;
    let c = "（当前窗口内）\n"@;
    let d = "- 导出时间："@;
    let warn = if timeline.has_more {
        "- ⚠ 更早回合已折叠（不在本文件内）\n"@
    } else if timeline.truncated_before {
        "- ⚠ 更早回合未包含（仅存于 daemon 归档）\n"@
    } else {
        Seq::empty()
    };
    let head = a + "- 会话：`"@ + seed + "`\n"@ + b + dec(n) + c + d + stamp + "\n"@ + warn + "\n"@;
    assert(text =~= head + turns_text(timeline.turns));
    assert(document(text, head, timeline.turns));
    let s1 = a + seq!['-', ' ', '会', '话', '：'];
    let p1 = seq!['`'] + seed + seq!['`'];
    let e1 = seq!['\n'] + b + dec(n) + c + d + stamp + "\n"@ + warn + "\n"@;
    assert(head =~= s1 + p1 + e1);
    lemma_occurs_mid(s1, p1, e1);
    let s2 = a + "- 会话：`"@ + seed + "`\n"@ + b;
    let e2 = c + d + stamp + "\n"@ + warn + "\n"@;
    assert(head =~= s2 + dec(n) + e2);
    lemma_occurs_mid(s2, dec(n), e2);
    let s3 = s2 + dec(n) + c + d;
    let p3 = stamp + seq!['\n'];
    let e3 = warn + "\n"@;
    assert(head =~= s3 + p3 + e3);
    lemma_occurs_mid(s3, p3, e3);
    if timeline.has_more || timeline.truncated_before {
        let at = (s3.len() + p3.len()) as int;
        assert(head[at + 2] == warn[2]);
    }
}

/// `text` is a head and then the turns.
pub open spec fn document(text: Seq<char>, head: Seq<char>, turns: Seq<Turn>) -> bool {
    text == head + run_on(turn_texts(turns))
}

/// The section of a tool call says why it failed.
pub proof fn law_section_gives_the_failure(tool: ToolCard)
    requires
        tool.failure is Some,
    ensures
        occurs(tool_text(tool), tool.failure->0.code@),
        occurs(tool_text(tool), tool.failure->0.message@),
{
    let f = tool.failure->0;
    let a = "### ⚙ "@ + tool.name@ + " · "@ + tool_label(tool.state) + crate::export::metrics_note(
        tool.display,
    ) + "\n\n"@ + header_note(tool.display) + detail_note(tool) + "\n"@ + body_note(tool);
    let x = a + "> ✗ 失败（"@;
    let y = "）："@ + f.message@ + "\n\n"@;
    assert(tool_text(tool) =~= x + f.code@ + y);
    lemma_occurs_mid(x, f.code@, y);
    let z = x + f.code@ + "）："@;
    assert(tool_text(tool) =~= z + f.message@ + "\n\n"@);
    lemma_occurs_mid(z, f.message@, "\n\n"@);
}

/// What a tool call gave back, without white space behind it: the projected body,
/// or else its diff, or else its output.
pub open spec fn given_back(tool: ToolCard, text: Seq<char>) -> bool {
    let body = match tool.display {
        Some(d) => d.body,
        None => None,
    };
    match body {
        Some(TimelineToolBody::Shell { output, .. }) => text == output@,
        Some(TimelineToolBody::Streams { stdout, stderr, .. }) => text == stdout@ || text == stderr@,
        Some(TimelineToolBody::Diff { unified, .. }) => text == unified@,
        Some(TimelineToolBody::Text { text: t, .. }) => text == t@,
        Some(_) => false,
        None => {
            ||| tool.diff matches Some(d) && text == d@
            ||| (tool.diff is None || blank(tool.diff->0@)) && (tool.output matches Some(o) && text
                == o@)
        },
    }
}

proof fn lemma_trim_end_blank(s: Seq<char>)
    ensures
        trim_end(s).len() == 0 ==> blank(s),
    decreases s.len(),
{
    if s.len() > 0 && crate::text::white_space(s.last()) {
        lemma_trim_end_blank(s.drop_last());
        if trim_end(s).len() == 0 {
            assert forall|i: int| 0 <= i < s.len() implies crate::text::white_space(
                #[trigger] s[i],
            ) by {
                if i < s.len() - 1 {
                    assert(s.drop_last()[i] == s[i]);
                }
            }
        }
    }
}

proof fn lemma_fenced(lang: Seq<char>, text: Seq<char>)
    requires
        !blank(text),
    ensures
        occurs(fenced(lang, text), trim_end(text)),
{
    lemma_trim_end_blank(text);
    lemma_occurs_mid("```"@ + lang + "\n"@, trim_end(text), "\n```\n\n"@);
}

proof fn lemma_occurs_within(a: Seq<char>, s: Seq<char>, b: Seq<char>, p: Seq<char>)
    requires
        occurs(s, p),
    ensures
        occurs(a + s + b, p),
{
    let i = choose|i: int| occurs_at(s, p, i);
    let t = a + s + b;
    let at = a.len() + i;
    assert(t.subrange(at, at + p.len()) =~= s.subrange(i, i + p.len()));
    assert(occurs_at(t, p, at));
}

/// The section of a tool call holds what it gave back.
#[verifier::spinoff_prover]
#[verifier::rlimit(50)]
pub proof fn law_section_holds_the_result(tool: ToolCard, text: Seq<char>)
    requires
        given_back(tool, text),
        !blank(text),
    ensures
        occurs(tool_text(tool), trim_end(text)),
{
    let b = body_note(tool);
    let body = match tool.display {
        Some(d) => d.body,
        None => None,
    };
    let none = Seq::<char>::empty();
    match body {
        Some(TimelineToolBody::Streams { stdout, stderr, .. }) => {
            let o = crate::export::stream_note("stdout:\n"@, stdout@);
            let e = crate::export::stream_note("stderr:\n"@, stderr@);
            lemma_fenced(none, text);
            if text == stdout@ {
                lemma_occurs_within("stdout:\n"@, fenced(none, text), e, trim_end(text));
                assert(b =~= "stdout:\n"@ + fenced(none, text) + e);
            } else {
                let x = o + "stderr:\n"@;
                lemma_occurs_within(x, fenced(none, text), none, trim_end(text));
                assert(b =~= x + fenced(none, text) + none);
            }
        },
        Some(TimelineToolBody::Shell { .. }) => {
            lemma_fenced("sh"@, text);
        },
        Some(TimelineToolBody::Diff { .. }) => {
            lemma_fenced("diff"@, text);
        },
        Some(TimelineToolBody::Text { .. }) => {
            lemma_fenced(none, text);
        },
        _ => {
            lemma_fenced("diff"@, text);
            lemma_fenced(none, text);
        },
    }
    assert(occurs(b, trim_end(text)));
    let a = "### ⚙ "@ + tool.name@ + " · "@ + tool_label(tool.state) + crate::export::metrics_note(
        tool.display,
    ) + "\n\n"@ + header_note(tool.display) + detail_note(tool) + "\n"@;
    lemma_occurs_within(a, b, crate::export::failure_note(tool.failure), trim_end(text));
}

/// The section of a tool call says what it was about: the path, the command or
/// the query, and its arguments.
pub proof fn law_section_tells_the_subject(tool: ToolCard)
    ensures
        ({
            let t = tool_text(tool);
            let h = match tool.display {
                Some(d) => d.header,
                None => None,
            };
            &&& (h matches Some(TimelineToolHeader::Path { path, .. }) ==> occurs(t, path@))
            &&& (h matches Some(TimelineToolHeader::Shell { command }) ==> occurs(t, command@))
            &&& (h matches Some(TimelineToolHeader::Query { query, .. }) ==> occurs(t, query@))
            &&& (tool.args_json matches Some(a) ==> (a@.len() > 0 && a@ != seq!['{', '}'] ==> occurs(
                t,
                a@,
            )))
        }),
{
    reveal_strlit("{}");
    assert("{}"@ =~= seq!['{', '}']);
    let t = tool_text(tool);
    let head = "### ⚙ "@ + tool.name@ + " · "@ + tool_label(tool.state)
        + crate::export::metrics_note(tool.display) + "\n\n"@;
    let hn = header_note(tool.display);
    let dn = detail_note(tool);
    let after = "\n"@ + body_note(tool) + crate::export::failure_note(tool.failure);
    let h = match tool.display {
        Some(d) => d.header,
        None => None,
    };
    assert(t =~= head + hn + (dn + after));
    match h {
        Some(TimelineToolHeader::Path { path, .. }) => {
            lemma_occurs_mid("- 路径：`"@, path@, "`\n"@);
            lemma_occurs_within(head, hn, dn + after, path@);
        },
        Some(TimelineToolHeader::Shell { command }) => {
            lemma_occurs_mid("- 命令：`"@, command@, "`\n"@);
            lemma_occurs_within(head, hn, dn + after, command@);
        },
        Some(TimelineToolHeader::Query { query, scope }) => {
            let e = match scope {
                Some(s) => "`（"@ + s@ + "）\n"@,
                None => "`\n"@,
            };
            lemma_occurs_mid("- 查询：`"@, query@, e);
            assert(hn =~= "- 查询：`"@ + query@ + e);
            lemma_occurs_within(head, hn, dn + after, query@);
        },
        _ => {},
    }
    if let Some(a) = tool.args_json {
        if a@.len() > 0 && a@ != "{}"@ {
            let s = match crate::export::best_summary(tool) {
                Some(s) => "- 摘要："@ + one_line(s) + "\n"@,
                None => Seq::empty(),
            };
            let x = s + "- 参数：`"@;
            assert(dn =~= x + a@ + "`\n"@);
            lemma_occurs_mid(x, a@, "`\n"@);
            assert(t =~= (head + hn) + dn + after);
            lemma_occurs_within(head + hn, dn, after, a@);
        }
    }
}

} // verus!
