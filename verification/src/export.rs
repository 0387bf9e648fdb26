//! A session as a Markdown document.

use crate::decimal::{human_bytes, human_size, milli_tenths, milli_text, one_decimal};
use crate::session::SessionState;
use crate::text::{
    blank, cat3, dec, dec_u64, dec_usize, first_chars, is_blank, lines, lines_of, one_line,
    str_eq, take_chars, texts, to_one_line, trim_end, trimmed_end,
};
use crate::timeline::{
    TimelineView, Block, Round, TimelineBlockKind, TimelineFailure, TimelineToolBody,
    TimelineToolDisplay, TimelineToolHeader, TimelineToolState, TimelineTurnState, ToolCard,
    Turn,
};
use vstd::prelude::*;

verus! {

/// A state of a turn in words.
pub open spec fn turn_label(s: TimelineTurnState) -> Seq<char> {
    match s {
        TimelineTurnState::Running => "进行中"@,
        TimelineTurnState::Completed => "已完成"@,
        TimelineTurnState::Failed => "失败"@,
        TimelineTurnState::Cancelled => "已取消"@,
    }
}

fn turn_state_label(s: TimelineTurnState) -> (r: &'static str)
    ensures
        r@ == turn_label(s),
{
    match s {
        TimelineTurnState::Running => "进行中",
        TimelineTurnState::Completed => "已完成",
        TimelineTurnState::Failed => "失败",
        TimelineTurnState::Cancelled => "已取消",
    }
}

/// A state of a tool call in words.
pub open spec fn tool_label(s: TimelineToolState) -> Seq<char> {
    match s {
        TimelineToolState::Prepared => "已准备"@,
        TimelineToolState::Running => "运行中"@,
        TimelineToolState::Succeeded => "已完成"@,
        TimelineToolState::Failed => "失败"@,
        TimelineToolState::Cancelled => "已取消"@,
        TimelineToolState::Backgrounded => "后台运行"@,
    }
}

fn tool_state_label(s: TimelineToolState) -> (r: &'static str)
    ensures
        r@ == tool_label(s),
{
    match s {
        TimelineToolState::Prepared => "已准备",
        TimelineToolState::Running => "运行中",
        TimelineToolState::Succeeded => "已完成",
        TimelineToolState::Failed => "失败",
        TimelineToolState::Cancelled => "已取消",
        TimelineToolState::Backgrounded => "后台运行",
    }
}

/// A fenced block; nothing where the text is blank.
pub open spec fn fenced(lang: Seq<char>, text: Seq<char>) -> Seq<char> {
    let t = trim_end(text);
    if t.len() == 0 {
        Seq::empty()
    } else {
        "```"@ + lang + "\n"@ + t + "\n```\n\n"@
    }
}

fn push_fenced(out: &mut String, lang: &str, text: &str)
    ensures
        final(out)@ == old(out)@ + fenced(lang@, text@),
{
    let t = trimmed_end(text);
    let ghost start = out@;
    if t.as_str().is_empty() {
        assert(start + Seq::<char>::empty() =~= start);
        return;
    }
    out.push_str("```");
    out.push_str(lang);
    out.push_str("\n");
    out.push_str(t.as_str());
    out.push_str("\n```\n\n");
    assert(out@ =~= start + fenced(lang@, text@));
}

/// Each line behind a prefix.
pub open spec fn prefixed_text(ls: Seq<Seq<char>>, prefix: Seq<char>) -> Seq<char>
    decreases ls.len(),
{
    if ls.len() == 0 {
        Seq::empty()
    } else {
        prefixed_text(ls.drop_last(), prefix) + (prefix + ls.last() + "\n"@)
    }
}

fn push_prefixed(out: &mut String, text: &str, prefix: &str)
    ensures
        final(out)@ == old(out)@ + prefixed_text(lines(text@), prefix@),
{
    let ls = lines_of(text);
    let ghost all = texts(ls@);
    let ghost start = out@;
    let mut i: usize = 0;
    assert(all.take(0) =~= Seq::empty());
    assert(start + Seq::<char>::empty() =~= start);
    while i < ls.len()
        invariant
            i <= ls@.len(),
            all == texts(ls@),
            out@ == start + prefixed_text(all.take(i as int), prefix@),
        decreases ls@.len() - i,
    {
        proof {
            assert(all.take(i + 1).drop_last() =~= all.take(i as int));
            assert(all.take(i + 1).last() == ls@[i as int]@);
        }
        out.push_str(prefix);
        out.push_str(ls[i].as_str());
        out.push_str("\n");
        i += 1;
        assert(out@ =~= start + prefixed_text(all.take(i as int), prefix@));
    }
    assert(all.take(i as int) =~= all);
}

/// Why something failed.
pub open spec fn failure_note(failure: Option<TimelineFailure>) -> Seq<char> {
    match failure {
        Some(f) => "> ✗ 失败（"@ + f.code@ + "）："@ + f.message@ + "\n\n"@,
        None => Seq::empty(),
    }
}

fn push_failure(out: &mut String, failure: &Option<TimelineFailure>)
    ensures
        final(out)@ == old(out)@ + failure_note(*failure),
{
    let ghost start = out@;
    match failure {
        Some(f) => {
            out.push_str("> ✗ 失败（");
            out.push_str(f.code.as_str());
            out.push_str("）：");
            out.push_str(f.message.as_str());
            out.push_str("\n\n");
        },
        None => {},
    }
    assert(out@ =~= start + failure_note(*failure));
}

/// How long a tool ran and how much it wrote.
pub open spec fn metrics_note(display: Option<TimelineToolDisplay>) -> Seq<char> {
    match display {
        Some(d) => match d.metrics {
            Some(m) => (if m.elapsed_ms > 0 {
                " · "@ + one_decimal(milli_tenths(m.elapsed_ms as nat)) + "s"@
            } else {
                Seq::empty()
            }) + (if m.output_bytes > 0 {
                " · "@ + human_size(m.output_bytes as nat)
            } else {
                Seq::empty()
            }),
            None => Seq::empty(),
        },
        None => Seq::empty(),
    }
}

fn push_metrics(out: &mut String, display: &Option<TimelineToolDisplay>)
    ensures
        final(out)@ == old(out)@ + metrics_note(*display),
{
    let ghost start = out@;
    match display {
        Some(d) => match &d.metrics {
            Some(m) => {
                if m.elapsed_ms > 0 {
                    let t = milli_text(m.elapsed_ms);
                    out.push_str(" · ");
                    out.push_str(t.as_str());
                    out.push_str("s");
                }
                if m.output_bytes > 0 {
                    let t = human_bytes(m.output_bytes);
                    out.push_str(" · ");
                    out.push_str(t.as_str());
                }
            },
            None => {},
        },
        None => {},
    }
    assert(out@ =~= start + metrics_note(*display));
}

/// What a tool call was about.
pub open spec fn header_note(display: Option<TimelineToolDisplay>) -> Seq<char> {
    match display {
        Some(d) => match d.header {
            Some(TimelineToolHeader::Path { path, .. }) => "- 路径：`"@ + path@ + "`\n"@,
            Some(TimelineToolHeader::Shell { command }) => "- 命令：`"@ + command@ + "`\n"@,
            Some(TimelineToolHeader::Query { query, scope }) => "- 查询：`"@ + query@ + match scope {
                Some(s) => "`（"@ + s@ + "）\n"@,
                None => "`\n"@,
            },
            Some(TimelineToolHeader::Other { label }) => "- "@ + label@ + "\n"@,
            _ => Seq::empty(),
        },
        None => Seq::empty(),
    }
}

fn push_header(out: &mut String, display: &Option<TimelineToolDisplay>)
    ensures
        final(out)@ == old(out)@ + header_note(*display),
{
    let ghost start = out@;
    match display {
        Some(d) => match &d.header {
            Some(TimelineToolHeader::Path { path, .. }) => {
                out.push_str("- 路径：`");
                out.push_str(path.as_str());
                out.push_str("`\n");
            },
            Some(TimelineToolHeader::Shell { command }) => {
                out.push_str("- 命令：`");
                out.push_str(command.as_str());
                out.push_str("`\n");
            },
            Some(TimelineToolHeader::Query { query, scope }) => {
                out.push_str("- 查询：`");
                out.push_str(query.as_str());
                match scope {
                    Some(s) => {
                        out.push_str("`（");
                        out.push_str(s.as_str());
                        out.push_str("）\n");
                    },
                    None => {
                        out.push_str("`\n");
                    },
                }
            },
            Some(TimelineToolHeader::Other { label }) => {
                out.push_str("- ");
                out.push_str(label.as_str());
                out.push_str("\n");
            },
            _ => {},
        },
        None => {},
    }
    assert(out@ =~= start + header_note(*display));
}

/// The first summary that says something: the projected one, or the tool's own.
pub open spec fn best_summary(tool: ToolCard) -> Option<Seq<char>> {
    match tool.display {
        Some(d) if d.summary matches Some(s) && s@.len() > 0 => Some(d.summary->0@),
        _ => match tool.summary {
            Some(s) if s@.len() > 0 => Some(s@),
            _ => None,
        },
    }
}

/// The summary and the arguments of a tool call.
pub open spec fn detail_note(tool: ToolCard) -> Seq<char> {
    (match best_summary(tool) {
        Some(s) => "- 摘要："@ + one_line(s) + "\n"@,
        None => Seq::empty(),
    }) + (match tool.args_json {
        Some(a) if a@.len() > 0 && a@ != "{}"@ => "- 参数：`"@ + a@ + "`\n"@,
        _ => Seq::empty(),
    })
}

fn push_summary(out: &mut String, s: &str)
    ensures
        final(out)@ == old(out)@ + ("- 摘要："@ + one_line(s@) + "\n"@),
{
    let ghost start = out@;
    let t = to_one_line(s);
    out.push_str("- 摘要：");
    out.push_str(t.as_str());
    out.push_str("\n");
    assert(out@ =~= start + ("- 摘要："@ + one_line(s@) + "\n"@));
}

fn push_details(out: &mut String, tool: &ToolCard)
    ensures
        final(out)@ == old(out)@ + detail_note(*tool),
{
    let ghost start = out@;
    let mut said: bool = false;
    match &tool.display {
        Some(d) => match &d.summary {
            Some(s) => {
                if !s.as_str().is_empty() {
                    push_summary(out, s.as_str());
                    said = true;
                }
            },
            None => {},
        },
        None => {},
    }
    if !said {
        match &tool.summary {
            Some(s) => {
                if !s.as_str().is_empty() {
                    push_summary(out, s.as_str());
                }
            },
            None => {},
        }
    }
    match &tool.args_json {
        Some(a) => {
            if !a.as_str().is_empty() && !str_eq(a.as_str(), "{}") {
                out.push_str("- 参数：`");
                out.push_str(a.as_str());
                out.push_str("`\n");
            }
        },
        None => {},
    }
    assert(out@ =~= start + detail_note(*tool));
}

/// A named stream, where it is not blank.
pub open spec fn stream_note(title: Seq<char>, text: Seq<char>) -> Seq<char> {
    if blank(text) {
        Seq::empty()
    } else {
        title + fenced(Seq::empty(), text)
    }
}

/// What a tool gave back: the projected body, or else the diff or the output.
pub open spec fn body_note(tool: ToolCard) -> Seq<char> {
    let body = match tool.display {
        Some(d) => d.body,
        None => None,
    };
    match body {
        Some(TimelineToolBody::Shell { output, .. }) => fenced("sh"@, output@),
        Some(TimelineToolBody::Streams { stdout, stderr, .. }) => stream_note(
            "stdout:\n"@,
            stdout@,
        ) + stream_note("stderr:\n"@, stderr@),
        Some(TimelineToolBody::Diff { unified, .. }) => fenced("diff"@, unified@),
        Some(TimelineToolBody::Text { text, .. }) => fenced(Seq::empty(), text@),
        Some(TimelineToolBody::Subagent { name }) => "（subagent："@ + name@ + "）\n\n"@,
        Some(_) => Seq::empty(),
        None => match tool.diff {
            Some(d) if !blank(d@) => fenced("diff"@, d@),
            _ => match tool.output {
                Some(o) if !blank(o@) => fenced(Seq::empty(), o@),
                _ => Seq::empty(),
            },
        },
    }
}

fn push_stream(out: &mut String, title: &str, text: &str)
    ensures
        final(out)@ == old(out)@ + stream_note(title@, text@),
{
    let ghost start = out@;
    if !is_blank(text) {
        out.push_str(title);
        push_fenced(out, "", text);
    }
    proof {
        reveal_strlit("");
        assert(""@ =~= Seq::<char>::empty());
    }
    assert(out@ =~= start + stream_note(title@, text@));
}

fn push_body(out: &mut String, tool: &ToolCard)
    ensures
        final(out)@ == old(out)@ + body_note(*tool),
{
    let ghost start = out@;
    proof {
        reveal_strlit("");
        assert(""@ =~= Seq::<char>::empty());
    }
    let body = match &tool.display {
        Some(d) => d.body.as_ref(),
        None => None,
    };
    match body {
        Some(TimelineToolBody::Shell { output, .. }) => push_fenced(out, "sh", output.as_str()),
        Some(TimelineToolBody::Streams { stdout, stderr, .. }) => {
            push_stream(out, "stdout:\n", stdout.as_str());
            push_stream(out, "stderr:\n", stderr.as_str());
        },
        Some(TimelineToolBody::Diff { unified, .. }) => push_fenced(out, "diff", unified.as_str()),
        Some(TimelineToolBody::Text { text, .. }) => push_fenced(out, "", text.as_str()),
        Some(TimelineToolBody::Subagent { name }) => {
            out.push_str("（subagent：");
            out.push_str(name.as_str());
            out.push_str("）\n\n");
        },
        Some(_) => {},
        None => {
            let mut said: bool = false;
            match &tool.diff {
                Some(d) => {
                    if !is_blank(d.as_str()) {
                        push_fenced(out, "diff", d.as_str());
                        said = true;
                    }
                },
                None => {},
            }
            if !said {
                match &tool.output {
                    Some(o) => {
                        if !is_blank(o.as_str()) {
                            push_fenced(out, "", o.as_str());
                        }
                    },
                    None => {},
                }
            }
        },
    }
    assert(out@ =~= start + body_note(*tool));
}

/// A tool call.
pub open spec fn tool_text(tool: ToolCard) -> Seq<char> {
    "### ⚙ "@ + tool.name@ + " · "@ + tool_label(tool.state) + metrics_note(tool.display) + "\n\n"@
        + header_note(tool.display) + detail_note(tool) + "\n"@ + body_note(tool) + failure_note(
        tool.failure,
    )
}

fn export_tool(out: &mut String, tool: &ToolCard)
    ensures
        final(out)@ == old(out)@ + tool_text(*tool),
{
    let ghost start = out@;
    out.push_str("### ⚙ ");
    out.push_str(tool.name.as_str());
    out.push_str(" · ");
    out.push_str(tool_state_label(tool.state));
    push_metrics(out, &tool.display);
    out.push_str("\n\n");
    push_header(out, &tool.display);
    push_details(out, tool);
    out.push_str("\n");
    push_body(out, tool);
    push_failure(out, &tool.failure);
    assert(out@ =~= start + tool_text(*tool));
}

/// A block.
pub open spec fn block_text(block: Block) -> Seq<char> {
    match block.kind {
        TimelineBlockKind::Text => if blank(block.text@) {
            Seq::empty()
        } else {
            block.text@ + "\n\n"@
        },
        TimelineBlockKind::Reasoning => Seq::empty(),
        TimelineBlockKind::Notice => prefixed_text(lines(block.text@), "> · "@) + "\n"@,
        TimelineBlockKind::Tool => match block.tool {
            Some(t) => tool_text(t),
            None => Seq::empty(),
        },
    }
}

fn export_block(out: &mut String, block: &Block)
    ensures
        final(out)@ == old(out)@ + block_text(*block),
{
    let ghost start = out@;
    match block.kind {
        TimelineBlockKind::Text => {
            if !is_blank(block.text.as_str()) {
                out.push_str(block.text.as_str());
                out.push_str("\n\n");
            }
        },
        TimelineBlockKind::Reasoning => {},
        TimelineBlockKind::Notice => {
            push_prefixed(out, block.text.as_str(), "> · ");
            out.push_str("\n");
        },
        TimelineBlockKind::Tool => {
            match &block.tool {
                Some(t) => export_tool(out, t),
                None => {},
            }
        },
    }
    assert(out@ =~= start + block_text(*block));
}

/// Blocks one after the other.
pub open spec fn blocks_text(blocks: Seq<Block>) -> Seq<char>
    decreases blocks.len(),
{
    if blocks.len() == 0 {
        Seq::empty()
    } else {
        blocks_text(blocks.drop_last()) + block_text(blocks.last())
    }
}

fn export_blocks(out: &mut String, blocks: &Vec<Block>)
    ensures
        final(out)@ == old(out)@ + blocks_text(blocks@),
{
    let ghost start = out@;
    let mut i: usize = 0;
    assert(blocks@.take(0) =~= Seq::empty());
    assert(start + Seq::<char>::empty() =~= start);
    while i < blocks.len()
        invariant
            i <= blocks@.len(),
            out@ == start + blocks_text(blocks@.take(i as int)),
        decreases blocks@.len() - i,
    {
        proof {
            assert(blocks@.take(i + 1).drop_last() =~= blocks@.take(i as int));
        }
        export_block(out, &blocks[i]);
        i += 1;
        assert(out@ =~= start + blocks_text(blocks@.take(i as int)));
    }
    assert(blocks@.take(i as int) =~= blocks@);
}

/// Rounds one after the other.
pub open spec fn rounds_text(rounds: Seq<Round>) -> Seq<char>
    decreases rounds.len(),
{
    if rounds.len() == 0 {
        Seq::empty()
    } else {
        rounds_text(rounds.drop_last()) + blocks_text(rounds.last().blocks@)
    }
}

fn export_rounds(out: &mut String, rounds: &Vec<Round>)
    ensures
        final(out)@ == old(out)@ + rounds_text(rounds@),
{
    let ghost start = out@;
    let mut i: usize = 0;
    assert(rounds@.take(0) =~= Seq::empty());
    assert(start + Seq::<char>::empty() =~= start);
    while i < rounds.len()
        invariant
            i <= rounds@.len(),
            out@ == start + rounds_text(rounds@.take(i as int)),
        decreases rounds@.len() - i,
    {
        proof {
            assert(rounds@.take(i + 1).drop_last() =~= rounds@.take(i as int));
        }
        export_blocks(out, &rounds[i].blocks);
        i += 1;
        assert(out@ =~= start + rounds_text(rounds@.take(i as int)));
    }
    assert(rounds@.take(i as int) =~= rounds@);
}

/// How many of the blocks are tool calls, or failed ones.
pub open spec fn calls(blocks: Seq<Block>, failed: bool) -> nat
    decreases blocks.len(),
{
    if blocks.len() == 0 {
        0
    } else {
        let b = blocks.last();
        calls(blocks.drop_last(), failed) + if b.kind == TimelineBlockKind::Tool && (b.tool matches Some(
            t,
        ) && (failed ==> t.state == TimelineToolState::Failed)) {
            1nat
        } else {
            0
        }
    }
}

/// How many tool calls, or failed ones, a turn has.
pub open spec fn turn_calls(rounds: Seq<Round>, failed: bool) -> nat
    decreases rounds.len(),
{
    if rounds.len() == 0 {
        0
    } else {
        turn_calls(rounds.drop_last(), failed) + calls(rounds.last().blocks@, failed)
    }
}

fn count_calls(blocks: &Vec<Block>, failed: bool) -> (n: usize)
    ensures
        n == calls(blocks@, failed),
{
    let mut n: usize = 0;
    let mut i: usize = 0;
    assert(blocks@.take(0) =~= Seq::empty());
    while i < blocks.len()
        invariant
            i <= blocks@.len(),
            n <= i,
            n == calls(blocks@.take(i as int), failed),
        decreases blocks@.len() - i,
    {
        proof {
            assert(blocks@.take(i + 1).drop_last() =~= blocks@.take(i as int));
        }
        if blocks[i].kind == TimelineBlockKind::Tool {
            match &blocks[i].tool {
                Some(t) => {
                    if !failed || t.state == TimelineToolState::Failed {
                        n += 1;
                    }
                },
                None => {},
            }
        }
        i += 1;
    }
    assert(blocks@.take(i as int) =~= blocks@);
    n
}

/// How many tool calls, or failed ones, a turn has, as far as can be counted.
fn count_turn_calls(rounds: &Vec<Round>, failed: bool) -> (n: u64)
    ensures
        n == shown_count(turn_calls(rounds@, failed)),
{
    let mut n: u64 = 0;
    let mut i: usize = 0;
    assert(rounds@.take(0) =~= Seq::empty());
    while i < rounds.len()
        invariant
            i <= rounds@.len(),
            n == shown_count(turn_calls(rounds@.take(i as int), failed)),
        decreases rounds@.len() - i,
    {
        proof {
            assert(rounds@.take(i + 1).drop_last() =~= rounds@.take(i as int));
        }
        let k = count_calls(&rounds[i].blocks, failed);
        n = n.saturating_add(k as u64);
        i += 1;
    }
    assert(rounds@.take(i as int) =~= rounds@);
    n
}

/// A count as it is shown.
pub open spec fn shown_count(n: nat) -> nat {
    if n <= u64::MAX {
        n
    } else {
        u64::MAX as nat
    }
}

/// How much thinking a turn dropped.
pub open spec fn thinking_note(turn: Turn) -> Seq<char> {
    if turn.thinking.segments > 0 {
        " · 思考 "@ + dec(turn.thinking.segments as nat) + " 段/"@ + dec(turn.thinking.lines as nat)
            + " 行"@
    } else {
        Seq::empty()
    }
}

fn push_thinking(out: &mut String, turn: &Turn)
    ensures
        final(out)@ == old(out)@ + thinking_note(*turn),
{
    let ghost start = out@;
    if turn.thinking.segments > 0 {
        let a = dec_u64(turn.thinking.segments as u64);
        let b = dec_u64(turn.thinking.lines);
        out.push_str(" · 思考 ");
        out.push_str(a.as_str());
        out.push_str(" 段/");
        out.push_str(b.as_str());
        out.push_str(" 行");
    }
    assert(out@ =~= start + thinking_note(*turn));
}

/// How many tool calls there were and how many failed.
pub open spec fn calls_note(total: nat, failed: nat) -> Seq<char> {
    if total > 0 {
        " · "@ + dec(total) + " 工具"@ + (if failed > 0 {
            "（"@ + dec(failed) + "✗）"@
        } else {
            Seq::empty()
        })
    } else {
        Seq::empty()
    }
}

fn push_calls(out: &mut String, total: u64, failed: u64)
    ensures
        final(out)@ == old(out)@ + calls_note(total as nat, failed as nat),
{
    let ghost start = out@;
    if total > 0 {
        let a = dec_u64(total);
        out.push_str(" · ");
        out.push_str(a.as_str());
        out.push_str(" 工具");
        if failed > 0 {
            let b = dec_u64(failed);
            out.push_str("（");
            out.push_str(b.as_str());
            out.push_str("✗）");
        }
    }
    assert(out@ =~= start + calls_note(total as nat, failed as nat));
}

/// The head line of a turn.
pub open spec fn turn_title(turn: Turn, n: nat) -> Seq<char> {
    "## Turn "@ + dec(n) + " · "@ + turn_label(turn.state) + thinking_note(turn) + calls_note(
        shown_count(turn_calls(turn.rounds@, false)),
        shown_count(turn_calls(turn.rounds@, true)),
    ) + "\n\n"@
}

fn push_title(out: &mut String, n: usize, turn: &Turn)
    ensures
        final(out)@ == old(out)@ + turn_title(*turn, n as nat),
{
    let ghost start = out@;
    let num = dec_usize(n);
    out.push_str("## Turn ");
    out.push_str(num.as_str());
    out.push_str(" · ");
    out.push_str(turn_state_label(turn.state));
    push_thinking(out, turn);
    let total = count_turn_calls(&turn.rounds, false);
    let failed = count_turn_calls(&turn.rounds, true);
    push_calls(out, total, failed);
    out.push_str("\n\n");
    assert(out@ =~= start + turn_title(*turn, n as nat));
}

/// What the user said.
pub open spec fn user_quote(text: Seq<char>) -> Seq<char> {
    if blank(text) {
        "> （空）\n\n"@
    } else {
        prefixed_text(lines(text), "> "@) + "\n"@
    }
}

/// A turn.
pub open spec fn turn_text(turn: Turn, n: nat) -> Seq<char> {
    turn_title(turn, n) + (if turn.offloaded {
        "> ⚠ 本回合已 offload——正文仅剩预览壳，完整内容存于 daemon。\n\n"@
    } else {
        Seq::empty()
    }) + failure_note(turn.failure) + "**❯ 用户**\n\n"@ + user_quote(turn.user_text@) + rounds_text(
        turn.rounds@,
    ) + "---\n\n"@
}

#[verifier::spinoff_prover]
#[verifier::rlimit(50)]
fn export_turn(out: &mut String, n: usize, turn: &Turn)
    ensures
        final(out)@ == old(out)@ + turn_text(*turn, n as nat),
{
    let ghost start = out@;
    push_title(out, n, turn);
    if turn.offloaded {
        out.push_str("> ⚠ 本回合已 offload——正文仅剩预览壳，完整内容存于 daemon。\n\n");
    }
    push_failure(out, &turn.failure);
    out.push_str("**❯ 用户**\n\n");
    if is_blank(turn.user_text.as_str()) {
        out.push_str("> （空）\n\n");
    } else {
        push_prefixed(out, turn.user_text.as_str(), "> ");
        out.push_str("\n");
    }
    export_rounds(out, &turn.rounds);
    out.push_str("---\n\n");
    assert(out@ =~= start + turn_text(*turn, n as nat));
}

/// The first turns of a session, numbered from one.
pub open spec fn turns_text(turns: Seq<Turn>) -> Seq<char>
    decreases turns.len(),
{
    if turns.len() == 0 {
        Seq::empty()
    } else {
        turns_text(turns.drop_last()) + turn_text(turns.last(), turns.len())
    }
}

/// A session, exported at the time that `stamp` names.
pub open spec fn session_text(seed: Seq<char>, timeline: TimelineView, stamp: Seq<char>) -> Seq<
    char,
> {
    "# qaqh 会话导出\n\n"@ + "- 会话：`"@ + seed + "`\n"@ + "- 回合数："@ + dec(
        timeline.turns.len(),
    ) + "（当前窗口内）\n"@ + "- 导出时间："@ + stamp + "\n"@ + (if timeline.has_more {
        "- ⚠ 更早回合已折叠（不在本文件内）\n"@
    } else if timeline.truncated_before {
        "- ⚠ 更早回合未包含（仅存于 daemon 归档）\n"@
    } else {
        Seq::empty()
    }) + "\n"@ + turns_text(timeline.turns)
}

/// A session as a Markdown document; `stamp` is the present time.
pub fn export_markdown(sess: &SessionState, stamp: &str) -> (out: String)
    ensures
        out@ == session_text(sess.seed@, sess.timeline@, stamp@),
{
    let mut out = String::new();
    let n = dec_usize(sess.timeline.turns.len());
    out.push_str("# qaqh 会话导出\n\n");
    out.push_str("- 会话：`");
    out.push_str(sess.seed.as_str());
    out.push_str("`\n");
    out.push_str("- 回合数：");
    out.push_str(n.as_str());
    out.push_str("（当前窗口内）\n");
    out.push_str("- 导出时间：");
    out.push_str(stamp);
    out.push_str("\n");
    if sess.timeline.has_more {
        out.push_str("- ⚠ 更早回合已折叠（不在本文件内）\n");
    } else if sess.timeline.truncated_before {
        out.push_str("- ⚠ 更早回合未包含（仅存于 daemon 归档）\n");
    }
    out.push_str("\n");
    let ghost head = out@;
    let turns = &sess.timeline.turns;
    let len: usize = turns.len();
    let mut i: usize = 0;
    assert(turns@.take(0) =~= Seq::empty());
    assert(head + Seq::<char>::empty() =~= head);
    while i < len
        invariant
            i <= len == turns@.len(),
            out@ == head + turns_text(turns@.take(i as int)),
        decreases len - i,
    {
        proof {
            assert(turns@.take(i + 1).drop_last() =~= turns@.take(i as int));
        }
        export_turn(&mut out, i + 1, &turns[i]);
        i += 1;
        assert(out@ =~= head + turns_text(turns@.take(i as int)));
    }
    assert(turns@.take(i as int) =~= turns@);
    assert(out@ =~= session_text(sess.seed@, sess.timeline@, stamp@));
    out
}

/// One turn as Markdown.
pub fn export_turn_markdown(turn: &Turn, number: usize) -> (out: String)
    ensures
        out@ == turn_text(*turn, number as nat),
{
    let mut out = String::new();
    export_turn(&mut out, number, turn);
    assert(out@ =~= turn_text(*turn, number as nat));
    out
}

/// The file that a session is exported to by default; `stamp` is the present
/// time.
pub open spec fn export_name(seed: Seq<char>, stamp: Seq<char>) -> Seq<char> {
    "qaqh-export-"@ + first_chars(seed, 8) + "-"@ + stamp + ".md"@
}

/// The file that a session is exported to by default.
pub fn default_export_path(seed: &str, stamp: &str) -> (r: String)
    ensures
        r@ == export_name(seed@, stamp@),
{
    let short = take_chars(seed, 8);
    let mut r = cat3("qaqh-export-", short.as_str(), "-");
    r.push_str(stamp);
    r.push_str(".md");
    r
}

} // verus!
