//! Heights for what is not drawn. Text is measured as plain text, without its
//! markup, and its lines are counted without making them; a tool card is laid
//! out in full, since its height is to be exact.

use crate::text::cat3;
use crate::timeline::{Block, TimelineBlockKind, TimelineFailure, Turn};
use crate::anim::AnimSink;
use crate::render_line::{
    lemma_wrap_start_ok, rows, wrap_feed, wrap_ok, wrap_start, wrap_step, wrapped, RenderLine,
    WrapModel,
};
use crate::tool_card::{
    card_rows, is_t1_tool, lemma_card_starts_with_head, push_tool_card_anim, t1_tool,
};
use crate::tool_diff::less;
use crate::width::{char_width, columns, cw, lemma_columns_push, lemma_columns_split};
use vstd::prelude::*;

verus! {

/// The largest height that can be counted, where `n` is larger.
pub open spec fn cap(n: nat) -> nat {
    if n <= usize::MAX {
        n
    } else {
        usize::MAX as nat
    }
}

/// The width to count with: at least one column.
pub open spec fn at_least_one(width: nat) -> nat {
    if width == 0 {
        1
    } else {
        width
    }
}

/// The lines of a wrapped text.
pub open spec fn wrapped_estimate(text: Seq<char>, width: nat) -> nat {
    cap(wrapped(text, at_least_one(width)).len())
}

/// A text whose lines are counted: how many are finished, the columns of the
/// current one, and those behind its last space.
struct LineCount {
    done: usize,
    line_w: usize,
    tail_w: Option<usize>,
}

/// The count is that of `m`.
spec fn counts(n: LineCount, m: WrapModel) -> bool {
    &&& n.done == cap(m.sealed.len())
    &&& n.line_w == columns(m.line)
    &&& match (n.tail_w, m.space) {
        (Some(t), Some(k)) => t == columns(m.line.skip(k + 1)),
        (None, None) => true,
        _ => false,
    }
}

proof fn lemma_count_widths(n: LineCount, m: WrapModel, c: char, width: nat)
    requires
        counts(n, m),
        wrap_ok(m, width),
    ensures
        columns(Seq::<char>::empty()) == 0,
        columns(m.line.push(c)) == columns(m.line) + cw(c),
        columns(Seq::<char>::empty().push(c)) == cw(c),
        m.line.push(c).skip((m.line.len() + 1) as int) == Seq::<char>::empty(),
        m.space matches Some(k) ==> {
            &&& columns(m.line.skip(k + 1)) <= columns(m.line) <= width
            &&& columns(m.line.skip(k + 1).push(c)) == columns(m.line.skip(k + 1)) + cw(c)
            &&& m.line.push(c).skip(k + 1) == m.line.skip(k + 1).push(c)
        },
{
    assert(columns(Seq::<char>::empty()) == 0);
    lemma_columns_push(m.line, c);
    lemma_columns_push(Seq::empty(), c);
    assert(m.line.push(c).skip((m.line.len() + 1) as int) =~= Seq::empty());
    if let Some(k) = m.space {
        lemma_columns_split(m.line, k + 1);
        lemma_columns_push(m.line.skip(k + 1), c);
        assert(m.line.push(c).skip(k + 1) =~= m.line.skip(k + 1).push(c));
    }
}

/// Counts one more character.
fn count_step(n: LineCount, c: char, width: usize) -> (r: LineCount)
    requires
        width > 0,
        exists|m: WrapModel| counts(n, m) && #[trigger] wrap_ok(m, width as nat),
    ensures
        forall|m: WrapModel|
            counts(n, m) && wrap_ok(m, width as nat) ==> counts(
                r,
                #[trigger] wrap_step(m, c, width as nat),
            ),
{
    let w = char_width(c);
    proof {
        assert forall|m: WrapModel|
            counts(n, m) && #[trigger] wrap_ok(m, width as nat) implies n.tail_w matches Some(t)
            ==> t <= n.line_w <= width by {
            lemma_count_widths(n, m, c, width as nat);
        }
    }
    let ends = LineCount { done: n.done.saturating_add(1), line_w: 0, tail_w: None };
    let r = if c == '\n' {
        ends
    } else if n.line_w <= width && w <= width - n.line_w {
        LineCount {
            done: n.done,
            line_w: n.line_w + w,
            tail_w: if c == ' ' {
                Some(0)
            } else {
                match n.tail_w {
                    Some(t) => Some(t + w),
                    None => None,
                }
            },
        }
    } else if c == ' ' {
        ends
    } else {
        match n.tail_w {
            Some(t) => {
                if w <= width - t {
                    LineCount { done: ends.done, line_w: t + w, tail_w: None }
                } else {
                    LineCount { done: ends.done.saturating_add(1), line_w: w, tail_w: None }
                }
            },
            None => LineCount { done: ends.done, line_w: w, tail_w: None },
        }
    };
    proof {
        assert forall|m: WrapModel| counts(n, m) && wrap_ok(m, width as nat) implies counts(
            r,
            #[trigger] wrap_step(m, c, width as nat),
        ) by {
            lemma_count_widths(n, m, c, width as nat);
        }
    }
    r
}

/// How many lines [`crate::render_line::wrap_text`] makes of a text, without
/// making them.
pub fn estimate_wrapped_lines(text: &str, width: usize) -> (n: usize)
    ensures
        n == wrapped_estimate(text@, width as nat),
{
    let w: usize = if width == 0 {
        1
    } else {
        width
    };
    let mut n = LineCount { done: 0, line_w: 0, tail_w: None };
    proof {
        assert(columns(Seq::<char>::empty()) == 0);
        assert(text@.take(0) =~= Seq::empty());
    }
    for c in it: text.chars()
        invariant
            w > 0,
            counts(n, wrap_feed(wrap_start(), it.seq().take(it.index() as int), w as nat)),
    {
        proof {
            let t = it.seq().take(it.index() as int);
            lemma_wrap_start_ok(t, w as nat);
            let u = it.seq().take(it.index() + 1);
            assert(u.drop_last() =~= t);
            assert(u.last() == c);
        }
        n = count_step(n, c, w);
    }
    assert(text@.take(text@.len() as int) =~= text@);
    n.done.saturating_add(1)
}

/// The lines of a block: text as it wraps without markup, one for a one-line tool call, and
/// exactly those of the card for any other.
pub open spec fn block_estimate(block: Block, width: nat) -> nat {
    let w = at_least_one(width);
    match block.kind {
        TimelineBlockKind::Text | TimelineBlockKind::Reasoning => wrapped_estimate(block.text@, w),
        TimelineBlockKind::Notice => wrapped_estimate(block.text@, less(w, 2)),
        TimelineBlockKind::Tool => match block.tool {
            Some(t) => if t1_tool(t.name@) {
                1
            } else {
                cap(card_rows(t, w, None).len())
            },
            None => 3,
        },
    }
}

/// The lines of a block.
pub fn estimate_block_lines(block: &Block, width: usize) -> (n: usize)
    ensures
        n == block_estimate(*block, width as nat),
{
    let w: usize = if width == 0 {
        1
    } else {
        width
    };
    match block.kind {
        TimelineBlockKind::Text => estimate_wrapped_lines(block.text.as_str(), w),
        TimelineBlockKind::Reasoning => estimate_wrapped_lines(block.text.as_str(), w),
        TimelineBlockKind::Notice => estimate_wrapped_lines(
            block.text.as_str(),
            w.saturating_sub(2),
        ),
        TimelineBlockKind::Tool => {
            match &block.tool {
                Some(t) => if is_t1_tool(t.name.as_str()) {
                    1
                } else {
                    let mut lines: Vec<RenderLine> = Vec::new();
                    assert(rows(lines@) =~= Seq::empty());
                    let mut sink = AnimSink::Slots(Vec::new());
                    push_tool_card_anim(&mut lines, t, w, &mut sink);
                    assert(rows(lines@) =~= card_rows(*t, w as nat, None));
                    assert(rows(lines@).len() == lines@.len());
                    lines.len()
                },
                None => 3,
            }
        },
    }
}

/// The lines before the blocks of a turn.
pub open spec fn pre_estimate(turn: Turn, width: nat) -> nat {
    let w = at_least_one(width);
    let head: nat = if turn.offloaded {
        2
    } else {
        1
    };
    if turn.user_text@.len() > 0 {
        cap(head + wrapped_estimate(turn.user_text@, less(w, 2)))
    } else {
        head
    }
}

/// The lines before the blocks of a turn.
pub fn estimate_pre_lines(turn: &Turn, width: usize) -> (n: usize)
    ensures
        n == pre_estimate(*turn, width as nat),
{
    let w: usize = if width == 0 {
        1
    } else {
        width
    };
    let mut lines: usize = 1;
    if turn.offloaded {
        lines += 1;
    }
    if !turn.user_text.as_str().is_empty() {
        lines = lines.saturating_add(
            estimate_wrapped_lines(turn.user_text.as_str(), w.saturating_sub(2)),
        );
    }
    lines
}

/// The lines after the blocks of a turn.
pub open spec fn post_estimate(failure: Option<TimelineFailure>, width: nat) -> nat {
    let w = at_least_one(width);
    match failure {
        Some(f) => cap(1 + wrapped_estimate(f.code@ + ": "@ + f.message@, less(w, 4))),
        None => 1,
    }
}

/// The lines after the blocks of a turn.
pub fn estimate_post_lines(failure: &Option<TimelineFailure>, width: usize) -> (n: usize)
    ensures
        n == post_estimate(*failure, width as nat),
{
    let w: usize = if width == 0 {
        1
    } else {
        width
    };
    match failure {
        Some(f) => {
            let text = cat3(f.code.as_str(), ": ", f.message.as_str());
            let k = estimate_wrapped_lines(text.as_str(), w.saturating_sub(4));
            let one: usize = 1;
            one.saturating_add(k)
        },
        None => 1,
    }
}

/// What is shown by itself is never estimated to take no line: only a hidden
/// block has none.
pub proof fn law_estimates_are_positive(block: Block, turn: Turn, width: nat)
    ensures
        block_estimate(block, width) > 0,
        pre_estimate(turn, width) > 0,
        post_estimate(turn.failure, width) > 0,
{
    let w = at_least_one(width);
    lemma_wrapped_positive(block.text@, w);
    lemma_wrapped_positive(block.text@, less(w, 2));
    if let Some(t) = block.tool {
        lemma_card_starts_with_head(t, w, None);
    }
}

proof fn lemma_wrapped_positive(text: Seq<char>, width: nat)
    ensures
        wrapped_estimate(text, width) > 0,
{
}

} // verus!
