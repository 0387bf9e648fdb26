//! What a drawn transcript tells: what the user wrote, what was answered, how
//! turns ended, all of it and in order.

use crate::plan::{
    groupable, scan, group_items, round_items, rounds_items, turn_items, unfolded, ItemView,
};
use crate::render_line::{
    gaps_fit, law_wrap_keeps_text, sp, wrapped, RenderStyle, SpanStyle, SpanView,
};
use crate::render_transcript::{
    banner, block_rows, drawn_width, item_rows, items_rows, transcript_rows, turn_post, turn_pre,
    turn_rows, turns_rows,
};
use crate::md_detect::markdown;
use crate::markdown::markdown_rows;
use crate::session::SessionState;
use crate::text::{dec, occurs, occurs_at};
use crate::timeline::{Block, Round, TimelineBlockKind, TimelineFailure, Turn};
use vstd::prelude::*;

verus! {

/// The texts of the spans of a line that have a style, in order.
pub open spec fn texts_of(line: Seq<SpanView>, style: SpanStyle) -> Seq<Seq<char>>
    decreases line.len(),
{
    if line.len() == 0 {
        Seq::empty()
    } else if line.last().style == RenderStyle::Semantic(style) {
        texts_of(line.drop_last(), style).push(line.last().text)
    } else {
        texts_of(line.drop_last(), style)
    }
}

/// The texts of the spans that have a style, line by line.
pub open spec fn texts_in(rs: Seq<Seq<SpanView>>, style: SpanStyle) -> Seq<Seq<char>>
    decreases rs.len(),
{
    if rs.len() == 0 {
        Seq::empty()
    } else {
        texts_in(rs.drop_last(), style) + texts_of(rs.last(), style)
    }
}

/// A text is shown by these lines: they are its parts in order, and between two
/// of them nothing, a space or a line feed is left out.
pub open spec fn shown_by(text: Seq<char>, ls: Seq<Seq<char>>) -> bool {
    exists|gaps: Seq<Seq<char>>| gaps_fit(text, ls, gaps)
}

/// The texts of concatenated lines.
pub proof fn lemma_texts_in_add(a: Seq<Seq<SpanView>>, b: Seq<Seq<SpanView>>, style: SpanStyle)
    ensures
        texts_in(a + b, style) == texts_in(a, style) + texts_in(b, style),
    decreases b.len(),
{
    if b.len() == 0 {
        assert(a + b =~= a);
        assert(texts_in(a, style) + texts_in(b, style) =~= texts_in(a, style));
    } else {
        assert((a + b).drop_last() =~= a + b.drop_last());
        lemma_texts_in_add(a, b.drop_last(), style);
        assert(texts_in(a + b, style) =~= texts_in(a, style) + texts_in(b, style));
    }
}

/// A line without a style has no text of it.
pub proof fn lemma_texts_of_none(line: Seq<SpanView>, style: SpanStyle)
    requires
        forall|i: int| 0 <= i < line.len() ==> (#[trigger] line[i]).style != RenderStyle::Semantic(
            style,
        ),
    ensures
        texts_of(line, style) == Seq::<Seq<char>>::empty(),
    decreases line.len(),
{
    if line.len() > 0 {
        assert forall|i: int| 0 <= i < line.drop_last().len() implies (
        #[trigger] line.drop_last()[i]).style != RenderStyle::Semantic(style) by {
            assert(line[i] == line.drop_last()[i]);
        }
        lemma_texts_of_none(line.drop_last(), style);
        assert(line[line.len() - 1] == line.last());
    }
}

/// The texts of one line.
pub proof fn lemma_texts_in_one(line: Seq<SpanView>, style: SpanStyle)
    ensures
        texts_in(seq![line], style) == texts_of(line, style),
{
    let one = seq![line];
    assert(one.drop_last() =~= Seq::empty());
    assert(one.last() == line);
    assert(texts_in(one.drop_last(), style) =~= Seq::empty());
    assert(texts_in(one, style) =~= texts_of(line, style));
}

/// A line of a prefix and a text in another style has that text.
pub proof fn lemma_texts_of_pair(a: Seq<char>, s: SpanStyle, text: Seq<char>, style: SpanStyle)
    requires
        s != style,
    ensures
        texts_of(seq![sp(a, s), sp(text, style)], style) == seq![text],
{
    let line = seq![sp(a, s), sp(text, style)];
    assert(line.drop_last() =~= seq![sp(a, s)]);
    lemma_texts_of_none(line.drop_last(), style);
    assert(line.last() == sp(text, style));
    assert(texts_of(line, style) =~= seq![text]);
}

proof fn lemma_texts_pairs(
    rs: Seq<Seq<SpanView>>,
    ls: Seq<Seq<char>>,
    prefix: spec_fn(int) -> Seq<char>,
    s: SpanStyle,
    style: SpanStyle,
)
    requires
        s != style,
        rs.len() == ls.len(),
        forall|i: int|
            0 <= i < rs.len() ==> #[trigger] rs[i] == seq![sp(prefix(i), s), sp(ls[i], style)],
    ensures
        texts_in(rs, style) == ls,
    decreases rs.len(),
{
    if rs.len() > 0 {
        let n = rs.len() - 1;
        assert forall|i: int| 0 <= i < n implies #[trigger] rs.drop_last()[i] == seq![
            sp(prefix(i), s),
            sp(ls.drop_last()[i], style),
        ] by {
            assert(rs[i] == rs.drop_last()[i]);
        }
        lemma_texts_pairs(rs.drop_last(), ls.drop_last(), prefix, s, style);
        assert(rs[n] == rs.last());
        lemma_texts_of_pair(prefix(n), s, ls[n], style);
        assert(texts_in(rs, style) =~= ls);
    } else {
        assert(ls =~= Seq::empty());
    }
}

/// How many lines stand before what the user wrote: the head, and the mark of an
/// archived turn.
pub open spec fn lines_before_user(turn: Turn) -> nat {
    if turn.offloaded {
        2
    } else {
        1
    }
}

/// What the user wrote is shown, all of it and nothing else, in order and in its
/// own style, two columns short of the width; only the first of its lines has
/// the arrow.
pub proof fn law_user_text_is_shown(turn: Turn, num: u64, width: nat)
    requires
        turn.user_text@.len() > 0,
    ensures
        ({
            let pre = turn_pre(turn, num, width);
            let said = texts_in(pre, SpanStyle::User);
            let k = lines_before_user(turn);
            &&& shown_by(turn.user_text@, said)
            &&& said == wrapped(
                turn.user_text@,
                if width >= 2 {
                    (width - 2) as nat
                } else {
                    0
                },
            )
            &&& pre.len() == k + said.len()
            &&& forall|i: int|
                0 <= i < said.len() ==> {
                    let line = #[trigger] pre[k + i];
                    &&& line.len() == 2
                    &&& line[1] == sp(said[i], SpanStyle::User)
                    &&& line[0].text == if i == 0 {
                        seq!['❯', ' ']
                    } else {
                        seq![' ', ' ']
                    }
                }
        }),
{
    let pre = turn_pre(turn, num, width);
    let w = if width >= 2 {
        (width - 2) as nat
    } else {
        0
    };
    let ls = wrapped(turn.user_text@, w);
    let k = lines_before_user(turn);
    let head = pre.take(k as int);
    let said = pre.skip(k as int);
    reveal_strlit("❯ ");
    reveal_strlit("  ");
    assert("❯ "@ =~= seq!['❯', ' ']);
    assert("  "@ =~= seq![' ', ' ']);
    let mark = |i: int| if i == 0 {
        "❯ "@
    } else {
        "  "@
    };
    assert forall|i: int| 0 <= i < ls.len() implies #[trigger] said[i] == seq![
        sp(mark(i), SpanStyle::Accent),
        sp(ls[i], SpanStyle::User),
    ] by {
        assert(said[i] == pre[k + i]);
    }
    assert(said.len() == ls.len());
    lemma_texts_pairs(said, ls, mark, SpanStyle::Accent, SpanStyle::User);
    assert(head + said =~= pre);
    lemma_texts_in_add(head, said, SpanStyle::User);
    lemma_texts_of_none(pre[0], SpanStyle::User);
    lemma_texts_in_one(pre[0], SpanStyle::User);
    if turn.offloaded {
        lemma_texts_of_none(pre[1], SpanStyle::User);
        lemma_texts_in_one(pre[1], SpanStyle::User);
        assert(head =~= seq![pre[0]] + seq![pre[1]]);
        lemma_texts_in_add(seq![pre[0]], seq![pre[1]], SpanStyle::User);
    } else {
        assert(head =~= seq![pre[0]]);
    }
    assert(texts_in(head, SpanStyle::User) =~= Seq::empty());
    assert(texts_in(pre, SpanStyle::User) =~= ls);
    law_wrap_keeps_text(turn.user_text@, w);
    assert forall|i: int| 0 <= i < ls.len() implies ({
        let line = #[trigger] pre[k + i];
        &&& line.len() == 2
        &&& line[1] == sp(ls[i], SpanStyle::User)
        &&& line[0].text == if i == 0 {
            seq!['❯', ' ']
        } else {
            seq![' ', ' ']
        }
    }) by {
        assert(said[i] == pre[k + i]);
    }
}

/// A turn in which the user wrote nothing shows no line of the user.
pub proof fn law_silent_turn_shows_no_user(turn: Turn, num: u64, width: nat)
    requires
        turn.user_text@.len() == 0,
    ensures
        turn_pre(turn, num, width).len() == lines_before_user(turn),
        texts_in(turn_pre(turn, num, width), SpanStyle::User).len() == 0,
{
    let pre = turn_pre(turn, num, width);
    lemma_texts_of_none(pre[0], SpanStyle::User);
    lemma_texts_in_one(pre[0], SpanStyle::User);
    if turn.offloaded {
        lemma_texts_of_none(pre[1], SpanStyle::User);
        lemma_texts_in_one(pre[1], SpanStyle::User);
        assert(pre =~= seq![pre[0]] + seq![pre[1]]);
        lemma_texts_in_add(seq![pre[0]], seq![pre[1]], SpanStyle::User);
    } else {
        assert(pre =~= seq![pre[0]]);
    }
}

/// Why a turn failed is shown under it, all of it: every line but the last empty
/// one is a mark and a part of "code: message", as an error. A turn that did
/// not fail has only the empty line.
pub proof fn law_failure_is_shown(failure: Option<TimelineFailure>, width: nat)
    ensures
        ({
            let post = turn_post(failure, width);
            let n = post.len() - 1;
            &&& post.len() >= 1
            &&& post.last().len() == 0
            &&& failure is None ==> post.len() == 1
            &&& failure matches Some(f) ==> {
                &&& shown_by(
                    f.code@ + seq![':', ' '] + f.message@,
                    Seq::new(n as nat, |i: int| post[i][1].text),
                )
                &&& forall|i: int|
                    0 <= i < n ==> {
                        &&& (#[trigger] post[i]).len() == 2
                        &&& post[i][0] == sp(seq![' ', ' ', '✗', ' '], SpanStyle::Error)
                        &&& post[i][1].style == RenderStyle::Semantic(SpanStyle::Error)
                    }
            }
        }),
{
    let post = turn_post(failure, width);
    let n = post.len() - 1;
    if let Some(f) = failure {
        reveal_strlit(": ");
        reveal_strlit("  ✗ ");
        assert(": "@ =~= seq![':', ' ']);
        assert("  ✗ "@ =~= seq![' ', ' ', '✗', ' ']);
        let w = if width >= 4 {
            (width - 4) as nat
        } else {
            0
        };
        let text = f.code@ + seq![':', ' '] + f.message@;
        let ls = wrapped(text, w);
        law_wrap_keeps_text(text, w);
        assert(Seq::new(n as nat, |i: int| post[i][1].text) =~= ls);
    }
}

/// A notice is shown, all of it, each line behind a dot.
pub proof fn law_notice_is_shown(block: Block, width: nat, bake: Option<u64>)
    requires
        block.kind == TimelineBlockKind::Notice,
    ensures
        ({
            let rs = block_rows(block, width, bake);
            &&& shown_by(block.text@, Seq::new(rs.len(), |i: int| rs[i][1].text))
            &&& forall|i: int|
                0 <= i < rs.len() ==> (#[trigger] rs[i]).len() == 2 && rs[i][0].text == seq!['·', ' ']
        }),
{
    let rs = block_rows(block, width, bake);
    reveal_strlit("· ");
    assert("· "@ =~= seq!['·', ' ']);
    let w = if width >= 2 {
        (width - 2) as nat
    } else {
        0
    };
    law_wrap_keeps_text(block.text@, w);
    assert(Seq::new(rs.len(), |i: int| rs[i][1].text) =~= wrapped(block.text@, w));
}

/// An answer without Markdown is shown as it is, all of it, line by line.
pub proof fn law_plain_answer_is_shown(block: Block, width: nat, bake: Option<u64>)
    requires
        block.kind == TimelineBlockKind::Text,
        !block.streaming(),
        !markdown(block.text@),
    ensures
        ({
            let rs = block_rows(block, width, bake);
            &&& shown_by(block.text@, Seq::new(rs.len(), |i: int| rs[i][0].text))
            &&& forall|i: int| 0 <= i < rs.len() ==> (#[trigger] rs[i]).len() == 1
        }),
{
    let rs = block_rows(block, width, bake);
    law_wrap_keeps_text(block.text@, width);
    assert(Seq::new(rs.len(), |i: int| rs[i][0].text) =~= wrapped(block.text@, width));
}

/// An answer that still grows is shown as it is with the cursor behind it.
pub proof fn law_growing_answer_is_shown(block: Block, width: nat, frame: u64)
    requires
        block.kind == TimelineBlockKind::Text,
        block.streaming(),
    ensures
        ({
            let rs = block_rows(block, width, Some(frame));
            &&& shown_by(block.text@.push('▌'), Seq::new(rs.len(), |i: int| rs[i][0].text))
            &&& forall|i: int| 0 <= i < rs.len() ==> (#[trigger] rs[i]).len() == 1
        }),
{
    let rs = block_rows(block, width, Some(frame));
    law_wrap_keeps_text(block.text@.push('▌'), width);
    assert(Seq::new(rs.len(), |i: int| rs[i][0].text) =~= wrapped(block.text@.push('▌'), width));
}

/// An answer in Markdown is drawn as Markdown: all its lines where they are at
/// most five hundred, else the first five hundred and a line that says how many
/// are left out.
pub proof fn law_markdown_answer_is_shown(block: Block, width: nat, bake: Option<u64>)
    requires
        block.kind == TimelineBlockKind::Text,
        !block.streaming(),
        markdown(block.text@),
    ensures
        ({
            let rs = block_rows(block, width, bake);
            let md = markdown_rows(block.text@, width);
            &&& md.len() <= 500 ==> rs == md
            &&& md.len() > 500 ==> {
                &&& rs.len() == 501
                &&& rs.take(500) == md.take(500)
                &&& rs[500].len() == 1
                &&& occurs(rs[500][0].text, dec((md.len() - 500) as nat))
            }
        }),
{
    let md = markdown_rows(block.text@, width);
    if md.len() > 500 {
        let rs = block_rows(block, width, bake);
        assert(rs.take(500) =~= md.take(500));
        let d = dec((md.len() - 500) as nat);
        let a = "  （内容省略 "@;
        let t = rs[500][0].text;
        assert(t.subrange(a.len() as int, (a.len() + d.len()) as int) =~= d);
        assert(occurs_at(t, d, a.len() as int));
    }
}

/// Reasoning is not shown.
pub proof fn law_reasoning_is_hidden(block: Block, width: nat, bake: Option<u64>)
    requires
        block.kind == TimelineBlockKind::Reasoning,
    ensures
        block_rows(block, width, bake).len() == 0,
{
}

/// Whether some span of a line has a style.
pub open spec fn has_style(line: Seq<SpanView>, style: SpanStyle) -> bool {
    exists|i: int| 0 <= i < line.len() && (#[trigger] line[i]).style == RenderStyle::Semantic(style)
}

/// The head of a turn gives its number, and how it ended: an error exactly where
/// it failed, with the code of the failure; a warning exactly where it was
/// cancelled.
pub proof fn law_head_tells_the_end(turn: Turn, num: u64, width: nat)
    ensures
        ({
            let head = turn_pre(turn, num, width)[0];
            &&& head.len() >= 2
            &&& head[1].text == seq!['t', 'u', 'r', 'n', ' '] + dec(num as nat)
            &&& has_style(head, SpanStyle::Error) == (turn.state is Failed)
            &&& has_style(head, SpanStyle::Warn) == (turn.state is Cancelled)
            &&& turn.state is Failed && turn.failure is Some ==> exists|i: int|
                0 <= i < head.len() && occurs((#[trigger] head[i]).text, turn.failure->0.code@)
            &&& turn.state is Completed ==> head.len() == 2 + (if turn.thinking.segments > 0 {
                1int
            } else {
                0
            })
            &&& turn.thinking.segments > 0 ==> occurs(
                head.last().text,
                dec(turn.thinking.segments as nat),
            ) && occurs(head.last().text, dec(turn.thinking.lines as nat))
        }),
{
    let head = turn_pre(turn, num, width)[0];
    reveal_strlit("turn ");
    reveal_strlit("✗ failed");
    reveal_strlit("… running");
    reveal_strlit("⊘ cancelled");
    reveal_strlit("✗ ");
    reveal_strlit(" · ");
    assert("turn "@ =~= seq!['t', 'u', 'r', 'n', ' ']);
    if turn.state is Failed {
        assert(head[2].style == RenderStyle::Semantic(SpanStyle::Error));
        if let Some(f) = turn.failure {
            let t = head[2].text;
            let at = " · "@.len() + "✗ "@.len();
            assert(t.subrange(at as int, (at + f.code@.len()) as int) =~= f.code@);
            assert(occurs_at(t, f.code@, at as int));
        }
    }
    if turn.state is Cancelled {
        assert(head[2].style == RenderStyle::Semantic(SpanStyle::Warn));
    }
    if turn.thinking.segments > 0 {
        let t = head.last().text;
        let a = dec(turn.thinking.segments as nat);
        let b = dec(turn.thinking.lines as nat);
        let i = " · 思考 "@.len() as int;
        let j = i + a.len() + " 段/"@.len();
        assert(t.subrange(i, i + a.len()) =~= a);
        assert(t.subrange(j, j + b.len()) =~= b);
        assert(occurs_at(t, a, i));
        assert(occurs_at(t, b, j));
    }
}

/// Above the turns stands a line exactly where older turns are being loaded, can
/// be loaded, or cannot be reached; the three differ in style, and the one that
/// can be loaded names the key for it.
pub proof fn law_banner_tells_of_older_turns(session: SessionState)
    ensures
        banner(session) is Some == (session.loading_older || session.timeline.has_more
            || session.timeline.truncated_before),
        banner(session) matches Some(line) ==> {
            &&& line.len() == 1
            &&& has_style(line, SpanStyle::Dim) == session.loading_older
            &&& has_style(line, SpanStyle::Accent) == (!session.loading_older
                && session.timeline.has_more)
            &&& has_style(line, SpanStyle::Warn) == (!session.loading_older
                && !session.timeline.has_more)
            &&& has_style(line, SpanStyle::Accent) ==> occurs(line[0].text, seq!['P', 'g', 'U', 'p'])
        },
{
    if let Some(line) = banner(session) {
        assert(line[0].style == line[0].style);
        if !session.loading_older && session.timeline.has_more {
            reveal_strlit("↑ 更早回合已折叠 — PgUp 加载更早");
            let t = line[0].text;
            assert(t.subrange(12, 16) =~= seq!['P', 'g', 'U', 'p']);
            assert(occurs_at(t, seq!['P', 'g', 'U', 'p'], 12));
        }
    }
}

/// Every turn of a session is drawn, in order and without a gap: the lines of
/// turn `i` follow those of the turns before it, numbered on from the turns
/// that were dropped.
pub proof fn law_every_turn_is_drawn(session: SessionState, width: u16, bake: Option<u64>, i: int)
    requires
        0 <= i < session.timeline.turns@.len(),
        session.timeline.dropped_turns + session.timeline.turns@.len() < u64::MAX,
    ensures
        ({
            let w = drawn_width(width) as nat;
            let rs = transcript_rows(session, width, bake);
            let start = turn_start(session, width, bake, i);
            let end = turn_start(session, width, bake, i + 1);
            let num = (session.timeline.dropped_turns + i + 1) as u64;
            let t = session.timeline.turns@[i];
            &&& w >= width && w >= 20
            &&& turn_start(session, width, bake, 0) == if banner(session) is Some {
                1nat
            } else {
                0
            }
            &&& start <= end <= rs.len()
            &&& rs.subrange(start as int, end as int) == turn_rows(
                t,
                num,
                session.expanded_groups@,
                w,
                bake,
            )
            &&& turn_start(session, width, bake, session.timeline.turns@.len() as int) == rs.len()
        }),
{
    let w = drawn_width(width) as nat;
    let n = session.timeline.turns@.len() as int;
    let head = match banner(session) {
        Some(row) => seq![row],
        None => Seq::empty(),
    };
    let before = turns_rows(session, i, w, bake);
    let here = turn_rows(
        session.timeline.turns@[i],
        session.timeline.number(i),
        session.expanded_groups@,
        w,
        bake,
    );
    let after = lemma_turns_tail(session, i + 1, n, w, bake);
    let none = Seq::<Seq<SpanView>>::empty();
    assert(transcript_rows(session, width, bake) == head + turns_rows(session, n, w, bake) + none);
    assert(turns_rows(session, n, w, bake) == before + here + after);
    lemma_part(head, before, here, after, none);
    assert(session.timeline.number(i) == session.timeline.dropped_turns + i + 1);
}

proof fn lemma_part<A>(a: Seq<A>, b: Seq<A>, c: Seq<A>, d: Seq<A>, e: Seq<A>)
    ensures
        ({
            let all = a + (b + c + d) + e;
            let at = (a.len() + b.len()) as int;
            &&& all.len() == a.len() + b.len() + c.len() + d.len() + e.len()
            &&& all.subrange(at, at + c.len()) == c
        }),
{
    let all = a + (b + c + d) + e;
    let at = (a.len() + b.len()) as int;
    assert(all.subrange(at, at + c.len()) =~= c);
}

/// The line at which turn `i` begins.
pub open spec fn turn_start(session: SessionState, width: u16, bake: Option<u64>, i: int) -> nat {
    turns_rows(session, i, drawn_width(width) as nat, bake).len() + if banner(session) is Some {
        1nat
    } else {
        0
    }
}

proof fn lemma_turns_tail(session: SessionState, i: int, n: int, width: nat, bake: Option<u64>)
    -> (tail: Seq<Seq<SpanView>>)
    requires
        0 <= i <= n,
    ensures
        turns_rows(session, n, width, bake) == turns_rows(session, i, width, bake) + tail,
    decreases n - i,
{
    let a = turns_rows(session, i, width, bake);
    if i < n {
        let t = lemma_turns_tail(session, i, n - 1, width, bake);
        let last = turn_rows(
            session.timeline.turns@[n - 1],
            session.timeline.number(n - 1),
            session.expanded_groups@,
            width,
            bake,
        );
        assert(a + t + last =~= a + (t + last));
        t + last
    } else {
        assert(a + Seq::<Seq<SpanView>>::empty() =~= a);
        Seq::empty()
    }
}

/// A turn is drawn as what precedes its blocks, its items one after the other,
/// and what follows them; item `k` stands behind the items before it.
pub proof fn law_every_item_is_drawn(
    turn: Turn,
    num: u64,
    groups: Seq<(String, u32)>,
    width: nat,
    bake: Option<u64>,
    k: int,
)
    requires
        0 <= k < turn_items(turn, groups).len(),
    ensures
        ({
            let rs = turn_rows(turn, num, groups, width, bake);
            let items = turn_items(turn, groups);
            let pre = turn_pre(turn, num, width);
            let post = turn_post(turn.failure, width);
            let start = pre.len() + items_rows(items.take(k), width, bake).len();
            let end = start + item_rows(items[k], width, bake).len();
            &&& rs.take(pre.len() as int) == pre
            &&& rs.skip(rs.len() - post.len()) == post
            &&& end + post.len() <= rs.len()
            &&& rs.subrange(start as int, end as int) == item_rows(items[k], width, bake)
        }),
{
    let items = turn_items(turn, groups);
    let pre = turn_pre(turn, num, width);
    let post = turn_post(turn.failure, width);
    let before = items_rows(items.take(k), width, bake);
    let here = item_rows(items[k], width, bake);
    assert(items.take(k + 1).drop_last() =~= items.take(k));
    assert(items.take(k + 1).last() == items[k]);
    let after = lemma_items_tail(items, k + 1, width, bake);
    assert(items_rows(items, width, bake) == before + here + after);
    lemma_part(pre, before, here, after, post);
    lemma_ends(pre, before + here + after, post);
}

proof fn lemma_ends<A>(a: Seq<A>, b: Seq<A>, c: Seq<A>)
    ensures
        (a + b + c).take(a.len() as int) == a,
        (a + b + c).skip((a + b + c).len() - c.len()) == c,
{
    assert((a + b + c).take(a.len() as int) =~= a);
    assert((a + b + c).skip((a + b + c).len() - c.len()) =~= c);
}

proof fn lemma_items_tail(items: Seq<ItemView>, k: int, width: nat, bake: Option<u64>) -> (tail: Seq<
    Seq<SpanView>,
>)
    requires
        0 <= k <= items.len(),
    ensures
        items_rows(items, width, bake) == items_rows(items.take(k), width, bake) + tail,
    decreases items.len(),
{
    let a = items_rows(items.take(k), width, bake);
    if k < items.len() {
        let rest = items.drop_last();
        let t = lemma_items_tail(rest, k, width, bake);
        let last = item_rows(items.last(), width, bake);
        assert(rest.take(k) =~= items.take(k));
        assert(a + t + last =~= a + (t + last));
        t + last
    } else {
        assert(items.take(k) =~= items);
        assert(a + Seq::<Seq<SpanView>>::empty() =~= a);
        Seq::empty()
    }
}

/// The blocks of all rounds, in order.
pub open spec fn all_blocks(rounds: Seq<Round>) -> Seq<Block>
    decreases rounds.len(),
{
    if rounds.len() == 0 {
        Seq::empty()
    } else {
        all_blocks(rounds.drop_last()) + rounds.last().blocks@
    }
}

/// The blocks that are no tool cards, in order.
pub open spec fn loose_blocks(blocks: Seq<Block>) -> Seq<Block>
    decreases blocks.len(),
{
    if blocks.len() == 0 {
        Seq::empty()
    } else if groupable(blocks.last()) {
        loose_blocks(blocks.drop_last())
    } else {
        loose_blocks(blocks.drop_last()).push(blocks.last())
    }
}

/// The blocks that are shown by themselves and are no tool cards, in order.
pub open spec fn shown_loose(items: Seq<ItemView>) -> Seq<Block>
    decreases items.len(),
{
    if items.len() == 0 {
        Seq::empty()
    } else if groupable(items.last().block) || !(items.last().shown is Whole) {
        shown_loose(items.drop_last())
    } else {
        shown_loose(items.drop_last()).push(items.last().block)
    }
}

proof fn lemma_loose_add(a: Seq<Block>, b: Seq<Block>)
    ensures
        loose_blocks(a + b) == loose_blocks(a) + loose_blocks(b),
    decreases b.len(),
{
    if b.len() == 0 {
        assert(a + b =~= a);
        assert(loose_blocks(a) + loose_blocks(b) =~= loose_blocks(a));
    } else {
        assert((a + b).drop_last() =~= a + b.drop_last());
        lemma_loose_add(a, b.drop_last());
        assert(loose_blocks(a + b) =~= loose_blocks(a) + loose_blocks(b));
    }
}

proof fn lemma_shown_loose_add(a: Seq<ItemView>, b: Seq<ItemView>)
    ensures
        shown_loose(a + b) == shown_loose(a) + shown_loose(b),
    decreases b.len(),
{
    if b.len() == 0 {
        assert(a + b =~= a);
        assert(shown_loose(a) + shown_loose(b) =~= shown_loose(a));
    } else {
        assert((a + b).drop_last() =~= a + b.drop_last());
        lemma_shown_loose_add(a, b.drop_last());
        assert(shown_loose(a + b) =~= shown_loose(a) + shown_loose(b));
    }
}

proof fn lemma_shown_loose_none(items: Seq<ItemView>)
    requires
        forall|k: int| 0 <= k < items.len() ==> groupable((#[trigger] items[k]).block),
    ensures
        shown_loose(items) == Seq::<Block>::empty(),
    decreases items.len(),
{
    if items.len() > 0 {
        assert(items[items.len() - 1] == items.last());
        assert forall|k: int| 0 <= k < items.drop_last().len() implies groupable(
            (#[trigger] items.drop_last()[k]).block,
        ) by {
            assert(items[k] == items.drop_last()[k]);
        }
        lemma_shown_loose_none(items.drop_last());
    }
}

proof fn lemma_last_failed_within(g: Seq<Block>)
    ensures
        crate::plan::last_failed(g) matches Some(f) ==> 0 <= f < g.len(),
    decreases g.len(),
{
    if g.len() > 0 {
        lemma_last_failed_within(g.drop_last());
    }
}

proof fn lemma_group_not_loose(turn_id: Seq<char>, round_num: u32, g: Seq<Block>, expanded: bool)
    requires
        forall|k: int| 0 <= k < g.len() ==> groupable(#[trigger] g[k]),
    ensures
        shown_loose(group_items(turn_id, round_num, g, expanded)) == Seq::<Block>::empty(),
{
    lemma_last_failed_within(g);
    lemma_shown_loose_none(group_items(turn_id, round_num, g, expanded));
}

proof fn lemma_scan_loose(turn_id: Seq<char>, round_num: u32, blocks: Seq<Block>, expanded: bool)
    ensures
        ({
            let s = scan(turn_id, round_num, blocks, expanded);
            &&& shown_loose(s.items) == loose_blocks(blocks)
            &&& forall|k: int| 0 <= k < s.group.len() ==> groupable(#[trigger] s.group[k])
        }),
    decreases blocks.len(),
{
    if blocks.len() > 0 {
        let rest = blocks.drop_last();
        let b = blocks.last();
        lemma_scan_loose(turn_id, round_num, rest, expanded);
        let s = scan(turn_id, round_num, rest, expanded);
        if !groupable(b) {
            let g = group_items(turn_id, round_num, s.group, expanded);
            lemma_group_not_loose(turn_id, round_num, s.group, expanded);
            let one = seq![crate::plan::whole(b)];
            lemma_shown_loose_add(s.items + g, one);
            lemma_shown_loose_add(s.items, g);
            assert(one.drop_last() =~= Seq::empty());
            assert(one.last() == crate::plan::whole(b));
            assert(shown_loose(one.drop_last()) =~= Seq::empty());
            assert(shown_loose(one) =~= seq![b]);
            assert(shown_loose(s.items) + Seq::<Block>::empty() =~= shown_loose(s.items));
            assert(loose_blocks(blocks) =~= loose_blocks(rest) + seq![b]);
        }
    }
}

proof fn lemma_rounds_loose(turn_id: Seq<char>, rounds: Seq<Round>, groups: Seq<(String, u32)>)
    ensures
        shown_loose(rounds_items(turn_id, rounds, groups)) == loose_blocks(all_blocks(rounds)),
    decreases rounds.len(),
{
    if rounds.len() > 0 {
        let r = rounds.last();
        let e = unfolded(groups, turn_id, r.round_num);
        lemma_rounds_loose(turn_id, rounds.drop_last(), groups);
        lemma_scan_loose(turn_id, r.round_num, r.blocks@, e);
        let s = scan(turn_id, r.round_num, r.blocks@, e);
        let g = group_items(turn_id, r.round_num, s.group, e);
        lemma_group_not_loose(turn_id, r.round_num, s.group, e);
        lemma_shown_loose_add(s.items, g);
        assert(shown_loose(s.items) + Seq::<Block>::empty() =~= shown_loose(s.items));
        lemma_shown_loose_add(
            rounds_items(turn_id, rounds.drop_last(), groups),
            round_items(turn_id, r, e),
        );
        lemma_loose_add(all_blocks(rounds.drop_last()), r.blocks@);
    }
}

/// Every block of every round that is no tool card is shown by itself, whatever
/// is folded, and all of them in their order.
pub proof fn law_every_block_is_shown(turn: Turn, groups: Seq<(String, u32)>)
    ensures
        shown_loose(turn_items(turn, groups)) == loose_blocks(all_blocks(turn.rounds@)),
{
    lemma_rounds_loose(turn.turn_id@, turn.rounds@, groups);
}

proof fn lemma_unfolded_scan(turn_id: Seq<char>, round_num: u32, blocks: Seq<Block>)
    ensures
        ({
            let s = scan(turn_id, round_num, blocks, true);
            s.items + Seq::new(s.group.len(), |k: int| crate::plan::whole(s.group[k])) == Seq::new(
                blocks.len(),
                |k: int| crate::plan::whole(blocks[k]),
            )
        }),
    decreases blocks.len(),
{
    let s = scan(turn_id, round_num, blocks, true);
    let all = Seq::new(blocks.len(), |k: int| crate::plan::whole(blocks[k]));
    let tail = Seq::new(s.group.len(), |k: int| crate::plan::whole(s.group[k]));
    if blocks.len() > 0 {
        let rest = blocks.drop_last();
        lemma_unfolded_scan(turn_id, round_num, rest);
        let p = scan(turn_id, round_num, rest, true);
        let before = Seq::new(rest.len(), |k: int| crate::plan::whole(rest[k]));
        let ptail = Seq::new(p.group.len(), |k: int| crate::plan::whole(p.group[k]));
        assert(p.items + ptail == before);
        assert(all =~= before.push(crate::plan::whole(blocks.last())));
        if groupable(blocks.last()) {
            assert(tail =~= ptail.push(crate::plan::whole(blocks.last())));
            assert(s.items + tail =~= (p.items + ptail).push(crate::plan::whole(blocks.last())));
        } else {
            assert(group_items(turn_id, round_num, p.group, true) =~= ptail);
            assert(s.items + tail =~= (p.items + ptail).push(crate::plan::whole(blocks.last())));
        }
    } else {
        assert(s.items + tail =~= all);
    }
}

/// In a round that is unfolded every block is shown by itself, in order.
pub proof fn law_unfolded_round_shows_all(turn_id: Seq<char>, round: Round)
    ensures
        ({
            let items = round_items(turn_id, round, true);
            &&& items.len() == round.blocks@.len()
            &&& forall|k: int|
                0 <= k < items.len() ==> (#[trigger] items[k]).block == round.blocks@[k]
                    && items[k].shown is Whole
        }),
{
    lemma_unfolded_scan(turn_id, round.round_num, round.blocks@);
    let s = scan(turn_id, round.round_num, round.blocks@, true);
    let items = round_items(turn_id, round, true);
    assert(items =~= s.items + Seq::new(s.group.len(), |k: int| crate::plan::whole(s.group[k])));
}

} // verus!
