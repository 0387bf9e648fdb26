//! What a drawn tool call tells: which tool it was, how it ended, and what came
//! of it.

use crate::json::{json_doc, JsonFieldView};
use crate::render_line::{law_wrap_keeps_text, sp, wrapped, RenderStyle, SpanStyle, SpanView};
use crate::text::{blank, dec, lines, occurs, occurs_at, one_line, starts_with, truncated};
use crate::timeline::{TimelineToolBody, TimelineToolState, ToolCard};
use crate::tool_card::{
    args_preview, bare, body_rows, card_rows, card_rest, card_head, count_state, group_row,
    is_block, panel_owned, preview_part, preview_parts, prefixed_rows, shell_output, shell_tool,
    t1_row, window_rows, card_body_rows, card_diff_rows, card_tail_rows, args_rows, failure_rows,
    permission_rows, metrics_rows,
};
use crate::tool_diff::diff_rows;
use crate::transcript_laws::shown_by;
use vstd::prelude::*;

verus! {

/// The lines of `part` stand among `all`, one after the other.
pub open spec fn has_rows(all: Seq<Seq<SpanView>>, part: Seq<Seq<SpanView>>) -> bool {
    exists|at: int| #[trigger] rows_at(all, part, at)
}

/// The lines of `part` stand in `all` from line `at` on.
pub open spec fn rows_at(all: Seq<Seq<SpanView>>, part: Seq<Seq<SpanView>>, at: int) -> bool {
    0 <= at && at + part.len() <= all.len() && all.subrange(at, at + part.len()) == part
}

proof fn lemma_has_mid(a: Seq<Seq<SpanView>>, p: Seq<Seq<SpanView>>, b: Seq<Seq<SpanView>>)
    ensures
        has_rows(a + p + b, p),
{
    assert((a + p + b).subrange(a.len() as int, (a.len() + p.len()) as int) =~= p);
    assert(rows_at(a + p + b, p, a.len() as int));
}

proof fn lemma_has_self(p: Seq<Seq<SpanView>>)
    ensures
        has_rows(p, p),
{
    assert(p.subrange(0, p.len() as int) =~= p);
    assert(rows_at(p, p, 0));
}

proof fn lemma_has_left(x: Seq<Seq<SpanView>>, y: Seq<Seq<SpanView>>, p: Seq<Seq<SpanView>>)
    requires
        has_rows(x, p),
    ensures
        has_rows(x + y, p),
{
    let at = choose|at: int| #[trigger] rows_at(x, p, at);
    assert((x + y).subrange(at, at + p.len()) =~= x.subrange(at, at + p.len()));
    assert(rows_at(x + y, p, at));
}

proof fn lemma_has_right(x: Seq<Seq<SpanView>>, y: Seq<Seq<SpanView>>, p: Seq<Seq<SpanView>>)
    requires
        has_rows(y, p),
    ensures
        has_rows(x + y, p),
{
    let at = choose|at: int| #[trigger] rows_at(y, p, at);
    let to = x.len() + at;
    assert((x + y).subrange(to, to + p.len()) =~= y.subrange(at, at + p.len()));
    assert(rows_at(x + y, p, to));
}

/// What follows the head of a card stands in the card, part by part.
proof fn lemma_card_parts(tool: ToolCard, width: nat, bake: Option<u64>)
    requires
        !bare(tool),
    ensures
        ({
            let rs = card_rows(tool, width, bake);
            &&& has_rows(rs, card_diff_rows(tool, width))
            &&& has_rows(rs, failure_rows(tool, width))
            &&& has_rows(rs, permission_rows(tool))
        }),
{
    let h = card_head(tool, width, bake);
    let a = args_rows(tool, width);
    let d = card_diff_rows(tool, width);
    let b = card_body_rows(tool, width);
    let t = card_tail_rows(tool, width);
    let f = failure_rows(tool, width);
    let p = permission_rows(tool);
    let e = if is_block(tool) {
        seq![seq![sp(" ┃"@, SpanStyle::Dim)]]
    } else {
        Seq::empty()
    };
    let m = metrics_rows(tool);
    assert(t == f + p + e + m);
    assert(card_rest(tool, width) == a + d + b + t);
    assert(card_rows(tool, width, bake) == h + (a + d + b + t));
    lemma_has_self(d);
    lemma_has_right(a, d, d);
    lemma_has_left(a + d, b, d);
    lemma_has_left(a + d + b, t, d);
    lemma_has_right(h, a + d + b + t, d);
    lemma_has_self(f);
    lemma_has_left(f, p, f);
    lemma_has_left(f + p, e, f);
    lemma_has_left(f + p + e, m, f);
    lemma_has_right(a + d + b, t, f);
    lemma_has_right(h, a + d + b + t, f);
    lemma_has_self(p);
    lemma_has_right(f, p, p);
    lemma_has_left(f + p, e, p);
    lemma_has_left(f + p + e, m, p);
    lemma_has_right(a + d + b, t, p);
    lemma_has_right(h, a + d + b + t, p);
}

proof fn lemma_occurs_left(x: Seq<char>, y: Seq<char>, p: Seq<char>)
    requires
        occurs(x, p),
    ensures
        occurs(x + y, p),
{
    let at = choose|at: int| occurs_at(x, p, at);
    assert((x + y).subrange(at, at + p.len()) =~= x.subrange(at, at + p.len()));
    assert(occurs_at(x + y, p, at));
}

proof fn lemma_occurs_right(x: Seq<char>, y: Seq<char>, p: Seq<char>)
    requires
        occurs(y, p),
    ensures
        occurs(x + y, p),
{
    let at = choose|at: int| occurs_at(y, p, at);
    let to = x.len() + at;
    assert((x + y).subrange(to, to + p.len()) =~= y.subrange(at, at + p.len()));
    assert(occurs_at(x + y, p, to));
}

proof fn lemma_assoc(a: Seq<char>, b: Seq<char>, c: Seq<char>)
    ensures
        a + (b + c) == a + b + c,
{
    assert(a + (b + c) =~= a + b + c);
}

proof fn lemma_occurs_self(p: Seq<char>)
    ensures
        occurs(p, p),
{
    assert(p.subrange(0, p.len() as int) =~= p);
    assert(occurs_at(p, p, 0));
}

proof fn lemma_occurs_mid(a: Seq<char>, p: Seq<char>, b: Seq<char>)
    ensures
        occurs(a + p + b, p),
{
    assert((a + p + b).subrange(a.len() as int, (a.len() + p.len()) as int) =~= p);
    assert(occurs_at(a + p + b, p, a.len() as int));
}

/// The style that tells how a call stands; one that waits for permission warns.
pub open spec fn told_by(tool: ToolCard, style: RenderStyle) -> bool {
    style == RenderStyle::Semantic(
        if tool.permission is Some {
            SpanStyle::Warn
        } else {
            match tool.state {
                TimelineToolState::Prepared => SpanStyle::Dim,
                TimelineToolState::Running => SpanStyle::ToolRun,
                TimelineToolState::Succeeded => SpanStyle::ToolOk,
                TimelineToolState::Failed => SpanStyle::ToolFail,
                TimelineToolState::Cancelled => SpanStyle::Warn,
                TimelineToolState::Backgrounded => SpanStyle::Warn,
            }
        },
    )
}

/// The head of a card names the tool and tells by icon and style how the call
/// stands; a block card says it in a word too.
pub proof fn law_card_tells_the_state(tool: ToolCard, width: nat, bake: Option<u64>)
    ensures
        ({
            let rs = card_rows(tool, width, bake);
            let line = if is_block(tool) {
                rs[1]
            } else {
                rs[0]
            };
            &&& rs.len() >= 1
            &&& is_block(tool) ==> rs.len() >= 2
            &&& line.len() >= 3
            &&& line[2].text == tool.name@
            &&& told_by(tool, line[1].style)
            &&& tool.state is Succeeded ==> line[1].text == seq!['●', ' ']
            &&& tool.state is Failed ==> line[1].text == seq!['✗', ' ']
            &&& tool.state is Cancelled ==> line[1].text == seq!['⊘', ' ']
            &&& tool.state is Backgrounded ==> line[1].text == seq!['◐', ' ']
            &&& is_block(tool) ==> {
                &&& line.len() >= 4
                &&& told_by(tool, line[3].style)
                &&& starts_with(rs[0][1].text, seq!['#', ' '] + tool.name@)
                &&& line[3].text == seq![' '] + match tool.state {
                    TimelineToolState::Running => seq!['r', 'u', 'n', 'n', 'i', 'n', 'g'],
                    TimelineToolState::Succeeded => seq![
                        'c',
                        'o',
                        'm',
                        'p',
                        'l',
                        'e',
                        't',
                        'e',
                        'd',
                    ],
                    TimelineToolState::Failed => seq!['f', 'a', 'i', 'l', 'e', 'd'],
                    TimelineToolState::Prepared => seq!['p', 'r', 'e', 'p', 'a', 'r', 'e', 'd'],
                    TimelineToolState::Cancelled => seq![
                        'c',
                        'a',
                        'n',
                        'c',
                        'e',
                        'l',
                        'l',
                        'e',
                        'd',
                    ],
                    TimelineToolState::Backgrounded => seq![
                        'b',
                        'a',
                        'c',
                        'k',
                        'g',
                        'r',
                        'o',
                        'u',
                        'n',
                        'd',
                        'e',
                        'd',
                    ],
                }
            }
        }),
{
    let rs = card_rows(tool, width, bake);
    let head = card_head(tool, width, bake);
    let line = if is_block(tool) {
        rs[1]
    } else {
        rs[0]
    };
    assert(rs[0] == head[0]);
    if is_block(tool) {
        assert(rs[1] == head[1]);
    }
    reveal_strlit("●");
    reveal_strlit("✗");
    reveal_strlit("⊘");
    reveal_strlit("◐");
    reveal_strlit(" ");
    if tool.state is Succeeded {
        assert(line[1].text =~= seq!['●', ' ']);
    }
    if tool.state is Failed {
        assert(line[1].text =~= seq!['✗', ' ']);
    }
    if tool.state is Cancelled {
        assert(line[1].text =~= seq!['⊘', ' ']);
    }
    if tool.state is Backgrounded {
        assert(line[1].text =~= seq!['◐', ' ']);
    }
    if is_block(tool) {
        reveal_strlit("# ");
        let name = seq!['#', ' '] + tool.name@;
        assert("# "@ + tool.name@ =~= name);
        assert(rs[0][1].text.take(name.len() as int) =~= name);
        reveal_strlit(" running");
        reveal_strlit(" completed");
        reveal_strlit(" failed");
        reveal_strlit(" prepared");
        reveal_strlit(" cancelled");
        reveal_strlit(" backgrounded");
        match tool.state {
            TimelineToolState::Running => {
                assert(line[3].text =~= seq![' '] + seq!['r', 'u', 'n', 'n', 'i', 'n', 'g']);
            },
            TimelineToolState::Succeeded => {
                assert(line[3].text =~= seq![' '] + seq![
                    'c',
                    'o',
                    'm',
                    'p',
                    'l',
                    'e',
                    't',
                    'e',
                    'd',
                ]);
            },
            TimelineToolState::Failed => {
                assert(line[3].text =~= seq![' '] + seq!['f', 'a', 'i', 'l', 'e', 'd']);
            },
            TimelineToolState::Prepared => {
                assert(line[3].text =~= seq![' '] + seq!['p', 'r', 'e', 'p', 'a', 'r', 'e', 'd']);
            },
            TimelineToolState::Cancelled => {
                assert(line[3].text =~= seq![' '] + seq![
                    'c',
                    'a',
                    'n',
                    'c',
                    'e',
                    'l',
                    'l',
                    'e',
                    'd',
                ]);
            },
            TimelineToolState::Backgrounded => {
                assert(line[3].text =~= seq![' '] + seq![
                    'b',
                    'a',
                    'c',
                    'k',
                    'g',
                    'r',
                    'o',
                    'u',
                    'n',
                    'd',
                    'e',
                    'd',
                ]);
            },
        }
    }
}

/// Lines that show a failure whole: each a mark and a part of "code: message".
pub open spec fn failure_shown(tool: ToolCard, part: Seq<Seq<SpanView>>) -> bool {
    &&& shown_by(
        tool.failure->0.code@ + seq![':', ' '] + tool.failure->0.message@,
        Seq::new(part.len(), |i: int| part[i][1].text),
    )
    &&& forall|i: int|
        0 <= i < part.len() ==> (#[trigger] part[i]).len() == 2 && part[i][0].text.contains('✗')
            && part[i][1].style == RenderStyle::Semantic(SpanStyle::Error)
}

/// A card with more than its head shows why the call failed, all of it.
pub proof fn law_card_shows_the_failure(tool: ToolCard, width: nat, bake: Option<u64>)
    requires
        tool.failure is Some,
        !bare(tool),
    ensures
        exists|part: Seq<Seq<SpanView>>| #[trigger]
            has_rows(card_rows(tool, width, bake), part) && failure_shown(tool, part),
{
    lemma_failure_rows(tool, width);
    lemma_card_parts(tool, width, bake);
}

proof fn lemma_failure_rows(tool: ToolCard, width: nat)
    requires
        tool.failure is Some,
    ensures
        failure_shown(tool, failure_rows(tool, width)),
{
    let f = tool.failure->0;
    let part = failure_rows(tool, width);
    let w = if width >= 6 {
        (width - 6) as nat
    } else {
        0
    };
    reveal_strlit(": ");
    reveal_strlit(" ┃ ✗ ");
    reveal_strlit("    ✗ ");
    assert(": "@ =~= seq![':', ' ']);
    assert(" ┃ ✗ "@[3] == '✗');
    assert("    ✗ "@[4] == '✗');
    let text = f.code@ + seq![':', ' '] + f.message@;
    law_wrap_keeps_text(text, w);
    assert(Seq::new(part.len(), |i: int| part[i][1].text) =~= wrapped(text, w));
}

/// An inline card says at the end of its head why the call failed, unless a
/// permission is waited for, which it says instead.
pub proof fn law_inline_card_ends_with_the_failure(tool: ToolCard, width: nat, bake: Option<u64>)
    requires
        !is_block(tool),
    ensures
        ({
            let end = card_rows(tool, width, bake)[0].last();
            &&& tool.permission is Some ==> end.style == RenderStyle::Semantic(SpanStyle::Warn)
                && end.text.contains('⚠')
            &&& tool.permission is None && tool.failure is Some ==> end == sp(
                seq![' ', '✗', ' '] + truncated(tool.failure->0.message@, 28),
                SpanStyle::ToolFail,
            )
        }),
{
    reveal_strlit(" ✗ ");
    reveal_strlit(" ⚠ 需授权");
    assert(" ✗ "@ =~= seq![' ', '✗', ' ']);
    assert(" ⚠ 需授权"@[1] == '⚠');
    let alert = crate::tool_card::inline_alert(tool);
    let head = crate::tool_card::inline_head(tool, bake);
    assert(card_rows(tool, width, bake)[0] == head);
    let x = choose|x: Seq<SpanView>| head == x + alert;
    assert(head == x + alert);
    if alert.len() > 0 {
        assert((x + alert).last() == alert.last());
    }
}

/// A card shows the diff of its call: the projected one, or else its own.
pub proof fn law_card_shows_the_diff(tool: ToolCard, width: nat, bake: Option<u64>)
    requires
        !bare(tool),
    ensures
        ({
            let rs = card_rows(tool, width, bake);
            let body = match tool.display {
                Some(d) => d.body,
                None => None,
            };
            &&& (body matches Some(TimelineToolBody::Diff { unified, .. }) ==> has_rows(
                rs,
                diff_rows(unified@, is_block(tool), width),
            ))
            &&& !(body matches Some(TimelineToolBody::Diff { .. })) && tool.diff is Some ==> has_rows(
                rs,
                diff_rows(tool.diff->0@, is_block(tool), width),
            )
        }),
{
    lemma_card_parts(tool, width, bake);
}

/// A call with a diff of its own is drawn as a block, and so with its diff.
pub proof fn law_diff_makes_a_block(tool: ToolCard)
    requires
        tool.diff is Some,
        !blank(tool.diff->0@),
    ensures
        is_block(tool),
        !bare(tool),
{
}

/// Lines of text, each whole behind a prefix.
pub open spec fn lines_drawn(
    groups: Seq<Seq<Seq<SpanView>>>,
    texts: Seq<Seq<char>>,
    prefix: Seq<char>,
) -> bool {
    &&& groups.len() == texts.len()
    &&& forall|i: int| 0 <= i < texts.len() ==> line_drawn(#[trigger] groups[i], texts[i], prefix)
}

/// A line of text, whole behind a prefix.
pub open spec fn line_drawn(g: Seq<Seq<SpanView>>, text: Seq<char>, prefix: Seq<char>) -> bool {
    &&& shown_by(text, Seq::new(g.len(), |k: int| g[k][1].text))
    &&& forall|k: int| 0 <= k < g.len() ==> (#[trigger] g[k]).len() == 2 && g[k][0].text == prefix
}

/// Groups of lines one after the other.
pub open spec fn flat_rows(groups: Seq<Seq<Seq<SpanView>>>) -> Seq<Seq<SpanView>>
    decreases groups.len(),
{
    if groups.len() == 0 {
        Seq::empty()
    } else {
        flat_rows(groups.drop_last()) + groups.last()
    }
}

proof fn lemma_flat_push(g: Seq<Seq<Seq<SpanView>>>, x: Seq<Seq<SpanView>>)
    ensures
        flat_rows(g.push(x)) == flat_rows(g) + x,
{
    assert(g.push(x).drop_last() =~= g);
}

proof fn lemma_line(text: Seq<char>, prefix: Seq<char>, width: nat)
    ensures
        line_drawn(
            prefixed_rows(wrapped(text, width), prefix, SpanStyle::Dim, SpanStyle::Dim),
            text,
            prefix,
        ),
{
    let g = prefixed_rows(wrapped(text, width), prefix, SpanStyle::Dim, SpanStyle::Dim);
    law_wrap_keeps_text(text, width);
    assert(Seq::new(g.len(), |k: int| g[k][1].text) =~= wrapped(text, width));
}

proof fn lemma_window_plain(
    all: Seq<Seq<char>>,
    running: bool,
    prefix: Seq<char>,
    width: nat,
    n: nat,
    base: int,
) -> (groups: Seq<Seq<Seq<SpanView>>>)
    requires
        n <= 6,
        running || all.len() <= 6,
        base == if running && all.len() > 6 {
            all.len() - 6
        } else {
            0
        },
        base + n <= all.len(),
    ensures
        lines_drawn(groups, all.subrange(base, base + n), prefix),
        flat_rows(groups) == window_rows(all, running, prefix, width, n),
    decreases n,
{
    if n == 0 {
        Seq::empty()
    } else {
        let before = lemma_window_plain(all, running, prefix, width, (n - 1) as nat, base);
        let text = all[base + n - 1];
        lemma_line(text, prefix, width);
        let g = prefixed_rows(wrapped(text, width), prefix, SpanStyle::Dim, SpanStyle::Dim);
        lemma_flat_push(before, g);
        let groups = before.push(g);
        let part = all.subrange(base, base + n);
        assert forall|i: int| 0 <= i < part.len() implies line_drawn(
            #[trigger] groups[i],
            part[i],
            prefix,
        ) by {
            if i < n - 1 {
                assert(groups[i] == before[i]);
                assert(part[i] == all.subrange(base, base + n - 1)[i]);
            }
        }
        let w = window_rows(all, running, prefix, width, (n - 1) as nat);
        assert(w + Seq::<Seq<SpanView>>::empty() + g =~= w + g);
        groups
    }
}

/// The last lines, at most six.
pub open spec fn last_lines(all: Seq<Seq<char>>) -> Seq<Seq<char>> {
    if all.len() <= 6 {
        all
    } else {
        all.skip(all.len() - 6)
    }
}

/// A body of at most six lines is shown whole; that of a running call by its last
/// six lines.
pub proof fn law_short_body_is_whole(text: Seq<char>, running: bool, prefix: Seq<char>, width: nat)
    requires
        running || lines(text).len() <= 6,
    ensures
        exists|groups: Seq<Seq<Seq<SpanView>>>|
            #[trigger] lines_drawn(groups, last_lines(lines(text)), prefix) && flat_rows(groups)
                == body_rows(text, running, prefix, width),
{
    let all = lines(text);
    let n: nat = if all.len() <= 6 {
        all.len()
    } else {
        6
    };
    let base = all.len() - n;
    let groups = lemma_window_plain(all, running, prefix, width, n, base);
    assert(all.subrange(base, base + n) =~= last_lines(all));
    assert(lines_drawn(groups, last_lines(all), prefix));
}

/// A longer body of a call that is over is shown by its first three and its last
/// three lines, and between them a line counts the others.
pub proof fn law_long_body_shows_its_ends(text: Seq<char>, prefix: Seq<char>, width: nat)
    requires
        6 < lines(text).len() <= usize::MAX,
    ensures
        ({
            let all = lines(text);
            exists|a: Seq<Seq<Seq<SpanView>>>, fold: Seq<SpanView>, b: Seq<Seq<Seq<SpanView>>>|
                #[trigger] folded_body(all, prefix, a, fold, b) && body_rows(
                    text,
                    false,
                    prefix,
                    width,
                ) == flat_rows(a) + seq![fold] + flat_rows(b)
        }),
{
    let all = lines(text);
    let n = all.len() as int;
    let row = |i: int| prefixed_rows(wrapped(all[i], width), prefix, SpanStyle::Dim, SpanStyle::Dim);
    let fold = crate::tool_card::fold_row(prefix, (n - 6) as nat);
    let none = Seq::<Seq<SpanView>>::empty();
    let e = Seq::<Seq<Seq<SpanView>>>::empty();
    let a = e.push(row(0)).push(row(1)).push(row(2));
    let b = e.push(row(n - 3)).push(row(n - 2)).push(row(n - 1));
    lemma_line(all[0], prefix, width);
    lemma_line(all[1], prefix, width);
    lemma_line(all[2], prefix, width);
    lemma_line(all[n - 3], prefix, width);
    lemma_line(all[n - 2], prefix, width);
    lemma_line(all[n - 1], prefix, width);
    lemma_flat_push(e, row(0));
    lemma_flat_push(e.push(row(0)), row(1));
    lemma_flat_push(e.push(row(0)).push(row(1)), row(2));
    lemma_flat_push(e, row(n - 3));
    lemma_flat_push(e.push(row(n - 3)), row(n - 2));
    lemma_flat_push(e.push(row(n - 3)).push(row(n - 2)), row(n - 1));
    assert(flat_rows(e) =~= none);
    lemma_occurs_mid("…折叠 "@, dec((n - 6) as nat), " 行…"@);
    let w3 = window_rows(all, false, prefix, width, 3);
    reveal_with_fuel(window_rows, 7);
    lemma_join(none, none, row(0), row(1), row(2));
    lemma_join(w3, seq![fold], row(n - 3), row(n - 2), row(n - 1));
    assert(none + none + (none + row(0) + row(1) + row(2)) =~= none + row(0) + row(1) + row(2));
    assert(w3 == none + row(0) + row(1) + row(2));
    assert(a.len() == 3 && b.len() == 3);
    assert forall|i: int| 0 <= i < 3 implies line_drawn(#[trigger] a[i], all.take(3)[i], prefix) by {
        assert(i == 0 || i == 1 || i == 2);
    }
    assert forall|i: int| 0 <= i < 3 implies line_drawn(
        #[trigger] b[i],
        all.skip(n - 3)[i],
        prefix,
    ) by {
        assert(i == 0 || i == 1 || i == 2);
    }
    assert(folded_body(all, prefix, a, fold, b));
}

proof fn lemma_join(
    w: Seq<Seq<SpanView>>,
    f: Seq<Seq<SpanView>>,
    x: Seq<Seq<SpanView>>,
    y: Seq<Seq<SpanView>>,
    z: Seq<Seq<SpanView>>,
)
    ensures
        ({
            let none = Seq::<Seq<SpanView>>::empty();
            ((w + f + x) + none + y) + none + z == w + f + (none + x + y + z)
        }),
{
    let none = Seq::<Seq<SpanView>>::empty();
    assert(((w + f + x) + none + y) + none + z =~= w + f + (none + x + y + z));
}

/// The ends of a body and the line between them.
pub open spec fn folded_body(
    all: Seq<Seq<char>>,
    prefix: Seq<char>,
    a: Seq<Seq<Seq<SpanView>>>,
    fold: Seq<SpanView>,
    b: Seq<Seq<Seq<SpanView>>>,
) -> bool {
    &&& lines_drawn(a, all.take(3), prefix)
    &&& lines_drawn(b, all.skip(all.len() - 3), prefix)
    &&& fold.len() == 2
    &&& occurs(fold[1].text, dec((all.len() - 6) as nat))
}

/// What the card of a call that is over shows as its body: the projected output
/// or text; without one the output of a command result, or the output itself.
pub open spec fn result_of(tool: ToolCard, text: Seq<char>) -> bool {
    let body = match tool.display {
        Some(d) => d.body,
        None => None,
    };
    if shell_tool(tool.name@) {
        match body {
            Some(TimelineToolBody::Shell { output, .. }) => text == output@,
            None => tool.output matches Some(o) && match shell_output(o@) {
                Some(s) => text == s,
                None => blank(tool.progress@) && text == o@,
            },
            _ => false,
        }
    } else {
        &&& tool.progress@.len() == 0
        &&& match body {
            Some(TimelineToolBody::Text { text: t, .. }) => text == t@,
            None => tool.output matches Some(o) && text == o@,
            _ => false,
        }
    }
}

/// The card of a call that is over shows what came of it, unless a panel of its
/// own does.
pub proof fn law_card_shows_the_result(tool: ToolCard, width: nat, bake: Option<u64>, text: Seq<char>)
    requires
        !(tool.state is Running),
        !bare(tool),
        !panel_owned(tool.name@) || tool.failure is Some,
        result_of(tool, text),
        !blank(text),
    ensures
        has_rows(
            card_rows(tool, width, bake),
            body_rows(
                text,
                false,
                if is_block(tool) {
                    seq![' ', '┃', ' ', '│', ' ']
                } else {
                    seq![' ', ' ', ' ', ' ', '│', ' ']
                },
                if width >= 6 {
                    (width - 6) as nat
                } else {
                    0
                },
            ),
        ),
{
    reveal_strlit(" ┃ │ ");
    reveal_strlit("    │ ");
    assert(" ┃ │ "@ =~= seq![' ', '┃', ' ', '│', ' ']);
    assert("    │ "@ =~= seq![' ', ' ', ' ', ' ', '│', ' ']);
    let edge = if is_block(tool) {
        seq![' ', '┃', ' ', '│', ' ']
    } else {
        seq![' ', ' ', ' ', ' ', '│', ' ']
    };
    let w = if width >= 6 {
        (width - 6) as nat
    } else {
        0
    };
    let part = body_rows(text, false, edge, w);
    let all = card_body_rows(tool, width);
    let more = all.skip(part.len() as int);
    let none = Seq::<char>::empty();
    if shell_tool(tool.name@) {
        assert(crate::tool_card::shell_source(tool).0 == text);
    } else {
        assert(text + tool.progress@ =~= text);
        assert(crate::tool_card::text_source(tool) == text);
    }
    assert(all.len() >= part.len());
    assert(all =~= part + more);
    lemma_has_self(part);
    lemma_has_left(part, more, part);
    let h = card_head(tool, width, bake);
    let x = args_rows(tool, width) + card_diff_rows(tool, width);
    let t = card_tail_rows(tool, width);
    lemma_has_right(x, all, part);
    lemma_has_left(x + all, t, part);
    lemma_has_right(h, x + all + t, part);
}

/// A call that waits for permission says for what and how risky that is.
pub proof fn law_card_asks_for_permission(tool: ToolCard, width: nat, bake: Option<u64>)
    requires
        !bare(tool),
        tool.permission is Some,
    ensures
        exists|line: Seq<SpanView>|
            {
                &&& #[trigger] has_rows(card_rows(tool, width, bake), seq![line])
                &&& line.len() == 2
                &&& line[1].style == RenderStyle::Semantic(SpanStyle::Warn)
                &&& occurs(line[1].text, tool.permission->0.category@)
                &&& occurs(line[1].text, tool.permission->0.risk@)
            },
{
    let p = tool.permission->0;
    let part = permission_rows(tool);
    let line = part[0];
    assert(part =~= seq![line]);
    lemma_card_parts(tool, width, bake);
    let x = "等待权限："@;
    let y = "（risk "@;
    let z = "）"@;
    let t = line[1].text;
    assert(t == x + p.category@ + y + p.risk@ + z);
    lemma_occurs_self(p.category@);
    lemma_occurs_right(x, p.category@, p.category@);
    lemma_occurs_left(x + p.category@, y, p.category@);
    lemma_occurs_left(x + p.category@ + y, p.risk@, p.category@);
    lemma_occurs_left(x + p.category@ + y + p.risk@, z, p.category@);
    lemma_occurs_mid(x + p.category@ + y, p.risk@, z);
}

/// How many of the states are `want`.
pub open spec fn how_many(states: Seq<TimelineToolState>, want: TimelineToolState) -> nat {
    states.filter(|s: TimelineToolState| s == want).len()
}

proof fn lemma_how_many(states: Seq<TimelineToolState>, want: TimelineToolState)
    ensures
        count_state(states, want) == how_many(states, want),
    decreases states.len(),
{
    reveal(Seq::filter);
    if states.len() > 0 {
        lemma_how_many(states.drop_last(), want);
    }
}

/// The line of folded calls counts them, and how many ended well, failed, were
/// cancelled or still run.
pub proof fn law_folded_line_counts(states: Seq<TimelineToolState>, expanded: bool)
    ensures
        ({
            let line = group_row(states, expanded);
            let t = line[0].text;
            let ok = how_many(states, TimelineToolState::Succeeded);
            let bad = how_many(states, TimelineToolState::Failed);
            let off = how_many(states, TimelineToolState::Cancelled);
            let on = how_many(states, TimelineToolState::Running);
            &&& line.len() == 1
            &&& occurs(t, dec(states.len()) + seq![' ', 't', 'o', 'o', 'l'])
            &&& ok > 0 ==> occurs(t, dec(ok) + seq!['✓'])
            &&& bad > 0 ==> occurs(t, dec(bad) + seq!['✗'])
            &&& off > 0 ==> occurs(t, dec(off) + seq!['⊘'])
            &&& on > 0 ==> occurs(t, dec(on) + seq![' ', '运', '行', '中'])
        }),
{
    let t = group_row(states, expanded)[0].text;
    lemma_how_many(states, TimelineToolState::Succeeded);
    lemma_how_many(states, TimelineToolState::Failed);
    lemma_how_many(states, TimelineToolState::Cancelled);
    lemma_how_many(states, TimelineToolState::Running);
    let ok = how_many(states, TimelineToolState::Succeeded);
    let bad = how_many(states, TimelineToolState::Failed);
    let off = how_many(states, TimelineToolState::Cancelled);
    let on = how_many(states, TimelineToolState::Running);
    reveal_strlit(" tool calls");
    reveal_strlit("✓");
    reveal_strlit("✗");
    reveal_strlit("⊘");
    reveal_strlit(" 运行中");
    assert("✓"@ =~= seq!['✓']);
    assert("✗"@ =~= seq!['✗']);
    assert("⊘"@ =~= seq!['⊘']);
    assert(" 运行中"@ =~= seq![' ', '运', '行', '中']);
    let h = "  ┃ ⚙ "@;
    let c = crate::tool_card::counted(ok, "✓"@);
    let d = crate::tool_card::counted(bad, "✗"@);
    let e = crate::tool_card::counted(off, "⊘"@);
    let f = crate::tool_card::counted(on, " 运行中"@);
    let dot = " · "@;
    let end = if expanded {
        "F7 收起"@
    } else {
        "F7 展开"@
    };
    let k = dec(states.len());
    let n = k + seq![' ', 't', 'o', 'o', 'l'];
    let head = h + k + " tool calls"@;
    assert(t == head + c + d + e + f + dot + end);
    let cs = " tool calls"@.skip(5);
    assert(head =~= h + n + cs);
    lemma_occurs_mid(h, n, cs);
    lemma_counted(ok, seq!['✓']);
    lemma_counted(bad, seq!['✗']);
    lemma_counted(off, seq!['⊘']);
    lemma_counted(on, seq![' ', '运', '行', '中']);
    lemma_tail(head, c, d, e, f, dot, end, n);
    let p = dec(ok) + seq!['✓'];
    if ok > 0 {
        lemma_occurs_right(head, c, p);
        lemma_tail(head + c, Seq::empty(), d, e, f, dot, end, p);
        assert(head + c + Seq::<char>::empty() =~= head + c);
    }
    let p = dec(bad) + seq!['✗'];
    if bad > 0 {
        lemma_occurs_right(head + c, d, p);
        lemma_occurs_left(head + c + d, e, p);
        lemma_occurs_left(head + c + d + e, f, p);
        lemma_occurs_left(head + c + d + e + f, dot, p);
        lemma_occurs_left(head + c + d + e + f + dot, end, p);
    }
    let p = dec(off) + seq!['⊘'];
    if off > 0 {
        lemma_occurs_right(head + c + d, e, p);
        lemma_occurs_left(head + c + d + e, f, p);
        lemma_occurs_left(head + c + d + e + f, dot, p);
        lemma_occurs_left(head + c + d + e + f + dot, end, p);
    }
    let p = dec(on) + seq![' ', '运', '行', '中'];
    if on > 0 {
        lemma_occurs_right(head + c + d + e, f, p);
        lemma_occurs_left(head + c + d + e + f, dot, p);
        lemma_occurs_left(head + c + d + e + f + dot, end, p);
    }
}

proof fn lemma_counted(n: nat, mark: Seq<char>)
    ensures
        n > 0 ==> occurs(crate::tool_card::counted(n, mark), dec(n) + mark),
{
    let p = dec(n) + mark;
    lemma_occurs_self(p);
    lemma_occurs_right(" · "@, p, p);
    lemma_assoc(" · "@, dec(n), mark);
}

proof fn lemma_tail(
    a: Seq<char>,
    c: Seq<char>,
    d: Seq<char>,
    e: Seq<char>,
    f: Seq<char>,
    g: Seq<char>,
    h: Seq<char>,
    p: Seq<char>,
)
    requires
        occurs(a, p),
    ensures
        occurs(a + c + d + e + f + g + h, p),
{
    lemma_occurs_left(a, c, p);
    lemma_occurs_left(a + c, d, p);
    lemma_occurs_left(a + c + d, e, p);
    lemma_occurs_left(a + c + d + e, f, p);
    lemma_occurs_left(a + c + d + e + f, g, p);
    lemma_occurs_left(a + c + d + e + f + g, h, p);
}

/// A one-line call names its tool and then its summary, or else its arguments.
pub proof fn law_one_line_call_is_named(
    name: Seq<char>,
    args: Option<Seq<char>>,
    summary: Option<Seq<char>>,
)
    ensures
        ({
            let line = t1_row(name, args, summary);
            let t = line[0].text;
            &&& line.len() == 1
            &&& occurs(t, name)
            &&& (summary matches Some(s) ==> (s.len() > 0 ==> occurs(t, one_line(s))))
            &&& (args matches Some(a) ==> (summary is None ==> occurs(
                t,
                args_preview(json_doc(a), a),
            )))
        }),
{
    let t = t1_row(name, args, summary)[0].text;
    let h = "  "@ + crate::tool_card::icon_of(name) + " "@;
    let none = Seq::<char>::empty();
    let dot = " · "@;
    let tail = t.skip((h.len() + name.len()) as int);
    assert(t =~= h + name + tail);
    lemma_occurs_mid(h, name, tail);
    if let Some(s) = summary {
        if s.len() > 0 {
            assert(t =~= (h + name + dot) + one_line(s) + none);
            lemma_occurs_mid(h + name + dot, one_line(s), none);
        }
    } else if let Some(a) = args {
        let p = args_preview(json_doc(a), a);
        if p.len() > 0 {
            assert(t =~= (h + name + dot) + p + none);
            lemma_occurs_mid(h + name + dot, p, none);
        } else {
            assert(t =~= t + p + none);
            lemma_occurs_mid(t, p, none);
        }
    }
}

/// A member of the arguments is previewed as "key=value", but for paths, empty
/// texts and nested values.
pub proof fn law_member_is_previewed(key: Seq<char>, field: JsonFieldView)
    requires
        key != seq!['p', 'a', 't', 'h'],
        key != seq!['f', 'i', 'l', 'e', 'P', 'a', 't', 'h'],
        key != seq!['f', 'i', 'l', 'e', '_', 'p', 'a', 't', 'h'],
    ensures
        ({
            let p = preview_part(key, field);
            &&& (field matches JsonFieldView::Text(s) ==> p == if s.len() > 0 {
                Some(
                    key + seq!['='] + if s.len() <= 40 {
                        s
                    } else {
                        s.take(40).push('…')
                    },
                )
            } else {
                None
            })
            &&& (field matches JsonFieldView::Number(n) ==> p == Some(key + seq!['='] + n))
            &&& (field matches JsonFieldView::Bool(b) ==> p == Some(
                key + seq!['='] + if b {
                    seq!['t', 'r', 'u', 'e']
                } else {
                    seq!['f', 'a', 'l', 's', 'e']
                },
            ))
            &&& field is Null || field is Nested ==> p is None
        }),
{
    reveal_strlit("path");
    reveal_strlit("filePath");
    reveal_strlit("file_path");
    reveal_strlit("=");
    reveal_strlit("true");
    reveal_strlit("false");
    assert("path"@ =~= seq!['p', 'a', 't', 'h']);
    assert("filePath"@ =~= seq!['f', 'i', 'l', 'e', 'P', 'a', 't', 'h']);
    assert("file_path"@ =~= seq!['f', 'i', 'l', 'e', '_', 'p', 'a', 't', 'h']);
    assert("="@ =~= seq!['=']);
    assert("true"@ =~= seq!['t', 'r', 'u', 'e']);
    assert("false"@ =~= seq!['f', 'a', 'l', 's', 'e']);
}

/// At most `room` members are previewed: the first that can be, in order.
pub proof fn law_first_members_are_previewed(
    fields: Seq<(Seq<char>, JsonFieldView)>,
    room: nat,
    i: int,
)
    requires
        0 <= i < preview_parts(fields, room).len(),
    ensures
        preview_parts(fields, room).len() <= room,
        exists|k: int|
            i <= k < fields.len() && preview_part((#[trigger] fields[k]).0, fields[k].1) == Some(
                preview_parts(fields, room)[i],
            ),
    decreases fields.len(),
{
    let rest = fields.drop_first();
    match preview_part(fields[0].0, fields[0].1) {
        Some(p) => {
            lemma_preview_room(rest, (room - 1) as nat);
            if i > 0 {
                law_first_members_are_previewed(rest, (room - 1) as nat, i - 1);
                let r = preview_parts(rest, (room - 1) as nat);
                let k = choose|k: int|
                    i - 1 <= k < rest.len() && preview_part((#[trigger] rest[k]).0, rest[k].1) == Some(
                        r[i - 1],
                    );
                assert(fields[k + 1] == rest[k]);
            } else {
                assert(fields[0] == fields[0]);
            }
        },
        None => {
            law_first_members_are_previewed(rest, room, i);
            let k = choose|k: int|
                i <= k < rest.len() && preview_part((#[trigger] rest[k]).0, rest[k].1) == Some(
                    preview_parts(rest, room)[i],
                );
            assert(fields[k + 1] == rest[k]);
        },
    }
}

proof fn lemma_preview_room(fields: Seq<(Seq<char>, JsonFieldView)>, room: nat)
    ensures
        preview_parts(fields, room).len() <= room,
    decreases fields.len(),
{
    if fields.len() > 0 && room > 0 {
        lemma_preview_room(fields.drop_first(), (room - 1) as nat);
        lemma_preview_room(fields.drop_first(), room);
    }
}

} // verus!
