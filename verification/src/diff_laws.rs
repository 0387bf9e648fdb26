//! What a drawn diff tells: what was added, what was removed, and where.

use crate::render_line::{sp, RenderStyle, SpanStyle, SpanView};
use crate::text::{
    blank, dec, lines, occurs, occurs_at, starts_with, trim, trim_end, trim_start, truncated, upto,
    lemma_upto_is, white_space,
};
use crate::tool_diff::{
    diff_rows, digits_value, hunk_start, number, next_word, pad_left, pad_right, split_line,
    split_rows, split_start, strip_leading, unified_line, unified_rows, word_len, pair_rows,
    pair_count, file_header, SplitModel,
};
use vstd::prelude::*;

verus! {

/// A line that was added: it begins with a plus, but not with three.
pub open spec fn is_added(l: Seq<char>) -> bool {
    l.len() > 0 && l[0] == '+' && !(l.len() >= 3 && l[1] == '+' && l[2] == '+')
}

/// A line that was removed: it begins with a minus, but not with three.
pub open spec fn is_removed(l: Seq<char>) -> bool {
    l.len() > 0 && l[0] == '-' && !(l.len() >= 3 && l[1] == '-' && l[2] == '-')
}

/// A line that is in both: it begins with none of the marks and holds something.
pub open spec fn is_context(l: Seq<char>) -> bool {
    l.len() > 0 && l[0] != '+' && l[0] != '-' && l[0] != '@' && !blank(l)
}

proof fn lemma_kinds(l: Seq<char>)
    ensures
        is_added(l) ==> !file_header(l) && !starts_with(l, "@@"@) && crate::tool_diff::headed(l, '+'),
        is_removed(l) ==> !file_header(l) && !starts_with(l, "@@"@) && crate::tool_diff::headed(
            l,
            '-',
        ) && !crate::tool_diff::headed(l, '+'),
        is_context(l) ==> !file_header(l) && !starts_with(l, "@@"@) && !crate::tool_diff::headed(
            l,
            '+',
        ) && !crate::tool_diff::headed(l, '-'),
        starts_with(l, "+++"@) == (l.len() >= 3 && l[0] == '+' && l[1] == '+' && l[2] == '+'),
        starts_with(l, "---"@) == (l.len() >= 3 && l[0] == '-' && l[1] == '-' && l[2] == '-'),
        starts_with(l, "@@"@) == (l.len() >= 2 && l[0] == '@' && l[1] == '@'),
{
    reveal_strlit("+++");
    reveal_strlit("---");
    reveal_strlit("@@");
    if l.len() >= 3 {
        let t = l.take(3);
        assert(t[0] == l[0] && t[1] == l[1] && t[2] == l[2]);
        if l[0] == '+' && l[1] == '+' && l[2] == '+' {
            assert(t =~= "+++"@);
        }
        if l[0] == '-' && l[1] == '-' && l[2] == '-' {
            assert(t =~= "---"@);
        }
    }
    if l.len() >= 2 {
        let t = l.take(2);
        assert(t[0] == l[0] && t[1] == l[1]);
        if l[0] == '@' && l[1] == '@' {
            assert(t =~= "@@"@);
        }
    }
}

/// `shown` is `text`, or its beginning and an ellipsis where it has more than
/// `room` characters.
pub open spec fn cut_of(text: Seq<char>, room: int, shown: Seq<char>) -> bool {
    if text.len() <= room {
        shown == text
    } else {
        &&& shown.len() >= 1
        &&& shown.last() == '…'
        &&& shown.drop_last() == text.take(shown.len() - 1)
        &&& shown.len() == if room > 0 {
            room
        } else {
            1
        }
    }
}

proof fn lemma_cut(text: Seq<char>, width: nat)
    ensures
        cut_of(text, width as int, truncated(text, width)),
{
    if text.len() > width {
        let t = truncated(text, width);
        assert(t.drop_last() =~= text.take(t.len() - 1));
    }
}

/// A line of a one-column diff: its number, a mark that ends in `mark`, and its
/// text, mark and text in one style.
pub open spec fn is_row(
    row: Seq<SpanView>,
    num: u32,
    mark: char,
    text: Seq<char>,
    room: int,
    style: SpanStyle,
) -> bool {
    let no = row[1].text;
    let d = dec(num as nat);
    &&& row.len() == 4
    &&& no.len() >= d.len() && no.skip(no.len() - d.len()) == d
    &&& forall|i: int| 0 <= i < no.len() - d.len() ==> #[trigger] no[i] == ' '
    &&& row[2].text.len() > 0 && row[2].text.last() == mark
    &&& row[2].style == RenderStyle::Semantic(style)
    &&& row[3].style == RenderStyle::Semantic(style)
    &&& cut_of(text, room, row[3].text)
}

proof fn lemma_pad(d: Seq<char>)
    ensures
        ({
            let p = pad_left(d, 3);
            &&& p.len() >= d.len() && p.skip(p.len() - d.len()) == d
            &&& forall|i: int| 0 <= i < p.len() - d.len() ==> #[trigger] p[i] == ' '
        }),
{
    let p = pad_left(d, 3);
    assert(p.skip(p.len() - d.len()) =~= d);
}

/// The columns that the text of a one-column diff has.
pub open spec fn text_room(width: nat) -> int {
    if width >= 10 {
        width - 10
    } else {
        0
    }
}

/// An added line is one row, marked with a plus and drawn as added, under its
/// number in the new file; only the new file goes on by a line.
pub proof fn law_added_line_is_added(raw: Seq<char>, old_ln: u32, new_ln: u32, block: bool, width: nat)
    requires
        is_added(raw),
        new_ln < u32::MAX,
    ensures
        ({
            let (rs, o, n) = unified_line(raw, old_ln, new_ln, block, width);
            &&& rs.len() == 1
            &&& is_row(rs[0], new_ln, '+', raw.skip(1), text_room(width), SpanStyle::DiffAdd)
            &&& o == old_ln && n == new_ln + 1
        }),
{
    lemma_kinds(raw);
    reveal_strlit(" +");
    lemma_pad(dec(new_ln as nat));
    lemma_cut(raw.skip(1), text_room(width) as nat);
}

/// A removed line is one row, marked with a minus and drawn as removed, under its
/// number in the old file; only the old file goes on by a line.
pub proof fn law_removed_line_is_removed(
    raw: Seq<char>,
    old_ln: u32,
    new_ln: u32,
    block: bool,
    width: nat,
)
    requires
        is_removed(raw),
        old_ln < u32::MAX,
    ensures
        ({
            let (rs, o, n) = unified_line(raw, old_ln, new_ln, block, width);
            &&& rs.len() == 1
            &&& is_row(rs[0], old_ln, '-', raw.skip(1), text_room(width), SpanStyle::DiffDel)
            &&& o == old_ln + 1 && n == new_ln
        }),
{
    lemma_kinds(raw);
    reveal_strlit(" -");
    lemma_pad(dec(old_ln as nat));
    lemma_cut(raw.skip(1), text_room(width) as nat);
}

/// A line that is in both is one row without a mark, dimmed, under its number in
/// the new file; both files go on by a line.
pub proof fn law_context_line_is_plain(
    raw: Seq<char>,
    old_ln: u32,
    new_ln: u32,
    block: bool,
    width: nat,
)
    requires
        is_context(raw),
        old_ln < u32::MAX,
        new_ln < u32::MAX,
    ensures
        ({
            let (rs, o, n) = unified_line(raw, old_ln, new_ln, block, width);
            let text = if raw[0] == ' ' {
                raw.skip(1)
            } else {
                raw
            };
            &&& rs.len() == 1
            &&& is_row(rs[0], new_ln, ' ', text, text_room(width), SpanStyle::Dim)
            &&& o == old_ln + 1 && n == new_ln + 1
        }),
{
    lemma_kinds(raw);
    reveal_strlit("  ");
    lemma_pad(dec(new_ln as nat));
    let text = if raw[0] == ' ' {
        raw.skip(1)
    } else {
        raw
    };
    lemma_cut(text, text_room(width) as nat);
}

/// A header is shown as it is, and a hunk header sets the numbers; neither is a
/// line of a file.
pub proof fn law_headers_are_shown(raw: Seq<char>, old_ln: u32, new_ln: u32, block: bool, width: nat)
    requires
        starts_with(raw, seq!['-', '-', '-']) || starts_with(raw, seq!['+', '+', '+'])
            || starts_with(raw, seq!['@', '@']),
    ensures
        ({
            let (rs, o, n) = unified_line(raw, old_ln, new_ln, block, width);
            &&& rs.len() == 1
            &&& rs[0].len() == 2
            &&& rs[0][1] == sp(raw, SpanStyle::Dim)
            &&& raw[0] != '@' || hunk_start(raw) is None ==> (o, n) == (old_ln, new_ln)
            &&& raw[0] == '@' && hunk_start(raw) is Some ==> (o, n) == hunk_start(raw)->0
        }),
{
    reveal_strlit("+++");
    reveal_strlit("---");
    reveal_strlit("@@");
    assert("+++"@ =~= seq!['+', '+', '+']);
    assert("---"@ =~= seq!['-', '-', '-']);
    assert("@@"@ =~= seq!['@', '@']);
    lemma_kinds(raw);
    assert(raw.take(1)[0] == raw[0]);
    if starts_with(raw, seq!['-', '-', '-']) {
        assert(raw.take(3)[0] == raw[0]);
    }
    if starts_with(raw, seq!['+', '+', '+']) {
        assert(raw.take(3)[0] == raw[0]);
    }
    if starts_with(raw, seq!['@', '@']) {
        assert(raw.take(2)[0] == raw[0]);
    }
}

/// The lines of a diff that were added, without their marks.
pub open spec fn added_texts(ls: Seq<Seq<char>>) -> Seq<Seq<char>>
    decreases ls.len(),
{
    if ls.len() == 0 {
        Seq::empty()
    } else if is_added(ls[0]) {
        seq![ls[0].skip(1)] + added_texts(ls.drop_first())
    } else {
        added_texts(ls.drop_first())
    }
}

/// The lines of a diff that were removed, without their marks.
pub open spec fn removed_texts(ls: Seq<Seq<char>>) -> Seq<Seq<char>>
    decreases ls.len(),
{
    if ls.len() == 0 {
        Seq::empty()
    } else if is_removed(ls[0]) {
        seq![ls[0].skip(1)] + removed_texts(ls.drop_first())
    } else {
        removed_texts(ls.drop_first())
    }
}

/// The texts that the rows ending in a style show there.
pub open spec fn end_texts(rs: Seq<Seq<SpanView>>, style: SpanStyle) -> Seq<Seq<char>>
    decreases rs.len(),
{
    if rs.len() == 0 {
        Seq::empty()
    } else if rs.last().len() > 0 && rs.last().last().style == RenderStyle::Semantic(style) {
        end_texts(rs.drop_last(), style).push(rs.last().last().text)
    } else {
        end_texts(rs.drop_last(), style)
    }
}

/// Each text is shown by the one at its place.
pub open spec fn all_cut(texts: Seq<Seq<char>>, room: int, shown: Seq<Seq<char>>) -> bool {
    &&& shown.len() == texts.len()
    &&& forall|i: int| 0 <= i < texts.len() ==> cut_of(#[trigger] texts[i], room, shown[i])
}

proof fn lemma_end_texts_add(a: Seq<Seq<SpanView>>, b: Seq<Seq<SpanView>>, style: SpanStyle)
    ensures
        end_texts(a + b, style) == end_texts(a, style) + end_texts(b, style),
    decreases b.len(),
{
    if b.len() == 0 {
        assert(a + b =~= a);
        assert(end_texts(a, style) + end_texts(b, style) =~= end_texts(a, style));
    } else {
        assert((a + b).drop_last() =~= a + b.drop_last());
        lemma_end_texts_add(a, b.drop_last(), style);
        assert(end_texts(a + b, style) =~= end_texts(a, style) + end_texts(b, style));
    }
}

proof fn lemma_end_texts_one(row: Seq<SpanView>, style: SpanStyle)
    ensures
        end_texts(seq![row], style) == if row.len() > 0 && row.last().style
            == RenderStyle::Semantic(style) {
            seq![row.last().text]
        } else {
            Seq::empty()
        },
{
    let one = seq![row];
    assert(one.drop_last() =~= Seq::empty());
    assert(one.last() == row);
    assert(end_texts(one.drop_last(), style) =~= Seq::empty());
    assert(end_texts(one, style) =~= if row.len() > 0 && row.last().style == RenderStyle::Semantic(
        style,
    ) {
        seq![row.last().text]
    } else {
        Seq::empty()
    });
}

proof fn lemma_unified_texts(ls: Seq<Seq<char>>, old_ln: u32, new_ln: u32, block: bool, width: nat)
    ensures
        all_cut(
            added_texts(ls),
            text_room(width),
            end_texts(unified_rows(ls, old_ln, new_ln, block, width), SpanStyle::DiffAdd),
        ),
        all_cut(
            removed_texts(ls),
            text_room(width),
            end_texts(unified_rows(ls, old_ln, new_ln, block, width), SpanStyle::DiffDel),
        ),
    decreases ls.len(),
{
    if ls.len() > 0 {
        let raw = ls[0];
        let (head, o, n) = unified_line(raw, old_ln, new_ln, block, width);
        let rest = unified_rows(ls.drop_first(), o, n, block, width);
        lemma_unified_texts(ls.drop_first(), o, n, block, width);
        lemma_kinds(raw);
        lemma_end_texts_add(head, rest, SpanStyle::DiffAdd);
        lemma_end_texts_add(head, rest, SpanStyle::DiffDel);
        lemma_cut(raw.skip(1), text_room(width) as nat);
        if head.len() > 0 {
            assert(head =~= seq![head[0]]);
            lemma_end_texts_one(head[0], SpanStyle::DiffAdd);
            lemma_end_texts_one(head[0], SpanStyle::DiffDel);
        } else {
            assert(head =~= Seq::empty());
            assert(end_texts(head, SpanStyle::DiffAdd) =~= Seq::empty());
            assert(end_texts(head, SpanStyle::DiffDel) =~= Seq::empty());
        }
        let ra = end_texts(rest, SpanStyle::DiffAdd);
        let rd = end_texts(rest, SpanStyle::DiffDel);
        let none = Seq::<Seq<char>>::empty();
        assert(none + ra =~= ra);
        assert(none + rd =~= rd);
    }
}

/// A one-column diff shows what was added and what was removed, each line once,
/// in order and as what it is, cut where it is too long.
pub proof fn law_unified_shows_the_change(ls: Seq<Seq<char>>, block: bool, width: nat)
    ensures
        all_cut(
            added_texts(ls),
            text_room(width),
            end_texts(unified_rows(ls, 1, 1, block, width), SpanStyle::DiffAdd),
        ),
        all_cut(
            removed_texts(ls),
            text_room(width),
            end_texts(unified_rows(ls, 1, 1, block, width), SpanStyle::DiffDel),
        ),
{
    lemma_unified_texts(ls, 1, 1, block, width);
}

/// A diff of at most sixty lines that is drawn in one column shows every line
/// that was added and every line that was removed.
pub proof fn law_diff_shows_the_change(diff: Seq<char>, block: bool, width: nat)
    requires
        width <= 120 || !block,
        lines(diff).len() <= 60,
    ensures
        all_cut(
            added_texts(lines(diff)),
            text_room(width),
            end_texts(diff_rows(diff, block, width), SpanStyle::DiffAdd),
        ),
        all_cut(
            removed_texts(lines(diff)),
            text_room(width),
            end_texts(diff_rows(diff, block, width), SpanStyle::DiffDel),
        ),
{
    let ls = lines(diff);
    lemma_unified_texts(ls, 1, 1, block, width);
    let rs = diff_rows(diff, block, width);
    let head = seq![rs[0]];
    let body = unified_rows(ls, 1, 1, block, width);
    assert(rs =~= head + body);
    lemma_end_texts_one(rs[0], SpanStyle::DiffAdd);
    lemma_end_texts_one(rs[0], SpanStyle::DiffDel);
    lemma_end_texts_add(head, body, SpanStyle::DiffAdd);
    lemma_end_texts_add(head, body, SpanStyle::DiffDel);
    let none = Seq::<Seq<char>>::empty();
    assert(none + end_texts(body, SpanStyle::DiffAdd) =~= end_texts(body, SpanStyle::DiffAdd));
    assert(none + end_texts(body, SpanStyle::DiffDel) =~= end_texts(body, SpanStyle::DiffDel));
}

proof fn lemma_added_push(ls: Seq<Seq<char>>, l: Seq<char>)
    ensures
        added_texts(ls.push(l)).len() == added_texts(ls).len() + if is_added(l) {
            1nat
        } else {
            0
        },
        removed_texts(ls.push(l)).len() == removed_texts(ls).len() + if is_removed(l) {
            1nat
        } else {
            0
        },
    decreases ls.len(),
{
    let all = ls.push(l);
    if ls.len() > 0 {
        lemma_added_push(ls.drop_first(), l);
        assert(all.drop_first() =~= ls.drop_first().push(l));
        assert(all[0] == ls[0]);
    } else {
        assert(all.drop_first() =~= Seq::empty());
        assert(added_texts(all.drop_first()) =~= Seq::empty());
        assert(removed_texts(all.drop_first()) =~= Seq::empty());
    }
}

proof fn lemma_marked(ls: Seq<Seq<char>>)
    ensures
        crate::tool_diff::marked(ls, '+', "+++"@) == added_texts(ls).len(),
        crate::tool_diff::marked(ls, '-', "---"@) == removed_texts(ls).len(),
    decreases ls.len(),
{
    if ls.len() > 0 {
        lemma_marked(ls.drop_last());
        lemma_kinds(ls.last());
        assert(ls.drop_last().push(ls.last()) =~= ls);
        lemma_added_push(ls.drop_last(), ls.last());
    }
}

/// The first line of a diff counts what was added and what was removed, however
/// much of it is shown; a last line counts the lines beyond eighty.
pub proof fn law_diff_counts_the_change(diff: Seq<char>, block: bool, width: nat)
    ensures
        ({
            let rs = diff_rows(diff, block, width);
            let n = lines(diff).len();
            &&& rs.len() >= 1
            &&& rs[0].len() == 5
            &&& rs[0][1] == sp(
                seq!['+'] + dec(added_texts(lines(diff)).len()),
                SpanStyle::DiffAdd,
            )
            &&& rs[0][3] == sp(
                seq!['−'] + dec(removed_texts(lines(diff)).len()),
                SpanStyle::DiffDel,
            )
            &&& n > 80 ==> rs.last().len() == 1 && occurs(rs.last()[0].text, dec((n - 80) as nat))
        }),
{
    let rs = diff_rows(diff, block, width);
    let n = lines(diff).len();
    lemma_marked(lines(diff));
    reveal_strlit("+");
    reveal_strlit("−");
    assert("+"@ =~= seq!['+']);
    assert("−"@ =~= seq!['−']);
    if n > 80 {
        let wide = width > 120 && block;
        let lead = if wide {
            " ┃   … "@
        } else {
            crate::tool_diff::edge(block) + "   … "@
        };
        let d = dec((n - 80) as nat);
        let t = rs.last()[0].text;
        assert(t == lead + d + " 行未展示"@);
        assert(t.subrange(lead.len() as int, (lead.len() + d.len()) as int) =~= d);
        assert(occurs_at(t, d, lead.len() as int));
    }
}

/// The lines that wait to be shown side by side, with their numbers.
pub open spec fn waiting_texts(w: Seq<(Seq<char>, u32)>) -> Seq<Seq<char>> {
    Seq::new(w.len(), |i: int| w[i].0)
}

/// What stands on the left of side-by-side rows as removed.
pub open spec fn left_texts(rs: Seq<Seq<SpanView>>) -> Seq<Seq<char>>
    decreases rs.len(),
{
    if rs.len() == 0 {
        Seq::empty()
    } else if rs.last().len() == 8 && rs.last()[3].style == RenderStyle::Semantic(
        SpanStyle::DiffDel,
    ) {
        left_texts(rs.drop_last()).push(rs.last()[3].text)
    } else {
        left_texts(rs.drop_last())
    }
}

/// What stands on the right of side-by-side rows as added.
pub open spec fn right_texts(rs: Seq<Seq<SpanView>>) -> Seq<Seq<char>>
    decreases rs.len(),
{
    if rs.len() == 0 {
        Seq::empty()
    } else if rs.last().len() == 8 && rs.last()[7].style == RenderStyle::Semantic(
        SpanStyle::DiffAdd,
    ) {
        right_texts(rs.drop_last()).push(rs.last()[7].text)
    } else {
        right_texts(rs.drop_last())
    }
}

proof fn lemma_sides_add(a: Seq<Seq<SpanView>>, b: Seq<Seq<SpanView>>)
    ensures
        left_texts(a + b) == left_texts(a) + left_texts(b),
        right_texts(a + b) == right_texts(a) + right_texts(b),
    decreases b.len(),
{
    if b.len() == 0 {
        assert(a + b =~= a);
        assert(left_texts(a) + left_texts(b) =~= left_texts(a));
        assert(right_texts(a) + right_texts(b) =~= right_texts(a));
    } else {
        assert((a + b).drop_last() =~= a + b.drop_last());
        lemma_sides_add(a, b.drop_last());
        assert(left_texts(a + b) =~= left_texts(a) + left_texts(b));
        assert(right_texts(a + b) =~= right_texts(a) + right_texts(b));
    }
}

/// Each text is shown by the one at its place, filled up to `room` with spaces.
pub open spec fn all_filled(texts: Seq<Seq<char>>, room: int, shown: Seq<Seq<char>>) -> bool {
    &&& shown.len() == texts.len()
    &&& forall|i: int|
        0 <= i < texts.len() ==> {
            let s = shown[i];
            let k = if (#[trigger] texts[i]).len() <= room {
                texts[i].len() as int
            } else if room > 0 {
                room
            } else {
                1
            };
            &&& k <= s.len()
            &&& cut_of(texts[i], room, s.take(k))
            &&& forall|j: int| k <= j < s.len() ==> #[trigger] s[j] == ' '
        }
}

/// `i`-th waiting lines stand side by side: the removed one on the left, drawn as
/// removed under its number in the old file, the added one on the right, drawn
/// as added under its number in the new file.
pub proof fn law_pairs_stand_side_by_side(m: SplitModel, i: int, lw: nat, rw: nat)
    requires
        0 <= i < pair_rows(m, lw, rw).len(),
    ensures
        ({
            let row = pair_rows(m, lw, rw)[i];
            &&& row.len() == 8
            &&& i < m.removed.len() ==> {
                &&& row[3].style == RenderStyle::Semantic(SpanStyle::DiffDel)
                &&& row[3].text == pad_right(truncated(m.removed[i].0, lw), lw)
                &&& m.removed[i].1 > 0 ==> row[1].text == pad_left(dec(m.removed[i].1 as nat), 3)
            }
            &&& i >= m.removed.len() ==> row[3].style == RenderStyle::Semantic(SpanStyle::Dim)
                && blank(row[3].text) && blank(row[1].text)
            &&& i < m.added.len() ==> {
                &&& row[7].style == RenderStyle::Semantic(SpanStyle::DiffAdd)
                &&& row[7].text == truncated(m.added[i].0, rw)
                &&& m.added[i].1 > 0 ==> row[5].text == pad_left(dec(m.added[i].1 as nat), 3)
            }
            &&& i >= m.added.len() ==> row[7].style == RenderStyle::Semantic(SpanStyle::Dim)
                && row[7].text.len() == 0 && blank(row[5].text)
        }),
{
    reveal_strlit("   ");
}

proof fn lemma_pairs(m: SplitModel, lw: nat, rw: nat)
    requires
        m.shown + m.removed.len() + m.added.len() <= 60,
    ensures
        all_filled(waiting_texts(m.removed), lw as int, left_texts(pair_rows(m, lw, rw))),
        all_cut(waiting_texts(m.added), rw as int, right_texts(pair_rows(m, lw, rw))),
        pair_count(m) <= m.removed.len() + m.added.len(),
{
    let rs = pair_rows(m, lw, rw);
    lemma_pairs_upto(m, lw, rw, rs.len() as int);
    assert(rs.take(rs.len() as int) =~= rs);
    let r = waiting_texts(m.removed);
    let a = waiting_texts(m.added);
    assert(r.take(r.len() as int) =~= r);
    assert(a.take(a.len() as int) =~= a);
}

proof fn lemma_pairs_upto(m: SplitModel, lw: nat, rw: nat, n: int)
    requires
        0 <= n <= pair_rows(m, lw, rw).len(),
    ensures
        ({
            let rs = pair_rows(m, lw, rw).take(n);
            let r = waiting_texts(m.removed).take(
                if n <= m.removed.len() {
                    n
                } else {
                    m.removed.len() as int
                },
            );
            let a = waiting_texts(m.added).take(
                if n <= m.added.len() {
                    n
                } else {
                    m.added.len() as int
                },
            );
            all_filled(r, lw as int, left_texts(rs)) && all_cut(a, rw as int, right_texts(rs))
        }),
    decreases n,
{
    let all = pair_rows(m, lw, rw);
    if n > 0 {
        let rs = all.take(n);
        lemma_pairs_upto(m, lw, rw, n - 1);
        assert(rs.drop_last() =~= all.take(n - 1));
        assert(rs.last() == all[n - 1]);
        law_pairs_stand_side_by_side(m, n - 1, lw, rw);
        if n <= m.removed.len() {
            let t = m.removed[n - 1].0;
            lemma_cut(t, lw);
            let c = truncated(t, lw);
            let s = pad_right(c, lw);
            assert(s.take(c.len() as int) =~= c);
        }
        if n <= m.added.len() {
            lemma_cut(m.added[n - 1].0, rw);
        }
    } else {
        assert(all.take(0) =~= Seq::empty());
    }
}

proof fn lemma_filled_add(
    a: Seq<Seq<char>>,
    b: Seq<Seq<char>>,
    room: int,
    x: Seq<Seq<char>>,
    y: Seq<Seq<char>>,
)
    requires
        all_filled(a, room, x),
        all_filled(b, room, y),
    ensures
        all_filled(a + b, room, x + y),
{
    assert forall|i: int| 0 <= i < (a + b).len() implies ({
        let s = (x + y)[i];
        let t = #[trigger] (a + b)[i];
        let k = if t.len() <= room {
            t.len() as int
        } else if room > 0 {
            room
        } else {
            1
        };
        &&& k <= s.len()
        &&& cut_of(t, room, s.take(k))
        &&& forall|j: int| k <= j < s.len() ==> #[trigger] s[j] == ' '
    }) by {
        if i < a.len() {
            assert((a + b)[i] == a[i]);
        } else {
            assert((a + b)[i] == b[i - a.len()]);
        }
    }
}

proof fn lemma_cut_add(
    a: Seq<Seq<char>>,
    b: Seq<Seq<char>>,
    room: int,
    x: Seq<Seq<char>>,
    y: Seq<Seq<char>>,
)
    requires
        all_cut(a, room, x),
        all_cut(b, room, y),
    ensures
        all_cut(a + b, room, x + y),
{
    assert forall|i: int| 0 <= i < (a + b).len() implies cut_of(
        #[trigger] (a + b)[i],
        room,
        (x + y)[i],
    ) by {
        if i < a.len() {
            assert((a + b)[i] == a[i]);
        } else {
            assert((a + b)[i] == b[i - a.len()]);
        }
    }
}

proof fn lemma_no_sides(row: Seq<SpanView>)
    requires
        row.len() != 8 || (row[3].style == RenderStyle::Semantic(SpanStyle::Dim) && row[7].style
            == RenderStyle::Semantic(SpanStyle::Dim)),
    ensures
        left_texts(seq![row]) == Seq::<Seq<char>>::empty(),
        right_texts(seq![row]) == Seq::<Seq<char>>::empty(),
{
    let one = seq![row];
    assert(one.drop_last() =~= Seq::empty());
    assert(one.last() == row);
    assert(left_texts(one.drop_last()) =~= Seq::empty());
    assert(right_texts(one.drop_last()) =~= Seq::empty());
}

#[verifier::spinoff_prover]
#[verifier::rlimit(50)]
proof fn lemma_split_texts(m: SplitModel, ls: Seq<Seq<char>>, lw: nat, rw: nat)
    requires
        m.shown + m.removed.len() + m.added.len() + ls.len() <= 60,
    ensures
        all_filled(
            waiting_texts(m.removed) + removed_texts(ls),
            lw as int,
            left_texts(split_rows(m, ls, lw, rw)),
        ),
        all_cut(
            waiting_texts(m.added) + added_texts(ls),
            rw as int,
            right_texts(split_rows(m, ls, lw, rw)),
        ),
    decreases ls.len(),
{
    lemma_pairs(m, lw, rw);
    let r = waiting_texts(m.removed);
    let a = waiting_texts(m.added);
    let none = Seq::<Seq<char>>::empty();
    if ls.len() == 0 {
        assert(r + removed_texts(ls) =~= r);
        assert(a + added_texts(ls) =~= a);
    } else {
        let raw = ls[0];
        let rest = ls.drop_first();
        let (head, next, stop) = split_line(m, raw, lw, rw);
        lemma_kinds(raw);
        lemma_split_texts(next, rest, lw, rw);
        let tail = split_rows(next, rest, lw, rw);
        if stop {
            assert(rest.len() == 0);
            assert(tail == pair_rows(next, lw, rw));
        }
        assert(split_rows(m, ls, lw, rw) == head + tail);
        lemma_sides_add(head, tail);
        if is_removed(raw) {
            assert(head =~= Seq::empty());
            assert(left_texts(head) =~= none && right_texts(head) =~= none);
            assert(none + left_texts(tail) =~= left_texts(tail));
            assert(none + right_texts(tail) =~= right_texts(tail));
            assert(waiting_texts(next.removed) =~= r.push(raw.skip(1)));
            assert(r.push(raw.skip(1)) + removed_texts(rest) =~= r + removed_texts(ls));
        } else if is_added(raw) {
            assert(head =~= Seq::empty());
            assert(left_texts(head) =~= none && right_texts(head) =~= none);
            assert(none + left_texts(tail) =~= left_texts(tail));
            assert(none + right_texts(tail) =~= right_texts(tail));
            assert(waiting_texts(next.added) =~= a.push(raw.skip(1)));
            assert(a.push(raw.skip(1)) + added_texts(rest) =~= a + added_texts(ls));
        } else {
            let pairs = pair_rows(m, lw, rw);
            assert(waiting_texts(next.removed) =~= none);
            assert(waiting_texts(next.added) =~= none);
            assert(none + removed_texts(rest) =~= removed_texts(rest));
            assert(none + added_texts(rest) =~= added_texts(rest));
            if head.len() > pairs.len() {
                let row = head.last();
                assert(head =~= pairs + seq![row]);
                lemma_no_sides(row);
                lemma_sides_add(pairs, seq![row]);
                assert(left_texts(pairs) + none =~= left_texts(pairs));
                assert(right_texts(pairs) + none =~= right_texts(pairs));
            } else {
                assert(head =~= pairs);
            }
            lemma_filled_add(r, removed_texts(rest), lw as int, left_texts(pairs), left_texts(tail));
            lemma_cut_add(a, added_texts(rest), rw as int, right_texts(pairs), right_texts(tail));
        }
    }
}

/// A side-by-side diff of at most sixty lines shows what was removed on the left
/// and what was added on the right, each line once and in order.
pub proof fn law_split_shows_the_change(ls: Seq<Seq<char>>, lw: nat, rw: nat)
    requires
        ls.len() <= 60,
    ensures
        all_filled(removed_texts(ls), lw as int, left_texts(split_rows(split_start(), ls, lw, rw))),
        all_cut(added_texts(ls), rw as int, right_texts(split_rows(split_start(), ls, lw, rw))),
{
    lemma_split_texts(split_start(), ls, lw, rw);
    let none = Seq::<Seq<char>>::empty();
    assert(waiting_texts(split_start().removed) =~= none);
    assert(waiting_texts(split_start().added) =~= none);
    assert(none + removed_texts(ls) =~= removed_texts(ls));
    assert(none + added_texts(ls) =~= added_texts(ls));
}

/// Side by side, a line that is in both stands on both sides, under its number in
/// each file.
pub proof fn law_context_stands_on_both_sides(m: SplitModel, raw: Seq<char>, lw: nat, rw: nat)
    requires
        is_context(raw),
        m.old_ln < u32::MAX,
        m.new_ln < u32::MAX,
    ensures
        ({
            let (rs, n, stop) = split_line(m, raw, lw, rw);
            let text = if raw[0] == ' ' {
                raw.skip(1)
            } else {
                raw
            };
            let row = rs.last();
            &&& rs.len() == pair_rows(m, lw, rw).len() + 1
            &&& rs.drop_last() == pair_rows(m, lw, rw)
            &&& row.len() == 8
            &&& row[1].text == pad_left(dec(m.old_ln as nat), 3)
            &&& row[5].text == pad_left(dec(m.new_ln as nat), 3)
            &&& row[3].text == pad_right(truncated(text, lw), lw)
            &&& row[7].text == truncated(text, rw)
            &&& n.old_ln == m.old_ln + 1 && n.new_ln == m.new_ln + 1
            &&& n.removed.len() == 0 && n.added.len() == 0
        }),
{
    lemma_kinds(raw);
    assert(split_line(m, raw, lw, rw).0.drop_last() =~= pair_rows(m, lw, rw));
}

/// Side by side, a removed line takes the next number of the old file and an
/// added line the next of the new one.
pub proof fn law_split_numbers_its_lines(m: SplitModel, raw: Seq<char>, lw: nat, rw: nat)
    requires
        is_added(raw) || is_removed(raw),
        m.old_ln < u32::MAX,
        m.new_ln < u32::MAX,
    ensures
        ({
            let n = split_line(m, raw, lw, rw).1;
            &&& is_removed(raw) ==> n.removed == m.removed.push((raw.skip(1), m.old_ln)) && n.added
                == m.added && n.old_ln == m.old_ln + 1 && n.new_ln == m.new_ln
            &&& is_added(raw) ==> n.added == m.added.push((raw.skip(1), m.new_ln)) && n.removed
                == m.removed && n.new_ln == m.new_ln + 1 && n.old_ln == m.old_ln
        }),
{
    lemma_kinds(raw);
}

/// A decimal number reads as what it was written from.
pub proof fn law_decimal_reads_back(n: nat)
    ensures
        digits_value(dec(n)) == Some(n),
        dec(n).len() >= 1,
        forall|i: int| 0 <= i < dec(n).len() ==> '0' <= #[trigger] dec(n)[i] <= '9',
    decreases n,
{
    let d = dec(n);
    if n >= 10 {
        law_decimal_reads_back(n / 10);
        assert(d.drop_last() =~= dec(n / 10));
        assert forall|i: int| 0 <= i < d.len() implies '0' <= #[trigger] d[i] <= '9' by {
            if i < d.len() - 1 {
                assert(d[i] == dec(n / 10)[i]);
            }
        }
    } else {
        assert(d.drop_last() =~= Seq::empty());
        assert(digits_value(d.drop_last()) == Some(0nat));
    }
}

/// A text that neither begins nor ends with white space is its own trimmed text.
proof fn lemma_trimmed(s: Seq<char>)
    requires
        s.len() > 0,
        !white_space(s[0]),
        !white_space(s.last()),
    ensures
        trim(s) == s,
{
}

proof fn lemma_word(w: Seq<char>, rest: Seq<char>)
    requires
        forall|i: int| 0 <= i < w.len() ==> !white_space(#[trigger] w[i]),
        rest.len() > 0,
        white_space(rest[0]),
    ensures
        word_len(w + rest) == w.len(),
    decreases w.len(),
{
    let s = w + rest;
    if w.len() == 0 {
        assert(s[0] == rest[0]);
    } else {
        let t = w.drop_first();
        assert forall|i: int| 0 <= i < t.len() implies !white_space(#[trigger] t[i]) by {
            assert(t[i] == w[i + 1]);
        }
        lemma_word(t, rest);
        assert(s.drop_first() =~= t + rest);
        assert(s[0] == w[0]);
    }
}

proof fn lemma_side(mark: char, n: u32, more: Seq<char>)
    requires
        mark == '-' || mark == '+',
    ensures
        ({
            let side = strip_leading(seq![mark] + dec(n as nat) + seq![','] + more, mark);
            number(side.take(upto(side, ',') as int)) == Some(n)
        }),
{
    let d = dec(n as nat);
    law_decimal_reads_back(n as nat);
    let s = seq![mark] + d + seq![','] + more;
    let t = d + seq![','] + more;
    assert(s.drop_first() =~= t);
    assert(t[0] == d[0]);
    assert(strip_leading(t, mark) == t);
    assert(strip_leading(s, mark) == t);
    assert forall|i: int| 0 <= i < d.len() implies t[i] != ',' by {
        assert(t[i] == d[i]);
    }
    lemma_upto_is(t, ',', d.len());
    assert(t.take(d.len() as int) =~= d);
    assert(d[0] != '+');
}

/// A hunk header gives the lines at which its hunk begins: `a` in the old file
/// and `c` in the new one.
pub proof fn law_hunk_header_gives_its_lines(
    a: u32,
    b: Seq<char>,
    c: u32,
    d: Seq<char>,
    more: Seq<char>,
)
    requires
        forall|i: int| 0 <= i < b.len() ==> !white_space(#[trigger] b[i]),
        forall|i: int| 0 <= i < d.len() ==> !white_space(#[trigger] d[i]),
        more.len() > 0 ==> !white_space(more.last()),
    ensures
        hunk_start(
            seq!['@', '@', ' '] + (seq!['-'] + dec(a as nat) + seq![','] + b) + seq![' '] + (seq!['+']
                + dec(c as nat) + seq![','] + d) + (seq![' ', '@', '@'] + more),
        ) == Some((a, c)),
{
    let l = seq!['-'] + dec(a as nat) + seq![','] + b;
    let r = seq!['+'] + dec(c as nat) + seq![','] + d;
    let end = seq![' ', '@', '@'] + more;
    let h = seq!['@', '@', ' '] + l + seq![' '] + r + end;
    law_decimal_reads_back(a as nat);
    law_decimal_reads_back(c as nat);
    assert(h.last() == end.last());
    lemma_trimmed(h);
    reveal_strlit("@@");
    assert(h.take(2) =~= "@@"@);
    let inner = seq![' '] + l + seq![' '] + r + end;
    assert(h.drop_first() =~= seq!['@'] + inner);
    assert(h.drop_first().drop_first() =~= inner);
    assert(strip_leading(inner, '@') == inner);
    assert(strip_leading(h.drop_first(), '@') == inner);
    assert(strip_leading(h, '@') == inner);
    let body = l + (seq![' '] + r + end);
    assert(inner.drop_first() =~= body);
    assert(body[0] == '-');
    assert(trim_start(body) == body);
    assert(trim_start(inner) == body);
    assert(body.last() == end.last());
    assert(trim_end(body) == body);
    assert(trim(inner) == body);
    assert forall|i: int| 0 <= i < l.len() implies !white_space(#[trigger] l[i]) by {
        if 1 <= i < 1 + dec(a as nat).len() {
            assert(l[i] == dec(a as nat)[i - 1]);
        } else if i > 1 + dec(a as nat).len() {
            assert(l[i] == b[i - 2 - dec(a as nat).len()]);
        }
    }
    assert forall|i: int| 0 <= i < r.len() implies !white_space(#[trigger] r[i]) by {
        if 1 <= i < 1 + dec(c as nat).len() {
            assert(r[i] == dec(c as nat)[i - 1]);
        } else if i > 1 + dec(c as nat).len() {
            assert(r[i] == d[i - 2 - dec(c as nat).len()]);
        }
    }
    let rest = seq![' '] + r + end;
    lemma_word(l, rest);
    assert(body.take(l.len() as int) =~= l);
    assert(body.skip(l.len() as int) =~= rest);
    assert(next_word(body) == (l, rest));
    let tail = r + end;
    assert(rest.drop_first() =~= tail);
    assert(tail[0] == '+');
    assert(trim_start(tail) == tail);
    assert(trim_start(rest) == tail);
    lemma_word(r, end);
    assert(tail.take(r.len() as int) =~= r);
    assert(next_word(rest).0 == r);
    lemma_side('-', a, b);
    lemma_side('+', c, d);
}

} // verus!
