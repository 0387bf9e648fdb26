//! What the operations on text give back.

use crate::text::{
    blank, ellipsized, first_chars, joined, lemma_upto, lines, occurs, occurs_at, one_line,
    repeated, split, starts_with, trim, trim_end, trim_start, truncated, upto, white_space,
};
use vstd::prelude::*;

verus! {

/// `s` holds no `c`.
pub open spec fn lacks(s: Seq<char>, c: char) -> bool {
    forall|i: int| 0 <= i < s.len() ==> #[trigger] s[i] != c
}

proof fn lemma_trim_start(s: Seq<char>)
    ensures
        trim_start(s).len() <= s.len(),
        trim_start(s) == s.skip(s.len() - trim_start(s).len()),
        blank(s.take(s.len() - trim_start(s).len())),
        trim_start(s).len() > 0 ==> !white_space(trim_start(s)[0]),
    decreases s.len(),
{
    if s.len() > 0 && white_space(s[0]) {
        let r = s.drop_first();
        lemma_trim_start(r);
        let k = s.len() - trim_start(s).len();
        assert(r.skip(k - 1) =~= s.skip(k));
        assert forall|i: int| 0 <= i < s.take(k).len() implies white_space(#[trigger] s.take(k)[i]) by {
            if i > 0 {
                assert(s.take(k)[i] == r.take(k - 1)[i - 1]);
            }
        }
    } else {
        assert(s.skip(0) =~= s);
    }
}

proof fn lemma_trim_end(s: Seq<char>)
    ensures
        trim_end(s).len() <= s.len(),
        trim_end(s) == s.take(trim_end(s).len() as int),
        blank(s.skip(trim_end(s).len() as int)),
        trim_end(s).len() > 0 ==> !white_space(trim_end(s).last()),
    decreases s.len(),
{
    if s.len() > 0 && white_space(s.last()) {
        let r = s.drop_last();
        lemma_trim_end(r);
        let k = trim_end(s).len() as int;
        assert(r.take(k) =~= s.take(k));
        assert forall|i: int| 0 <= i < s.skip(k).len() implies white_space(#[trigger] s.skip(k)[i]) by {
            if i < r.len() - k {
                assert(s.skip(k)[i] == r.skip(k)[i]);
            }
        }
    } else {
        assert(s.take(s.len() as int) =~= s);
    }
}

/// Trimming drops the white space around a text and nothing else: what is left
/// neither begins nor ends with any.
pub proof fn law_trimming_drops_the_space_around(s: Seq<char>)
    ensures
        exists|a: int, b: int|
            0 <= a <= b <= s.len() && trim(s) == #[trigger] s.subrange(a, b) && blank(s.take(a))
                && blank(s.skip(b)),
        trim(s).len() > 0 ==> !white_space(trim(s)[0]) && !white_space(trim(s).last()),
{
    let t = trim_start(s);
    lemma_trim_start(s);
    lemma_trim_end(t);
    let a = s.len() - t.len();
    let b = a + trim(s).len();
    assert(trim(s) =~= s.subrange(a, b));
    assert(t.skip(trim(s).len() as int) =~= s.skip(b));
    if trim(s).len() > 0 {
        assert(trim(s)[0] == t[0]);
    }
    assert(s.subrange(a, b) == trim(s) && blank(s.take(a)) && blank(s.skip(b)));
}

/// Splitting a text loses nothing: no piece holds the separator, and the
/// pieces with the separator between them are the text.
pub proof fn law_split_pieces_make_the_text(s: Seq<char>, c: char)
    ensures
        split(s, c).len() > 0,
        joined(split(s, c), seq![c]) == s,
        forall|i: int| 0 <= i < split(s, c).len() ==> lacks(#[trigger] split(s, c)[i], c),
    decreases s.len(),
{
    lemma_upto(s, c);
    let k = upto(s, c) as int;
    if k < s.len() {
        let rest = split(s.skip(k + 1), c);
        law_split_pieces_make_the_text(s.skip(k + 1), c);
        lemma_joined_front(s.take(k), rest, seq![c]);
        assert(s.take(k) + seq![c] + s.skip(k + 1) =~= s);
        assert forall|i: int| 0 <= i < split(s, c).len() implies lacks(
            #[trigger] split(s, c)[i],
            c,
        ) by {
            if i > 0 {
                assert(split(s, c)[i] == rest[i - 1]);
            }
        }
    } else {
        assert(split(s, c) =~= seq![s]);
    }
}

proof fn lemma_joined_front(x: Seq<char>, rest: Seq<Seq<char>>, sep: Seq<char>)
    requires
        rest.len() > 0,
    ensures
        joined(seq![x] + rest, sep) == x + sep + joined(rest, sep),
    decreases rest.len(),
{
    let all = seq![x] + rest;
    if rest.len() == 1 {
        assert(all.drop_last() =~= seq![x]);
        assert(all.last() == rest[0]);
        assert(joined(seq![x], sep) == x);
    } else {
        assert(all.drop_last() =~= seq![x] + rest.drop_last());
        lemma_joined_front(x, rest.drop_last(), sep);
        assert(x + sep + joined(rest.drop_last(), sep) + sep + rest.last() =~= x + sep + (joined(
            rest.drop_last(),
            sep,
        ) + sep + rest.last()));
    }
}

/// Joining puts the separator between the parts, and nowhere else.
pub proof fn law_joining_separates(parts: Seq<Seq<char>>, x: Seq<char>, sep: Seq<char>)
    ensures
        joined(Seq::empty(), sep) == Seq::<char>::empty(),
        joined(seq![x], sep) == x,
        parts.len() > 0 ==> joined(parts.push(x), sep) == joined(parts, sep) + sep + x,
        parts.len() > 0 ==> joined(seq![x] + parts, sep) == x + sep + joined(parts, sep),
{
    assert(parts.push(x).drop_last() =~= parts);
    if parts.len() > 0 {
        lemma_joined_front(x, parts, sep);
    }
}

/// The lines of a text are its pieces between line feeds, in order, each
/// without the carriage return at its end; an empty piece at the very end is
/// no line.
pub proof fn law_lines_are_the_pieces(s: Seq<char>)
    ensures
        ({
            let p = split(s, '\n');
            &&& lines(s).len() == p.len() - (if p.last().len() == 0 {
                1int
            } else {
                0
            })
            &&& forall|i: int|
                0 <= i < lines(s).len() ==> {
                    ||| #[trigger] lines(s)[i] == p[i] && (i + 1 == p.len() || p[i].len() == 0
                        || p[i].last() != '\r')
                    ||| lines(s)[i].push('\r') == p[i] && i + 1 < p.len()
                }
        }),
    decreases s.len(),
{
    let p = split(s, '\n');
    lemma_upto(s, '\n');
    let k = upto(s, '\n') as int;
    if k < s.len() {
        let r = s.skip(k + 1);
        law_lines_are_the_pieces(r);
        law_split_pieces_make_the_text(r, '\n');
        let q = split(r, '\n');
        assert(p =~= seq![s.take(k)] + q);
        assert(p.last() == q.last());
        assert forall|i: int| 0 <= i < lines(s).len() implies {
            ||| #[trigger] lines(s)[i] == p[i] && (i + 1 == p.len() || p[i].len() == 0
                || p[i].last() != '\r')
            ||| lines(s)[i].push('\r') == p[i] && i + 1 < p.len()
        } by {
            if i > 0 {
                assert(lines(s)[i] == lines(r)[i - 1]);
                assert(p[i] == q[i - 1]);
            } else {
                let t = s.take(k);
                if t.len() > 0 && t.last() == '\r' {
                    assert(t.drop_last().push('\r') =~= t);
                }
            }
        }
    } else {
        assert(p =~= seq![s]);
        if s.len() > 0 {
            assert(lines(s) =~= seq![s]);
        }
    }
}

/// A text without carriage returns is its lines with line feeds between them,
/// but for one line feed at its end.
pub proof fn law_lines_make_the_text(s: Seq<char>)
    requires
        lacks(s, '\r'),
        s.len() > 0,
    ensures
        ({
            let all = joined(lines(s), seq!['\n']);
            s == all || s == all.push('\n')
        }),
        forall|i: int| 0 <= i < lines(s).len() ==> lacks(#[trigger] lines(s)[i], '\n'),
    decreases s.len(),
{
    lemma_upto(s, '\n');
    let k = upto(s, '\n') as int;
    if k < s.len() {
        let t = s.take(k);
        let r = s.skip(k + 1);
        let sep = seq!['\n'];
        assert(lacks(r, '\r')) by {
            assert forall|i: int| 0 <= i < r.len() implies #[trigger] r[i] != '\r' by {
                assert(r[i] == s[k + 1 + i]);
            }
        }
        if k > 0 {
            assert(t.last() == s[k - 1]);
        }
        assert(lines(s) =~= seq![t] + lines(r));
        assert(s =~= t + sep + r);
        if r.len() > 0 {
            law_lines_make_the_text(r);
            law_lines_are_the_pieces(r);
            law_split_pieces_make_the_text(r, '\n');
            lemma_lines_some(r);
            lemma_joined_front(t, lines(r), sep);
            let rest = joined(lines(r), sep);
            assert((t + sep + rest).push('\n') =~= t + sep + rest.push('\n'));
        } else {
            assert(lines(r) =~= Seq::empty());
            assert(lines(s) =~= seq![t]);
            assert(joined(lines(s), sep) == t);
            assert(s =~= t.push('\n'));
        }
        assert forall|i: int| 0 <= i < lines(s).len() implies lacks(
            #[trigger] lines(s)[i],
            '\n',
        ) by {
            if i > 0 {
                assert(lines(s)[i] == lines(r)[i - 1]);
            }
        }
    } else {
        assert(lines(s) =~= seq![s]);
        assert(joined(lines(s), seq!['\n']) == s);
    }
}

proof fn lemma_lines_some(s: Seq<char>)
    requires
        s.len() > 0,
    ensures
        lines(s).len() > 0,
{
    lemma_upto(s, '\n');
}

/// On one line a text keeps every character but its line feeds, which become
/// spaces.
pub proof fn law_one_line_keeps_the_text(s: Seq<char>)
    ensures
        one_line(s).len() == s.len(),
        lacks(one_line(s), '\n'),
        forall|i: int|
            0 <= i < s.len() ==> #[trigger] one_line(s)[i] == (if s[i] == '\n' {
                ' '
            } else {
                s[i]
            }),
{
}

/// A shortened text is the front of the text, with an ellipsis exactly where
/// something was left out.
pub proof fn law_shortening_keeps_the_front(s: Seq<char>, n: nat)
    ensures
        s.len() <= n ==> truncated(s, n) == s && ellipsized(s, n) == s && first_chars(s, n) == s,
        s.len() > n ==> {
            &&& first_chars(s, n) == s.take(n as int)
            &&& ellipsized(s, n) == s.take(n as int).push('…')
            &&& n > 0 ==> truncated(s, n).len() == n && truncated(s, n).drop_last() == s.take(n - 1)
            &&& truncated(s, n).last() == '…'
        },
{
    if s.len() > n && n > 0 {
        assert(truncated(s, n).drop_last() =~= s.take(n - 1));
    }
}

/// A text begins with another exactly where it is that one and something
/// more, and holds another exactly where it is that one with something on
/// both sides.
pub proof fn law_finding_text(s: Seq<char>, p: Seq<char>)
    ensures
        starts_with(s, p) <==> exists|r: Seq<char>| s == #[trigger] (p + r),
        occurs(s, p) <==> exists|a: Seq<char>, b: Seq<char>| s == #[trigger] (a + p + b),
{
    if starts_with(s, p) {
        assert(s =~= p + s.skip(p.len() as int));
    }
    if exists|r: Seq<char>| s == #[trigger] (p + r) {
        let r = choose|r: Seq<char>| s == #[trigger] (p + r);
        assert((p + r).take(p.len() as int) =~= p);
    }
    if occurs(s, p) {
        let i = choose|i: int| occurs_at(s, p, i);
        assert(s =~= s.take(i) + p + s.skip(i + p.len()));
    }
    if exists|a: Seq<char>, b: Seq<char>| s == #[trigger] (a + p + b) {
        let (a, b) = choose|a: Seq<char>, b: Seq<char>| s == #[trigger] (a + p + b);
        assert((a + p + b).subrange(a.len() as int, (a.len() + p.len()) as int) =~= p);
        assert(occurs_at(s, p, a.len() as int));
    }
}

/// Repeating a character gives that character, and as often as asked.
pub proof fn law_repeating_repeats(c: char, n: nat)
    ensures
        repeated(c, n).len() == n,
        forall|i: int| 0 <= i < n ==> #[trigger] repeated(c, n)[i] == c,
{
}

} // verus!
