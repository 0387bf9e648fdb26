//! Styled wrapping against plain wrapping: the styles change no line.

use crate::md_code::non_empty;
use crate::md_wrap::{
    bare_text, flat, line_if, merged, span_columns, styled, wrap_from, wrapped_chars,
    wrapped_runs, RunView,
};
use crate::render_line::{
    law_wrap_incremental, run_on, wrap_break, wrap_feed, wrap_seal, wrap_start, wrap_step,
    wrapped, SpanStyle, WrapModel,
};
use crate::width::{columns, cw, lemma_columns_push, lemma_columns_split};
use vstd::prelude::*;

verus! {

/// The texts of runs.
pub open spec fn run_texts(v: Seq<RunView>) -> Seq<Seq<char>> {
    Seq::new(v.len(), |i: int| v[i].0)
}

/// The text of runs in one.
pub open spec fn text_of(v: Seq<RunView>) -> Seq<char> {
    run_on(run_texts(v))
}

/// The texts of lines of runs.
pub open spec fn row_texts(rows: Seq<Seq<RunView>>) -> Seq<Seq<char>> {
    Seq::new(rows.len(), |i: int| text_of(rows[i]))
}

/// No two neighbouring runs have the same style.
pub open spec fn styles_alternate(v: Seq<RunView>) -> bool {
    forall|i: int| 0 <= i < v.len() - 1 ==> (#[trigger] v[i]).1 != v[i + 1].1
}

/// Lines of styled characters without their styles.
spec fn bare_lines(ls: Seq<Seq<(char, SpanStyle)>>) -> Seq<Seq<char>> {
    Seq::new(ls.len(), |i: int| bare_text(ls[i]))
}

proof fn lemma_bare_add(a: Seq<Seq<(char, SpanStyle)>>, b: Seq<Seq<(char, SpanStyle)>>)
    ensures
        bare_lines(a + b) == bare_lines(a) + bare_lines(b),
{
    assert(bare_lines(a + b) =~= bare_lines(a) + bare_lines(b));
}

proof fn lemma_non_empty_push(ls: Seq<Seq<char>>, l: Seq<char>)
    ensures
        non_empty(ls.push(l)) == if l.len() == 0 {
            non_empty(ls)
        } else {
            non_empty(ls).push(l)
        },
{
    assert(ls.push(l).drop_last() =~= ls);
}

/// A line added to the finished ones adds what `line_if` gives.
proof fn lemma_line_added(
    cs: Seq<(char, SpanStyle)>,
    from: int,
    to: int,
    sealed: Seq<Seq<char>>,
    rest: Seq<Seq<(char, SpanStyle)>>,
)
    requires
        0 <= from <= to <= cs.len(),
    ensures
        non_empty(sealed.push(bare_text(cs.subrange(from, to)))) + bare_lines(rest) == non_empty(
            sealed,
        ) + bare_lines(line_if(cs, from, to) + rest),
{
    let l = bare_text(cs.subrange(from, to));
    lemma_non_empty_push(sealed, l);
    lemma_bare_add(line_if(cs, from, to), rest);
    if from < to {
        assert(bare_lines(line_if(cs, from, to)) =~= seq![l]);
        assert(non_empty(sealed).push(l) + bare_lines(rest) =~= non_empty(sealed) + (seq![l]
            + bare_lines(rest)));
    } else {
        assert(bare_lines(line_if(cs, from, to)) =~= Seq::empty());
        assert(Seq::<Seq<char>>::empty() + bare_lines(rest) =~= bare_lines(rest));
    }
}

/// Reading one character and then the rest is reading all.
proof fn lemma_feed_first(m: WrapModel, s: Seq<char>, width: nat)
    requires
        s.len() > 0,
    ensures
        wrap_feed(m, s, width) == wrap_feed(wrap_step(m, s[0], width), s.drop_first(), width),
{
    let one = seq![s[0]];
    assert(one.drop_last() =~= Seq::empty());
    assert(one.last() == s[0]);
    assert(wrap_feed(m, one.drop_last(), width) == m);
    assert(wrap_feed(m, one, width) == wrap_step(m, s[0], width));
    law_wrap_incremental(m, one, s.drop_first(), width);
    assert(one + s.drop_first() =~= s);
}

/// `m` is the state of plain wrapping where styled wrapping stands.
spec fn in_step(
    cs: Seq<(char, SpanStyle)>,
    start: int,
    i: int,
    ws: Option<int>,
    width: nat,
    m: WrapModel,
) -> bool {
    &&& 0 <= start <= i <= cs.len()
    &&& ws matches Some(k) ==> start <= k < i
    &&& m.line == bare_text(cs.subrange(start, i))
    &&& m.space == match ws {
        Some(k) => Some(k - start),
        None => None,
    }
    &&& columns(m.line) <= width
}

/// All lines, the unfinished one included.
spec fn all_lines(m: WrapModel) -> Seq<Seq<char>> {
    m.sealed.push(m.line)
}

#[verifier::spinoff_prover]
#[verifier::rlimit(60)]
proof fn lemma_wraps_agree(
    cs: Seq<(char, SpanStyle)>,
    start: int,
    i: int,
    ws: Option<int>,
    width: nat,
    m: WrapModel,
)
    requires
        in_step(cs, start, i, ws, width, m),
        forall|j: int| 0 <= j < cs.len() ==> cw((#[trigger] cs[j]).0) <= width,
    ensures
        non_empty(all_lines(wrap_feed(m, bare_text(cs.skip(i)), width))) == non_empty(m.sealed)
            + bare_lines(wrap_from(cs, start, i, ws, width)),
    decreases
            cs.len() - i,
            (if ws is Some {
                1nat
            } else {
                0
            }),
            cs.len() - start,
{
    assert(columns(Seq::<char>::empty()) == 0);
    let rest = bare_text(cs.skip(i));
    if i >= cs.len() {
        assert(rest =~= Seq::empty());
        assert(cs.subrange(start, i) =~= cs.subrange(start, cs.len() as int));
        lemma_line_added(cs, start, cs.len() as int, m.sealed, Seq::empty());
        let l = line_if(cs, start, cs.len() as int);
        assert(l + Seq::<Seq<(char, SpanStyle)>>::empty() =~= l);
        assert(bare_lines(Seq::empty()) =~= Seq::empty());
        let sealed = m.sealed.push(m.line);
        assert(non_empty(sealed) + bare_lines(Seq::empty()) =~= non_empty(sealed));
    } else {
        let c = cs[i].0;
        let n = wrap_step(m, c, width);
        assert(rest[0] == c);
        assert(rest.drop_first() =~= bare_text(cs.skip(i + 1)));
        lemma_feed_first(m, rest, width);
        let over = span_columns(cs, start, i) + cw(c) > width;
        assert(bare_text(cs.subrange(i + 1, i + 1)) =~= Seq::empty());
        assert(bare_text(cs.subrange(i, i)) =~= Seq::empty());
        if c == '\n' || (over && c == ' ') {
            lemma_wraps_agree(cs, i + 1, i + 1, None, width, n);
            lemma_line_added(
                cs,
                start,
                i,
                m.sealed,
                wrap_from(cs, i + 1, i + 1, None, width),
            );
        } else if over {
            match ws {
                Some(k) => {
                    let b = wrap_break(m, k - start);
                    lemma_columns_split(m.line, k + 1 - start);
                    assert(b.line =~= bare_text(cs.subrange(k + 1, i)));
                    assert(m.line.take(k - start) =~= bare_text(cs.subrange(start, k)));
                    assert(wrap_step(b, c, width) =~= n);
                    lemma_feed_first(b, rest, width);
                    lemma_wraps_agree(cs, k + 1, i, None, width, b);
                    lemma_line_added(
                        cs,
                        start,
                        k,
                        m.sealed,
                        wrap_from(cs, k + 1, i, None, width),
                    );
                },
                None => {
                    assert(start < i);
                    let b = wrap_seal(m);
                    assert(wrap_step(b, c, width) =~= n);
                    lemma_feed_first(b, rest, width);
                    lemma_wraps_agree(cs, i, i, None, width, b);
                    lemma_line_added(cs, start, i, m.sealed, wrap_from(cs, i, i, None, width));
                },
            }
        } else {
            lemma_columns_push(m.line, c);
            assert(n.line =~= bare_text(cs.subrange(start, i + 1)));
            lemma_wraps_agree(
                cs,
                start,
                i + 1,
                if c == ' ' {
                    Some(i)
                } else {
                    ws
                },
                width,
                n,
            );
        }
    }
}

proof fn lemma_flat_text(v: Seq<RunView>)
    ensures
        bare_text(flat(v)) == text_of(v),
    decreases v.len(),
{
    if v.len() == 0 {
        assert(bare_text(flat(v)) =~= text_of(v));
    } else {
        lemma_flat_text(v.drop_last());
        assert(run_texts(v).drop_last() =~= run_texts(v.drop_last()));
        assert(bare_text(styled(v.last().0, v.last().1)) =~= v.last().0);
        assert(bare_text(flat(v)) =~= bare_text(flat(v.drop_last())) + v.last().0);
    }
}

/// Merging characters into runs keeps every character and its style, and no two
/// neighbouring runs have the same style.
pub proof fn law_merging_keeps_styles(s: Seq<(char, SpanStyle)>)
    ensures
        flat(merged(s)) == s,
        text_of(merged(s)) == bare_text(s),
        styles_alternate(merged(s)),
    decreases s.len(),
{
    if s.len() > 0 {
        let t = s.drop_last();
        law_merging_keeps_styles(t);
        let m = merged(t);
        let r = merged(s);
        let (c, st) = s.last();
        if m.len() > 0 && m.last().1 == st {
            assert(r.drop_last() =~= m.drop_last());
            assert(styled(m.last().0.push(c), st) =~= styled(m.last().0, st).push((c, st)));
            assert(flat(r) =~= flat(m).push((c, st)));
            assert forall|i: int| 0 <= i < r.len() - 1 implies (#[trigger] r[i]).1 != r[i + 1].1 by {
                assert(m[i].1 != m[i + 1].1);
            }
        } else {
            assert(r.drop_last() =~= m);
            assert(styled(seq![c], st) =~= seq![(c, st)]);
            assert(flat(r) =~= flat(m).push((c, st)));
            assert forall|i: int| 0 <= i < r.len() - 1 implies (#[trigger] r[i]).1 != r[i + 1].1 by {
                if i < m.len() - 1 {
                    assert(m[i].1 != m[i + 1].1);
                }
            }
        }
        assert(t.push(s.last()) =~= s);
    }
    lemma_flat_text(merged(s));
}

/// The lines of wrapped runs read as the lines of their text wrapped without
/// styles, the empty ones left out; in every line no two neighbouring runs have
/// the same style.
pub proof fn law_styles_change_no_line(v: Seq<RunView>, width: nat)
    requires
        width > 0,
        forall|j: int| 0 <= j < text_of(v).len() ==> cw(#[trigger] text_of(v)[j]) <= width,
    ensures
        ({
            let full = non_empty(wrapped(text_of(v), width));
            row_texts(wrapped_runs(v, width)) == if full.len() == 0 {
                seq![Seq::<char>::empty()]
            } else {
                full
            }
        }),
        forall|i: int|
            0 <= i < wrapped_runs(v, width).len() ==> styles_alternate(
                #[trigger] wrapped_runs(v, width)[i],
            ),
{
    let cs = flat(v);
    let text = text_of(v);
    lemma_flat_text(v);
    assert forall|j: int| 0 <= j < cs.len() implies cw((#[trigger] cs[j]).0) <= width by {
        assert(text[j] == cs[j].0);
    }
    assert(bare_text(cs.subrange(0, 0)) =~= Seq::empty());
    assert(columns(Seq::<char>::empty()) == 0);
    lemma_wraps_agree(cs, 0, 0, None, width, wrap_start());
    assert(cs.skip(0) =~= cs);
    assert(non_empty(Seq::empty()) =~= Seq::empty());
    let ls = wrapped_chars(cs, width);
    let full = non_empty(wrapped(text, width));
    assert(full =~= bare_lines(ls));
    let rows = wrapped_runs(v, width);
    if ls.len() == 0 {
        assert(run_texts(rows[0]) =~= Seq::empty());
        assert(text_of(rows[0]) =~= Seq::empty());
        assert(row_texts(rows) =~= seq![Seq::<char>::empty()]);
    } else {
        assert forall|i: int| 0 <= i < ls.len() implies text_of(#[trigger] rows[i])
            == bare_text(ls[i]) && styles_alternate(rows[i]) by {
            law_merging_keeps_styles(ls[i]);
        }
        assert(row_texts(rows) =~= full);
    }
}

/// Where runs are cut makes no difference: the same characters in the same
/// styles wrap to the same lines.
pub proof fn law_cuts_change_no_line(a: Seq<RunView>, b: Seq<RunView>, width: nat)
    requires
        width > 0,
        flat(a) == flat(b),
    ensures
        wrapped_runs(a, width) == wrapped_runs(b, width),
{
}

} // verus!
