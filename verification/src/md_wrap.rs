//! Wrapping of styled text: a paragraph of runs in different styles is wrapped
//! as one text.

use crate::render_line::{fits, SpanStyle};
use crate::text::chars_of;
use crate::width::{char_width, columns, cw, lemma_columns_push, lemma_columns_split};
use vstd::prelude::*;

verus! {

/// A run of text in one style.
pub type Run = (String, SpanStyle);

/// What a run shows.
pub type RunView = (Seq<char>, SpanStyle);

/// What runs show.
pub open spec fn runs(v: Seq<Run>) -> Seq<RunView> {
    Seq::new(v.len(), |i: int| (v[i].0@, v[i].1))
}

/// What lines of runs show.
pub open spec fn run_lines(v: Seq<Vec<Run>>) -> Seq<Seq<RunView>> {
    Seq::new(v.len(), |i: int| runs(v[i]@))
}

/// The characters of a run, each with its style.
pub open spec fn styled(s: Seq<char>, style: SpanStyle) -> Seq<(char, SpanStyle)> {
    Seq::new(s.len(), |i: int| (s[i], style))
}

/// The characters of runs, each with its style.
pub open spec fn flat(v: Seq<RunView>) -> Seq<(char, SpanStyle)>
    decreases v.len(),
{
    if v.len() == 0 {
        Seq::empty()
    } else {
        flat(v.drop_last()) + styled(v.last().0, v.last().1)
    }
}

/// Characters without their styles.
pub open spec fn bare_text(s: Seq<(char, SpanStyle)>) -> Seq<char> {
    Seq::new(s.len(), |i: int| s[i].0)
}

/// Styled characters as runs: neighbours of one style are one run.
pub open spec fn merged(s: Seq<(char, SpanStyle)>) -> Seq<RunView>
    decreases s.len(),
{
    if s.len() == 0 {
        Seq::empty()
    } else {
        let m = merged(s.drop_last());
        let (c, st) = s.last();
        if m.len() > 0 && m.last().1 == st {
            m.drop_last().push((m.last().0.push(c), st))
        } else {
            m.push((seq![c], st))
        }
    }
}

/// Columns of `cs[from..to]`.
pub open spec fn span_columns(cs: Seq<(char, SpanStyle)>, from: int, to: int) -> nat {
    columns(bare_text(cs.subrange(from, to)))
}

/// The line `cs[from..to]`, where it is not empty.
pub open spec fn line_if(cs: Seq<(char, SpanStyle)>, from: int, to: int) -> Seq<
    Seq<(char, SpanStyle)>,
> {
    if from < to {
        seq![cs.subrange(from, to)]
    } else {
        Seq::empty()
    }
}

/// Greedy wrapping from position `i` on, of a line that began at `start` and
/// may be broken at the space `ws`: a line feed ends the line, as does a space
/// that does not fit; another character that does not fit breaks the line at
/// the last space, or else before itself, or behind itself where the line holds
/// nothing yet. Empty lines are dropped.
pub open spec fn wrap_from(
    cs: Seq<(char, SpanStyle)>,
    start: int,
    i: int,
    ws: Option<int>,
    width: nat,
) -> Seq<Seq<(char, SpanStyle)>>
    decreases
            cs.len() - i,
            (if ws is Some {
                1nat
            } else {
                0
            }),
            cs.len() - start,
    when 0 <= start <= i <= cs.len() && (ws matches Some(k) ==> start <= k < i)
{
    if i >= cs.len() {
        line_if(cs, start, cs.len() as int)
    } else {
        let c = cs[i].0;
        let over = span_columns(cs, start, i) + cw(c) > width;
        if c == '\n' || (over && c == ' ') {
            line_if(cs, start, i) + wrap_from(cs, i + 1, i + 1, None, width)
        } else if over {
            match ws {
                Some(k) => line_if(cs, start, k) + wrap_from(cs, k + 1, i, None, width),
                None => if start == i {
                    seq![cs.subrange(i, i + 1)] + wrap_from(cs, i + 1, i + 1, None, width)
                } else {
                    seq![cs.subrange(start, i)] + wrap_from(cs, i, i, None, width)
                },
            }
        } else {
            wrap_from(
                cs,
                start,
                i + 1,
                if c == ' ' {
                    Some(i)
                } else {
                    ws
                },
                width,
            )
        }
    }
}

/// The lines of styled characters.
pub open spec fn wrapped_chars(cs: Seq<(char, SpanStyle)>, width: nat) -> Seq<
    Seq<(char, SpanStyle)>,
> {
    wrap_from(cs, 0, 0, None, width)
}

/// The lines of runs wrapped to `width`; without any width they are one line.
pub open spec fn wrapped_runs(v: Seq<RunView>, width: nat) -> Seq<Seq<RunView>> {
    if width == 0 {
        seq![v]
    } else {
        let ls = wrapped_chars(flat(v), width);
        if ls.len() == 0 {
            seq![Seq::empty()]
        } else {
            Seq::new(ls.len(), |i: int| merged(ls[i]))
        }
    }
}

proof fn lemma_span_columns_push(cs: Seq<(char, SpanStyle)>, start: int, i: int)
    requires
        0 <= start <= i < cs.len(),
    ensures
        span_columns(cs, start, i + 1) == span_columns(cs, start, i) + cw(cs[i].0),
{
    assert(bare_text(cs.subrange(start, i + 1)) =~= bare_text(cs.subrange(start, i)).push(
        cs[i].0,
    ));
    lemma_columns_push(bare_text(cs.subrange(start, i)), cs[i].0);
}

proof fn lemma_span_columns_suffix(cs: Seq<(char, SpanStyle)>, start: int, k: int, i: int)
    requires
        0 <= start <= k <= i <= cs.len(),
    ensures
        span_columns(cs, start, i) == span_columns(cs, start, k) + span_columns(cs, k, i),
{
    let whole = bare_text(cs.subrange(start, i));
    lemma_columns_split(whole, k - start);
    assert(whole.take(k - start) =~= bare_text(cs.subrange(start, k)));
    assert(whole.skip(k - start) =~= bare_text(cs.subrange(k, i)));
}

/// Every line fits.
pub open spec fn all_fit(ls: Seq<Seq<(char, SpanStyle)>>, width: nat) -> bool {
    forall|j: int| 0 <= j < ls.len() ==> fits(bare_text(#[trigger] ls[j]), width)
}

proof fn lemma_all_fit_add(
    a: Seq<Seq<(char, SpanStyle)>>,
    b: Seq<Seq<(char, SpanStyle)>>,
    width: nat,
)
    requires
        all_fit(a, width),
        all_fit(b, width),
    ensures
        all_fit(a + b, width),
{
    assert forall|j: int| 0 <= j < (a + b).len() implies fits(
        bare_text(#[trigger] (a + b)[j]),
        width,
    ) by {
        if j < a.len() {
            assert((a + b)[j] == a[j]);
        } else {
            assert((a + b)[j] == b[j - a.len()]);
        }
    }
}

proof fn lemma_wrap_from_fits(
    cs: Seq<(char, SpanStyle)>,
    start: int,
    i: int,
    ws: Option<int>,
    width: nat,
)
    requires
        0 <= start <= i <= cs.len(),
        ws matches Some(k) ==> start <= k < i,
        span_columns(cs, start, i) <= width,
    ensures
        all_fit(wrap_from(cs, start, i, ws, width), width),
    decreases
            cs.len() - i,
            (if ws is Some {
                1nat
            } else {
                0
            }),
            cs.len() - start,
{
    assert(columns(Seq::<char>::empty()) == 0);
    if i < cs.len() {
        let c = cs[i].0;
        let over = span_columns(cs, start, i) + cw(c) > width;
        assert(bare_text(cs.subrange(i, i)) =~= Seq::empty());
        assert(bare_text(cs.subrange(i + 1, i + 1)) =~= Seq::empty());
        if c == '\n' || (over && c == ' ') {
            lemma_wrap_from_fits(cs, i + 1, i + 1, None, width);
            assert(all_fit(line_if(cs, start, i), width));
            lemma_all_fit_add(
                line_if(cs, start, i),
                wrap_from(cs, i + 1, i + 1, None, width),
                width,
            );
        } else if over {
            match ws {
                Some(k) => {
                    lemma_span_columns_suffix(cs, start, k, i);
                    lemma_span_columns_suffix(cs, start, k + 1, i);
                    lemma_wrap_from_fits(cs, k + 1, i, None, width);
                    assert(all_fit(line_if(cs, start, k), width));
                    lemma_all_fit_add(
                        line_if(cs, start, k),
                        wrap_from(cs, k + 1, i, None, width),
                        width,
                    );
                },
                None => {
                    let end = if start == i {
                        i + 1
                    } else {
                        i
                    };
                    lemma_wrap_from_fits(cs, end, end, None, width);
                    let line = seq![cs.subrange(start, end)];
                    assert(start == i ==> bare_text(line[0]).len() == 1);
                    assert(all_fit(line, width));
                    lemma_all_fit_add(line, wrap_from(cs, end, end, None, width), width);
                },
            }
        } else {
            lemma_span_columns_push(cs, start, i);
            lemma_wrap_from_fits(
                cs,
                start,
                i + 1,
                if c == ' ' {
                    Some(i)
                } else {
                    ws
                },
                width,
            );
        }
    } else {
        assert(all_fit(line_if(cs, start, cs.len() as int), width));
    }
}

/// No line of wrapped runs is wider than asked for, but for a line of one
/// character that is wider by itself.
pub proof fn law_wrapped_runs_fit(cs: Seq<(char, SpanStyle)>, width: nat)
    ensures
        all_fit(wrapped_chars(cs, width), width),
{
    assert(columns(Seq::<char>::empty()) == 0);
    assert(bare_text(cs.subrange(0, 0)) =~= Seq::empty());
    lemma_wrap_from_fits(cs, 0, 0, None, width);
}

fn char_text(c: char) -> (s: String)
    ensures
        s@ == seq![c],
{
    let mut s = String::new();
    s.push(c);
    assert(s@ =~= seq![c]);
    s
}

/// The runs of `cs[from..to]`.
fn merge_range(cs: &Vec<(char, SpanStyle)>, from: usize, to: usize) -> (out: Vec<Run>)
    requires
        from <= to <= cs@.len(),
    ensures
        runs(out@) == merged(cs@.subrange(from as int, to as int)),
{
    let mut out: Vec<Run> = Vec::new();
    let mut i: usize = from;
    assert(cs@.subrange(from as int, from as int) =~= Seq::empty());
    assert(runs(out@) =~= Seq::empty());
    while i < to
        invariant
            from <= i <= to <= cs@.len(),
            runs(out@) =~= merged(cs@.subrange(from as int, i as int)),
        decreases to - i,
    {
        let (c, st) = cs[i];
        let ghost before = out@;
        let ghost s = cs@.subrange(from as int, i + 1);
        proof {
            assert(s.drop_last() =~= cs@.subrange(from as int, i as int));
            assert(s.last() == (c, st));
        }
        let n: usize = out.len();
        if n > 0 && out[n - 1].1 == st {
            let last = out.pop();
            match last {
                Some(r) => {
                    let mut text = r.0;
                    text.push(c);
                    out.push((text, st));
                },
                None => {},
            }
            assert(runs(out@) =~= runs(before).drop_last().push((runs(before).last().0.push(c), st)));
        } else {
            out.push((char_text(c), st));
            assert(runs(out@) =~= runs(before).push((seq![c], st)));
        }
        i += 1;
    }
    out
}

/// Adds the runs of `cs[from..to]` as a line, where it is not empty.
fn push_line(out: &mut Vec<Vec<Run>>, cs: &Vec<(char, SpanStyle)>, from: usize, to: usize)
    requires
        from <= to <= cs@.len(),
    ensures
        run_lines(final(out)@) == run_lines(old(out)@) + merge_all(
            line_if(cs@, from as int, to as int),
        ),
{
    let ghost before = run_lines(out@);
    if from < to {
        let line = merge_range(cs, from, to);
        out.push(line);
        assert(run_lines(out@) =~= before.push(merged(cs@.subrange(from as int, to as int))));
    }
    assert(run_lines(out@) =~= before + merge_all(line_if(cs@, from as int, to as int)));
}

/// Every line as runs.
pub open spec fn merge_all(ls: Seq<Seq<(char, SpanStyle)>>) -> Seq<Seq<RunView>> {
    Seq::new(ls.len(), |i: int| merged(ls[i]))
}

proof fn lemma_merge_all_add(a: Seq<Seq<(char, SpanStyle)>>, b: Seq<Seq<(char, SpanStyle)>>)
    ensures
        merge_all(a + b) == merge_all(a) + merge_all(b),
{
    assert(merge_all(a + b) =~= merge_all(a) + merge_all(b));
}

/// The characters of runs, each with its style.
fn flatten(v: &Vec<Run>) -> (out: Vec<(char, SpanStyle)>)
    ensures
        out@ == flat(runs(v@)),
{
    let mut out: Vec<(char, SpanStyle)> = Vec::new();
    let mut i: usize = 0;
    let ghost all = runs(v@);
    assert(all.take(0) =~= Seq::empty());
    while i < v.len()
        invariant
            i <= v@.len(),
            all == runs(v@),
            out@ =~= flat(all.take(i as int)),
        decreases v@.len() - i,
    {
        let chars = chars_of(v[i].0.as_str());
        let st = v[i].1;
        let ghost before = out@;
        let mut k: usize = 0;
        while k < chars.len()
            invariant
                k <= chars@.len(),
                out@ =~= before + styled(chars@, st).take(k as int),
            decreases chars@.len() - k,
        {
            out.push((chars[k], st));
            k += 1;
        }
        proof {
            assert(styled(chars@, st).take(k as int) =~= styled(chars@, st));
            assert(all.take(i + 1).drop_last() =~= all.take(i as int));
            assert(all.take(i + 1).last() == (v@[i as int].0@, v@[i as int].1));
        }
        i += 1;
    }
    assert(all.take(i as int) =~= all);
    out
}

/// Wraps runs as one text; the styles stay with their characters.
pub fn wrap_spans(spans: &Vec<Run>, width: usize) -> (out: Vec<Vec<Run>>)
    ensures
        run_lines(out@) == wrapped_runs(runs(spans@), width as nat),
{
    let mut out: Vec<Vec<Run>> = Vec::new();
    if width == 0 {
        let copy = copy_runs(spans);
        out.push(copy);
        assert(run_lines(out@) =~= seq![runs(spans@)]);
        return out;
    }
    let cs = flatten(spans);
    let n: usize = cs.len();
    let mut start: usize = 0;
    let mut line_w: usize = 0;
    let mut last_ws: Option<usize> = None;
    let mut i: usize = 0;
    let ghost whole = wrapped_chars(cs@, width as nat);
    proof {
        assert(run_lines(out@) =~= Seq::empty());
        assert(bare_text(cs@.subrange(0, 0)) =~= Seq::empty());
        assert(columns(Seq::<char>::empty()) == 0);
    }
    while i < n
        invariant
            0 < width,
            n == cs@.len(),
            start <= i <= n,
            last_ws matches Some(k) ==> start <= k < i,
            line_w == span_columns(cs@, start as int, i as int),
            line_w <= width,
            whole == wrapped_chars(cs@, width as nat),
            run_lines(out@) + merge_all(
                wrap_from(
                    cs@,
                    start as int,
                    i as int,
                    match last_ws {
                        Some(k) => Some(k as int),
                        None => None,
                    },
                    width as nat,
                ),
            ) == merge_all(whole),
        decreases
                n - i,
                (if last_ws is Some {
                    1nat
                } else {
                    0
                }),
                n - start,
    {
        let c = cs[i].0;
        let w = char_width(c);
        let over = w > width - line_w;
        let ghost ws = match last_ws {
            Some(k) => Some(k as int),
            None => None,
        };
        let ghost shown = run_lines(out@);
        proof {
            assert(columns(Seq::<char>::empty()) == 0);
            assert(bare_text(cs@.subrange(i as int, i as int)) =~= Seq::empty());
            assert(bare_text(cs@.subrange(i + 1, i + 1)) =~= Seq::empty());
        }
        if c == '\n' || (over && c == ' ') {
            push_line(&mut out, &cs, start, i);
            proof {
                lemma_merge_all_add(
                    line_if(cs@, start as int, i as int),
                    wrap_from(cs@, i + 1, i + 1, None, width as nat),
                );
                lemma_assoc(
                    shown,
                    merge_all(line_if(cs@, start as int, i as int)),
                    merge_all(wrap_from(cs@, i + 1, i + 1, None, width as nat)),
                );
            }
            i += 1;
            start = i;
            line_w = 0;
            last_ws = None;
        } else if over {
            match last_ws {
                Some(k) => {
                    push_line(&mut out, &cs, start, k);
                    proof {
                        lemma_span_columns_suffix(cs@, start as int, k + 1, i as int);
                        lemma_merge_all_add(
                            line_if(cs@, start as int, k as int),
                            wrap_from(cs@, k + 1, i as int, None, width as nat),
                        );
                        lemma_assoc(
                            shown,
                            merge_all(line_if(cs@, start as int, k as int)),
                            merge_all(wrap_from(cs@, k + 1, i as int, None, width as nat)),
                        );
                    }
                    start = k + 1;
                    line_w = width_of(&cs, start, i, line_w);
                    last_ws = None;
                },
                None => {
                    let end: usize = if start == i {
                        i + 1
                    } else {
                        i
                    };
                    push_line(&mut out, &cs, start, end);
                    proof {
                        assert(line_if(cs@, start as int, end as int) == seq![
                            cs@.subrange(start as int, end as int),
                        ]);
                        lemma_merge_all_add(
                            line_if(cs@, start as int, end as int),
                            wrap_from(cs@, end as int, end as int, None, width as nat),
                        );
                        lemma_assoc(
                            shown,
                            merge_all(line_if(cs@, start as int, end as int)),
                            merge_all(wrap_from(cs@, end as int, end as int, None, width as nat)),
                        );
                    }
                    start = end;
                    line_w = 0;
                    i = end;
                },
            }
        } else {
            proof {
                lemma_span_columns_push(cs@, start as int, i as int);
            }
            if c == ' ' {
                last_ws = Some(i);
            }
            line_w = line_w + w;
            i += 1;
        }
    }
    push_line(&mut out, &cs, start, n);
    assert(run_lines(out@) == merge_all(whole));
    if out.len() == 0 {
        let empty: Vec<Run> = Vec::new();
        assert(runs(empty@) =~= Seq::empty());
        out.push(empty);
        assert(merge_all(whole).len() == 0);
        assert(run_lines(out@) =~= seq![Seq::empty()]);
    } else {
        assert(run_lines(out@).len() > 0);
    }
    out
}

proof fn lemma_assoc(a: Seq<Seq<RunView>>, b: Seq<Seq<RunView>>, c: Seq<Seq<RunView>>)
    ensures
        a + (b + c) == (a + b) + c,
{
    assert(a + (b + c) =~= (a + b) + c);
}

/// Columns of `cs[from..to]`, known to be at most `most`.
fn width_of(cs: &Vec<(char, SpanStyle)>, from: usize, to: usize, most: usize) -> (w: usize)
    requires
        from <= to <= cs@.len(),
        span_columns(cs@, from as int, to as int) <= most,
    ensures
        w == span_columns(cs@, from as int, to as int),
{
    let mut w: usize = 0;
    let mut i: usize = from;
    proof {
        assert(bare_text(cs@.subrange(from as int, from as int)) =~= Seq::empty());
        assert(columns(Seq::<char>::empty()) == 0);
    }
    while i < to
        invariant
            from <= i <= to <= cs@.len(),
            span_columns(cs@, from as int, to as int) <= most,
            w == span_columns(cs@, from as int, i as int),
        decreases to - i,
    {
        proof {
            lemma_span_columns_push(cs@, from as int, i as int);
            lemma_span_columns_suffix(cs@, from as int, i + 1, to as int);
        }
        w = w + char_width(cs[i].0);
        i += 1;
    }
    w
}

/// Copies of runs.
pub fn copy_runs(v: &Vec<Run>) -> (out: Vec<Run>)
    ensures
        runs(out@) == runs(v@),
{
    let mut out: Vec<Run> = Vec::new();
    let mut i: usize = 0;
    while i < v.len()
        invariant
            i <= v@.len(),
            runs(out@) =~= runs(v@).take(i as int),
        decreases v@.len() - i,
    {
        let ghost before = runs(out@);
        let run: Run = (v[i].0.clone(), v[i].1);
        out.push(run);
        i += 1;
        assert(runs(out@) =~= before.push(runs(v@)[i - 1]));
        assert(runs(v@).take(i as int) =~= runs(v@).take(i - 1).push(runs(v@)[i - 1]));
    }
    assert(runs(v@).take(i as int) =~= runs(v@));
    out
}

} // verus!
