//! Where wrapping breaks a text: only where it has to.

use crate::render_line::{
    run_on, wrap_feed, wrap_put, wrap_seal, wrap_start, wrap_step, wrapped, WrapModel,
};
use crate::text_laws::lacks;
use crate::width::{columns, cw, lemma_columns_add, lemma_columns_push};
use vstd::prelude::*;

verus! {

/// The line, a space and the first `q` characters behind it, which are of one
/// word, take more than `width` columns.
pub open spec fn too_wide(line: Seq<char>, rest: Seq<char>, q: int, width: nat) -> bool {
    &&& 0 <= q <= rest.len()
    &&& lacks(rest.take(q), ' ')
    &&& columns(line) + cw(' ') + columns(rest.take(q)) > width
}

/// The line had to end before `rest`.
pub open spec fn ends_for(line: Seq<char>, rest: Seq<char>, width: nat) -> bool {
    exists|q: int| #[trigger] too_wide(line, rest, q, width)
}

/// How much of the current line the next break leaves on it.
spec fn settled_len(m: WrapModel) -> int {
    match m.space {
        Some(k) => k,
        None => m.line.len() as int,
    }
}

/// What stands for good behind finished line `i`.
spec fn settled_rest(m: WrapModel, i: int) -> Seq<char> {
    run_on(m.sealed.skip(i + 1)) + m.line.take(settled_len(m))
}

/// Every break so far was needed, and the last space is known.
spec fn only_needed(m: WrapModel, width: nat) -> bool {
    &&& forall|i: int|
        0 <= i < m.sealed.len() ==> ends_for(#[trigger] m.sealed[i], settled_rest(m, i), width)
    &&& m.space matches Some(k) ==> 0 <= k < m.line.len() && m.line[k] == ' ' && lacks(
        m.line.skip(k + 1),
        ' ',
    )
    &&& m.space is None ==> lacks(m.line, ' ')
}

proof fn lemma_more_rest(line: Seq<char>, a: Seq<char>, t: Seq<char>, width: nat)
    requires
        ends_for(line, a, width),
    ensures
        ends_for(line, a + t, width),
{
    let q = choose|q: int| #[trigger] too_wide(line, a, q, width);
    assert((a + t).take(q) =~= a.take(q));
    assert(too_wide(line, a + t, q, width));
}

proof fn lemma_run_on(ls: Seq<Seq<char>>, x: Seq<char>, i: int)
    requires
        0 <= i <= ls.len(),
    ensures
        run_on(ls.push(x).skip(i)) == run_on(ls.skip(i)) + x,
{
    assert(ls.push(x).skip(i).drop_last() =~= ls.skip(i));
}

proof fn lemma_put_needed(m: WrapModel, c: char, width: nat)
    requires
        only_needed(m, width),
    ensures
        only_needed(wrap_put(m, c), width),
{
    let n = wrap_put(m, c);
    let a = m.line.take(settled_len(m));
    let b = n.line.take(settled_len(n));
    let t = b.skip(a.len() as int);
    assert(b =~= a + t);
    assert forall|i: int| 0 <= i < n.sealed.len() implies ends_for(
        #[trigger] n.sealed[i],
        settled_rest(n, i),
        width,
    ) by {
        assert(ends_for(m.sealed[i], settled_rest(m, i), width));
        lemma_more_rest(m.sealed[i], settled_rest(m, i), t, width);
        assert(settled_rest(n, i) =~= settled_rest(m, i) + t);
    }
    match n.space {
        Some(k) => {
            let s = n.line.skip(k + 1);
            assert forall|i: int| 0 <= i < s.len() implies #[trigger] s[i] != ' ' by {
                if i < s.len() - 1 {
                    assert(s[i] == m.line.skip(k + 1)[i]);
                }
            }
        },
        None => {
            assert forall|i: int| 0 <= i < n.line.len() implies #[trigger] n.line[i] != ' ' by {
                if i < m.line.len() {
                    assert(n.line[i] == m.line[i]);
                }
            }
        },
    }
}

/// The current line ends after `cut` characters, and another one starts.
proof fn lemma_end_needed(m: WrapModel, n: WrapModel, cut: int, width: nat)
    requires
        only_needed(m, width),
        settled_len(m) <= cut <= m.line.len(),
        n.sealed == m.sealed.push(m.line.take(cut)),
        n.space is None,
        lacks(n.line, ' '),
        ends_for(m.line.take(cut), n.line, width),
    ensures
        only_needed(n, width),
{
    let last = m.line.take(cut);
    let a = m.line.take(settled_len(m));
    assert(n.line.take(n.line.len() as int) =~= n.line);
    assert forall|i: int| 0 <= i < n.sealed.len() implies ends_for(
        #[trigger] n.sealed[i],
        settled_rest(n, i),
        width,
    ) by {
        lemma_run_on(m.sealed, last, if i + 1 <= m.sealed.len() {
            i + 1
        } else {
            m.sealed.len() as int
        });
        if i < m.sealed.len() {
            assert(n.sealed[i] == m.sealed[i]);
            let t = last.skip(a.len() as int) + n.line;
            lemma_more_rest(m.sealed[i], settled_rest(m, i), t, width);
            assert(last =~= a + last.skip(a.len() as int));
            assert(settled_rest(n, i) =~= settled_rest(m, i) + t);
        } else {
            assert(n.sealed.skip(i + 1) =~= Seq::empty());
            assert(settled_rest(n, i) =~= n.line);
        }
    }
}

proof fn lemma_step_needed(m: WrapModel, c: char, width: nat)
    requires
        only_needed(m, width),
        c != '\n',
    ensures
        only_needed(wrap_step(m, c, width), width),
{
    let n = wrap_step(m, c, width);
    let none = Seq::<char>::empty();
    assert(columns(none) == 0);
    let whole = m.line.take(m.line.len() as int);
    assert(whole =~= m.line);
    lemma_columns_push(none, c);
    assert(none.push(c) =~= seq![c]);
    if columns(m.line) + cw(c) <= width {
        lemma_put_needed(m, c, width);
    } else if c == ' ' {
        assert(n.line.take(0) =~= none);
        assert(too_wide(whole, n.line, 0, width));
        lemma_end_needed(m, n, m.line.len() as int, width);
    } else {
        match m.space {
            Some(k) => {
                let head = m.line.take(k);
                let tail = m.line.skip(k + 1);
                assert(m.line =~= head.push(' ') + tail);
                lemma_columns_add(head.push(' '), tail);
                lemma_columns_push(head, ' ');
                let word = tail.push(c);
                lemma_columns_push(tail, c);
                assert(lacks(word, ' '));
                assert(word.take(word.len() as int) =~= word);
                assert(too_wide(head, word, word.len() as int, width));
                if columns(tail) + cw(c) <= width {
                    assert(n.line == word);
                    lemma_end_needed(m, n, k, width);
                } else {
                    lemma_word_broken(m, c, k, width);
                }
            },
            None => {
                assert(n.line =~= seq![c]);
                assert(n.line.take(1) =~= seq![c]);
                assert(too_wide(whole, n.line, 1, width));
                lemma_end_needed(m, n, m.line.len() as int, width);
            },
        }
    }
}

/// A word behind a space that is too long for a line of its own is broken as
/// well.
proof fn lemma_word_broken(m: WrapModel, c: char, k: int, width: nat)
    requires
        only_needed(m, width),
        m.space == Some(k),
        c != ' ',
        c != '\n',
        columns(m.line) + cw(c) > width,
        columns(m.line.skip(k + 1)) + cw(c) > width,
        too_wide(
            m.line.take(k),
            m.line.skip(k + 1).push(c),
            m.line.skip(k + 1).len() as int + 1,
            width,
        ),
    ensures
        only_needed(wrap_step(m, c, width), width),
{
    let n = wrap_step(m, c, width);
    let head = m.line.take(k);
    let tail = m.line.skip(k + 1);
    let none = Seq::<char>::empty();
    lemma_columns_push(none, c);
    assert(columns(none) == 0);
    assert(none.push(c) =~= seq![c]);
    assert(n.line =~= seq![c]);
    assert(n.line.take(1) =~= seq![c]);
    assert(n.sealed =~= m.sealed.push(head).push(tail));
    assert(too_wide(tail, n.line, 1, width));
    assert forall|i: int| 0 <= i < n.sealed.len() implies ends_for(
        #[trigger] n.sealed[i],
        settled_rest(n, i),
        width,
    ) by {
        let one = m.sealed.push(head);
        if i < m.sealed.len() {
            lemma_run_on(m.sealed, head, i + 1);
            lemma_run_on(one, tail, i + 1);
            assert(n.sealed[i] == m.sealed[i]);
            let t = tail + n.line;
            lemma_more_rest(m.sealed[i], settled_rest(m, i), t, width);
            assert(settled_rest(n, i) =~= settled_rest(m, i) + t);
        } else if i == m.sealed.len() {
            lemma_run_on(one, tail, i + 1);
            assert(one.skip(i + 1) =~= Seq::empty());
            assert(settled_rest(n, i) =~= tail.push(c));
            assert(n.sealed[i] == head);
        } else {
            assert(n.sealed.skip(i + 1) =~= Seq::empty());
            assert(settled_rest(n, i) =~= n.line);
            assert(n.sealed[i] == tail);
        }
    }
}

proof fn lemma_feed_needed(s: Seq<char>, width: nat)
    requires
        lacks(s, '\n'),
    ensures
        only_needed(wrap_feed(wrap_start(), s, width), width),
    decreases s.len(),
{
    if s.len() > 0 {
        let d = s.drop_last();
        assert forall|i: int| 0 <= i < d.len() implies #[trigger] d[i] != '\n' by {
            assert(d[i] == s[i]);
        }
        lemma_feed_needed(d, width);
        assert(s.last() == s[s.len() - 1]);
        lemma_step_needed(wrap_feed(wrap_start(), d, width), s.last(), width);
    }
}

/// Wrapping breaks a text without line feeds only where it has to: each line
/// with a space and the beginning of the word behind it would be too wide.
pub proof fn law_breaks_are_needed(s: Seq<char>, width: nat, i: int)
    requires
        width > 0,
        lacks(s, '\n'),
        0 <= i < wrapped(s, width).len() - 1,
    ensures
        ends_for(wrapped(s, width)[i], run_on(wrapped(s, width).skip(i + 1)), width),
{
    let m = wrap_feed(wrap_start(), s, width);
    lemma_feed_needed(s, width);
    lemma_run_on(m.sealed, m.line, i + 1);
    let a = m.line.take(settled_len(m));
    let t = m.line.skip(settled_len(m));
    assert(m.line =~= a + t);
    lemma_more_rest(m.sealed[i], settled_rest(m, i), t, width);
    assert(run_on(wrapped(s, width).skip(i + 1)) =~= settled_rest(m, i) + t);
    assert(wrapped(s, width)[i] == m.sealed[i]);
}

/// A text that fits on one line, and holds no line feed, stays on one line as
/// it is.
pub proof fn law_fitting_text_is_one_line(s: Seq<char>, width: nat)
    requires
        columns(s) <= width,
        lacks(s, '\n'),
    ensures
        wrapped(s, width) == seq![s],
{
    if width > 0 {
        lemma_fitting(s, width);
        let m = wrap_feed(wrap_start(), s, width);
        assert(m.sealed.push(m.line) =~= seq![s]);
    }
}

proof fn lemma_fitting(s: Seq<char>, width: nat)
    requires
        columns(s) <= width,
        lacks(s, '\n'),
    ensures
        wrap_feed(wrap_start(), s, width).sealed.len() == 0,
        wrap_feed(wrap_start(), s, width).line == s,
    decreases s.len(),
{
    if s.len() > 0 {
        let d = s.drop_last();
        assert forall|i: int| 0 <= i < d.len() implies #[trigger] d[i] != '\n' by {
            assert(d[i] == s[i]);
        }
        assert(s.last() == s[s.len() - 1]);
        lemma_fitting(d, width);
        assert(d.push(s.last()) =~= s);
    } else {
        assert(wrap_start().line =~= s);
    }
}

/// A line feed ends a line, whether it is full or not.
pub proof fn law_line_feed_ends_the_line(a: Seq<char>, width: nat)
    requires
        width > 0,
    ensures
        wrapped(a.push('\n'), width) == wrapped(a, width).push(Seq::empty()),
{
    assert(a.push('\n').drop_last() =~= a);
    let m = wrap_feed(wrap_start(), a, width);
    let n = wrap_feed(wrap_start(), a.push('\n'), width);
    assert(n == wrap_seal(m));
}

} // verus!
