//! Code blocks: highlighted lines behind an indent, cut hard at the width.

use crate::highlight::{
    all_runs, direct_style, highlighted, lang_view, line_runs, run_style, syntax_known, CodeRun,
    CodeRunView, Highlighter,
};
use crate::md_table::fit_prefix;
use crate::render_line::{
    extend_rows, fit_len, lemma_rows_add, lemma_rows_push, rows, wrap_text, wrapped, Color,
    DirectStyle, RenderLine, RenderStyle, SpanView,
};
use crate::text::{cat2, chars_of, lemma_texts_push, lines, lines_of, string_of, texts};
use crate::tool_diff::less;
use crate::width::{columns, cw, range_width};
use vstd::prelude::*;

verus! {

broadcast use {lemma_rows_push, lemma_rows_add, lemma_texts_push};

/// The background of code.
pub open spec fn code_back() -> DirectStyle {
    DirectStyle {
        fg: None,
        bg: Some(Color::Indexed(236)),
        bold: false,
        italic: false,
        underlined: false,
    }
}

/// Code that could not be highlighted.
pub open spec fn code_plain() -> DirectStyle {
    DirectStyle { fg: Some(Color::White), ..code_back() }
}

fn back_style() -> (s: DirectStyle)
    ensures
        s == code_back(),
{
    DirectStyle {
        fg: None,
        bg: Some(Color::Indexed(236)),
        bold: false,
        italic: false,
        underlined: false,
    }
}

fn plain_style() -> (s: DirectStyle)
    ensures
        s == code_plain(),
{
    DirectStyle {
        fg: Some(Color::White),
        bg: Some(Color::Indexed(236)),
        bold: false,
        italic: false,
        underlined: false,
    }
}

/// A span in colours of its own.
pub open spec fn direct(text: Seq<char>, style: DirectStyle) -> SpanView {
    SpanView { text, style: RenderStyle::Direct(style) }
}

/// The start of a code line.
pub open spec fn code_indent() -> Seq<SpanView> {
    seq![direct("  "@, code_back())]
}

fn indent_line() -> (l: RenderLine)
    ensures
        l@ == code_indent(),
{
    RenderLine::new().span_direct("  ", back_style())
}

/// The columns that code has.
pub open spec fn code_width(width: nat) -> nat {
    if less(width, 2) >= 10 {
        less(width, 2)
    } else {
        10
    }
}

/// Highlighted code being laid out: finished lines, the current one, and how
/// many columns it has left.
#[verifier::ext_equal]
pub struct CodeModel {
    pub done: Seq<Seq<SpanView>>,
    pub cur: Seq<SpanView>,
    pub room: nat,
}

/// A new line.
pub open spec fn code_break(m: CodeModel, max_w: nat) -> CodeModel {
    CodeModel { done: m.done.push(m.cur), cur: code_indent(), room: max_w }
}

/// How many characters of `text` go on a line with `room` columns: those that
/// fit, and at least one.
pub open spec fn code_take(text: Seq<char>, room: nat) -> nat {
    let n = fit_len(text, room);
    if n == 0 {
        1
    } else {
        n
    }
}

/// One run laid out: what fits goes on the current line, the rest on new ones.
pub open spec fn code_run(m: CodeModel, text: Seq<char>, style: DirectStyle, max_w: nat) -> CodeModel
    decreases text.len(),
{
    if text.len() == 0 {
        m
    } else {
        let at = if m.room == 0 {
            code_break(m, max_w)
        } else {
            m
        };
        let n = code_take(text, at.room) as int;
        let head = text.take(n);
        let put = CodeModel {
            cur: at.cur.push(direct(head, style)),
            room: less(at.room, columns(head)),
            ..at
        };
        if 0 < n < text.len() {
            code_run(code_break(put, max_w), text.skip(n), style, max_w)
        } else {
            put
        }
    }
}

/// All runs of a line laid out.
pub open spec fn code_runs(m: CodeModel, rs: Seq<CodeRunView>, max_w: nat) -> CodeModel
    decreases rs.len(),
{
    if rs.len() == 0 {
        m
    } else {
        let r = rs.last();
        code_run(
            code_runs(m, rs.drop_last(), max_w),
            r.text,
            run_style(r.fg, r.bg, r.font),
            max_w,
        )
    }
}

/// A highlighted line of code.
pub open spec fn code_line_rows(rs: Seq<CodeRunView>, max_w: nat) -> Seq<Seq<SpanView>> {
    let m = code_runs(
        CodeModel { done: Seq::empty(), cur: code_indent(), room: max_w },
        rs,
        max_w,
    );
    m.done.push(m.cur)
}

/// A line of code that could not be highlighted.
pub open spec fn plain_code_rows(line: Seq<char>, max_w: nat) -> Seq<Seq<SpanView>> {
    let ls = wrapped(line, max_w);
    Seq::new(ls.len(), |i: int| seq![direct("  "@ + ls[i], code_plain())])
}

/// The lines that hold something.
pub open spec fn non_empty(ls: Seq<Seq<char>>) -> Seq<Seq<char>>
    decreases ls.len(),
{
    if ls.len() == 0 {
        Seq::empty()
    } else if ls.last().len() == 0 {
        non_empty(ls.drop_last())
    } else {
        non_empty(ls.drop_last()).push(ls.last())
    }
}

/// Lines of code, `hl` holding the runs of those that hold something.
pub open spec fn code_lines_rows(
    ls: Seq<Seq<char>>,
    hl: Seq<Option<Seq<CodeRunView>>>,
    max_w: nat,
) -> Seq<Seq<SpanView>>
    decreases ls.len(),
{
    if ls.len() == 0 {
        Seq::empty()
    } else {
        let before = code_lines_rows(ls.drop_last(), hl, max_w);
        let k = non_empty(ls.drop_last()).len() as int;
        if ls.last().len() == 0 {
            before.push(code_indent())
        } else {
            match hl[k] {
                Some(rs) => before + code_line_rows(rs, max_w),
                None => before + plain_code_rows(ls.last(), max_w),
            }
        }
    }
}

/// A code block, `hl` holding the runs of its lines that hold something.
pub open spec fn code_block(
    text: Seq<char>,
    hl: Seq<Option<Seq<CodeRunView>>>,
    width: nat,
) -> Seq<Seq<SpanView>> {
    let r = code_lines_rows(lines(text), hl, code_width(width));
    if r.len() == 0 {
        seq![code_indent()]
    } else {
        r
    }
}

struct CodeState {
    done: Vec<RenderLine>,
    cur: RenderLine,
    room: usize,
}

impl View for CodeState {
    type V = CodeModel;

    closed spec fn view(&self) -> CodeModel {
        CodeModel { done: rows(self.done@), cur: self.cur@, room: self.room as nat }
    }
}

impl CodeState {
    fn break_line(&mut self, max_w: usize)
        ensures
            final(self)@ == code_break(old(self)@, max_w as nat),
    {
        let mut line = indent_line();
        std::mem::swap(&mut line, &mut self.cur);
        self.done.push(line);
        self.room = max_w;
    }

    fn run(&mut self, run: &CodeRun, max_w: usize)
        requires
            max_w > 0,
        ensures
            final(self)@ == code_run(
                old(self)@,
                run.text@,
                run_style(run.fg, run.bg, run.font),
                max_w as nat,
            ),
    {
        let style = direct_style(run);
        let chars = chars_of(run.text.as_str());
        let n: usize = chars.len();
        let mut at: usize = 0;
        let ghost goal = code_run(self@, run.text@, style, max_w as nat);
        assert(chars@.skip(0) =~= chars@);
        while at < n
            invariant
                at <= n,
                n == chars@.len(),
                max_w > 0,
                code_run(self@, chars@.skip(at as int), style, max_w as nat) == goal,
            decreases n - at,
        {
            let ghost rest = chars@.skip(at as int);
            if self.room == 0 {
                self.break_line(max_w);
            }
            let tail = string_of(&chars, at, n);
            assert(tail@ =~= rest);
            let fit = fit_prefix(tail.as_str(), self.room);
            let mut k: usize = chars_of(fit.as_str()).len();
            proof {
                lemma_fit_len_le(rest, self.room as nat);
            }
            if k == 0 {
                k = 1;
            }
            assert(k == code_take(rest, self.room as nat));
            let head = string_of(&chars, at, at + k);
            assert(head@ =~= rest.take(k as int));
            let used = range_width(&chars, at, at + k);
            assert(chars@.subrange(at as int, at + k) =~= head@);
            self.cur.push_span(crate::render_line::RenderSpan::with_style(head.as_str(), style));
            if used >= self.room as u128 {
                self.room = 0;
            } else {
                self.room = self.room - used as usize;
            }
            at = at + k;
            if at < n {
                assert(rest.skip(k as int) =~= chars@.skip(at as int));
                self.break_line(max_w);
            } else {
                assert(chars@.skip(at as int).len() == 0);
            }
        }
    }
}

proof fn lemma_fit_len_le(s: Seq<char>, room: nat)
    ensures
        fit_len(s, room) <= s.len(),
    decreases s.len(),
{
    if s.len() > 0 && cw(s[0]) <= room {
        lemma_fit_len_le(s.drop_first(), (room - cw(s[0])) as nat);
    }
}

fn code_line(rs: &Vec<CodeRun>, max_w: usize) -> (out: Vec<RenderLine>)
    requires
        max_w > 0,
    ensures
        rows(out@) == code_line_rows(Seq::new(rs@.len(), |i: int| rs@[i]@), max_w as nat),
{
    let ghost all = Seq::new(rs@.len(), |i: int| rs@[i]@);
    let ghost start = CodeModel { done: Seq::empty(), cur: code_indent(), room: max_w as nat };
    let mut st = CodeState { done: Vec::new(), cur: indent_line(), room: max_w };
    assert(st@ =~= start);
    let mut i: usize = 0;
    assert(all.take(0) =~= Seq::empty());
    while i < rs.len()
        invariant
            i <= rs@.len(),
            max_w > 0,
            all == Seq::new(rs@.len(), |i: int| rs@[i]@),
            st@ == code_runs(start, all.take(i as int), max_w as nat),
        decreases rs@.len() - i,
    {
        proof {
            assert(all.take(i + 1).drop_last() =~= all.take(i as int));
            assert(all.take(i + 1).last() == rs@[i as int]@);
        }
        st.run(&rs[i], max_w);
        i += 1;
    }
    assert(all.take(i as int) =~= all);
    let mut out = st.done;
    out.push(st.cur);
    out
}

fn plain_code(line: &str, max_w: usize) -> (out: Vec<RenderLine>)
    ensures
        rows(out@) == plain_code_rows(line@, max_w as nat),
{
    let segs = wrap_text(line, max_w);
    let mut out: Vec<RenderLine> = Vec::new();
    let ghost want = plain_code_rows(line@, max_w as nat);
    let mut i: usize = 0;
    while i < segs.len()
        invariant
            i <= segs@.len(),
            texts(segs@) == wrapped(line@, max_w as nat),
            want == plain_code_rows(line@, max_w as nat),
            rows(out@) =~= want.take(i as int),
        decreases segs@.len() - i,
    {
        assert(wrapped(line@, max_w as nat)[i as int] == segs@[i as int]@);
        let text = cat2("  ", segs[i].as_str());
        let l = RenderLine::new().span_direct(text.as_str(), plain_style());
        assert(l@ =~= want[i as int]);
        out.push(l);
        i += 1;
        assert(want.take(i as int) =~= want.take(i - 1).push(want[i - 1]));
    }
    assert(wrapped(line@, max_w as nat).len() == segs@.len());
    assert(want.take(i as int) =~= want);
    out
}

fn non_empty_lines(ls: &Vec<String>) -> (out: Vec<String>)
    ensures
        texts(out@) == non_empty(texts(ls@)),
{
    let mut out: Vec<String> = Vec::new();
    let ghost all = texts(ls@);
    let mut i: usize = 0;
    assert(all.take(0) =~= Seq::empty());
    assert(texts(out@) =~= Seq::empty());
    while i < ls.len()
        invariant
            i <= ls@.len(),
            all == texts(ls@),
            texts(out@) =~= non_empty(all.take(i as int)),
        decreases ls@.len() - i,
    {
        proof {
            assert(all.take(i + 1).drop_last() =~= all.take(i as int));
            assert(all.take(i + 1).last() == ls@[i as int]@);
        }
        if !ls[i].as_str().is_empty() {
            out.push(ls[i].clone());
        }
        i += 1;
    }
    assert(all.take(i as int) =~= all);
    out
}

proof fn lemma_non_empty_bound(ls: Seq<Seq<char>>, i: int)
    requires
        0 <= i < ls.len(),
        ls[i].len() > 0,
    ensures
        non_empty(ls.take(i)).len() < non_empty(ls).len(),
    decreases ls.len(),
{
    if i == ls.len() - 1 {
        assert(ls.take(i) =~= ls.drop_last());
    } else {
        lemma_non_empty_bound(ls.drop_last(), i);
        assert(ls.drop_last().take(i) =~= ls.take(i));
    }
}

/// A code block whose lines that hold something were highlighted as `hl`.
pub fn code_block_lines(text: &str, hl: &Vec<Option<Vec<CodeRun>>>, width: usize) -> (out: Vec<
    RenderLine,
>)
    requires
        hl@.len() == non_empty(lines(text@)).len(),
    ensures
        rows(out@) == code_block(text@, all_runs(hl@), width as nat),
{
    let room = width.saturating_sub(2);
    let max_w: usize = if room >= 10 {
        room
    } else {
        10
    };
    let ls = lines_of(text);
    let ghost all = texts(ls@);
    let mut out: Vec<RenderLine> = Vec::new();
    let mut i: usize = 0;
    let mut k: usize = 0;
    assert(all.take(0) =~= Seq::empty());
    assert(rows(out@) =~= Seq::empty());
    while i < ls.len()
        invariant
            i <= ls@.len(),
            max_w > 0,
            all == texts(ls@),
            hl@.len() == non_empty(all).len(),
            k == non_empty(all.take(i as int)).len(),
            rows(out@) == code_lines_rows(all.take(i as int), all_runs(hl@), max_w as nat),
        decreases ls@.len() - i,
    {
        proof {
            assert(all.take(i + 1).drop_last() =~= all.take(i as int));
            assert(all.take(i + 1).last() == ls@[i as int]@);
        }
        if ls[i].as_str().is_empty() {
            out.push(indent_line());
        } else {
            proof {
                lemma_non_empty_bound(all, i as int);
                assert(all_runs(hl@)[k as int] == line_runs(hl@[k as int]));
            }
            let m: usize = hl.len();
            assert(k < m);
            match &hl[k] {
                Some(rs) => {
                    let more = code_line(rs, max_w);
                    extend_rows(&mut out, more);
                },
                None => {
                    let more = plain_code(ls[i].as_str(), max_w);
                    extend_rows(&mut out, more);
                },
            }
            k += 1;
        }
        i += 1;
    }
    assert(all.take(i as int) =~= all);
    if out.len() == 0 {
        out.push(indent_line());
        assert(rows(out@) =~= seq![code_indent()]);
    } else {
        assert(rows(out@).len() > 0);
    }
    out
}

/// The syntax that a code block is highlighted with: that of the language it
/// names, where there is one.
pub open spec fn code_token(lang: Option<Seq<char>>) -> Option<Seq<char>> {
    match lang {
        Some(l) => if syntax_known(l) {
            lang
        } else {
            None
        },
        None => None,
    }
}

/// The theme of code: the dark one closest to the background.
pub open spec fn code_theme() -> Seq<char> {
    "base16-ocean.dark"@
}

/// A code block in `lang`.
pub open spec fn highlighted_block(text: Seq<char>, lang: Option<Seq<char>>, width: nat) -> Seq<
    Seq<SpanView>,
> {
    code_block(
        text,
        highlighted(code_token(lang), code_theme(), non_empty(lines(text))),
        width,
    )
}

/// A code block in `lang`.
pub fn render_highlighted_code_block(
    hl: &Highlighter,
    text: &str,
    lang: Option<&str>,
    width: usize,
) -> (out: Vec<RenderLine>)
    ensures
        rows(out@) == highlighted_block(text@, lang_view(lang), width as nat),
{
    let ls = lines_of(text);
    let full = non_empty_lines(&ls);
    let token = match lang {
        Some(l) => if hl.knows_syntax(l) {
            lang
        } else {
            None
        },
        None => None,
    };
    let lit = hl.highlight_as(token, "base16-ocean.dark", &full);
    assert(texts(full@).len() == full@.len());
    code_block_lines(text, &lit, width)
}

} // verus!
