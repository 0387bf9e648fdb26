//! Styled lines, greedy wrapping by display width, and the visible window of a
//! one-line editor.

use crate::text::{chars_of, lemma_texts_push, string_of, texts};
use crate::width::{char_width, columns, cw, lemma_columns_push, lemma_columns_split, range_width};
use vstd::prelude::*;

verus! {

broadcast use lemma_texts_push;

/// Meaning of a piece of text; the theme turns it into colours.
#[derive(Clone, Copy, Debug, PartialEq, Eq, Structural)]
pub enum SpanStyle {
    Plain,
    Dim,
    Accent,
    User,
    Warn,
    Error,
    Bold,
    Italic,
    ToolRun,
    ToolOk,
    ToolFail,
    DiffAdd,
    DiffDel,
    MdH1,
    MdH2,
    MdH3,
    MdQuote,
    MdLink,
    MdInlineCode,
    MdRuler,
    MdTableHead,
    MdTableCell,
}

/// A terminal colour.
#[derive(Clone, Copy, Debug, PartialEq, Eq, Structural)]
pub enum Color {
    White,
    Indexed(u8),
    Rgb(u8, u8, u8),
}

/// Colours and modifiers given outright, as syntax highlighting does.
#[derive(Clone, Copy, Debug, PartialEq, Eq, Structural)]
pub struct DirectStyle {
    pub fg: Option<Color>,
    pub bg: Option<Color>,
    pub bold: bool,
    pub italic: bool,
    pub underlined: bool,
}

/// How a span is drawn.
#[derive(Clone, Copy, Debug, PartialEq, Eq, Structural)]
pub enum RenderStyle {
    Semantic(SpanStyle),
    Direct(DirectStyle),
}

/// Text drawn in one style.
#[derive(Clone, Debug, PartialEq, Eq)]
pub struct RenderSpan {
    pub text: String,
    pub style: RenderStyle,
}

/// One screen line.
#[derive(Clone, Debug, PartialEq, Eq)]
pub struct RenderLine {
    pub spans: Vec<RenderSpan>,
}

/// What a span shows.
#[verifier::ext_equal]
pub struct SpanView {
    pub text: Seq<char>,
    pub style: RenderStyle,
}

/// A span with a semantic style.
pub open spec fn sp(text: Seq<char>, style: SpanStyle) -> SpanView {
    SpanView { text, style: RenderStyle::Semantic(style) }
}

/// A line of one unstyled span.
pub open spec fn plain(text: Seq<char>) -> Seq<SpanView> {
    seq![sp(text, SpanStyle::Plain)]
}

impl View for RenderSpan {
    type V = SpanView;

    open spec fn view(&self) -> SpanView {
        SpanView { text: self.text@, style: self.style }
    }
}

impl View for RenderLine {
    type V = Seq<SpanView>;

    open spec fn view(&self) -> Seq<SpanView> {
        Seq::new(self.spans@.len(), |i: int| self.spans@[i]@)
    }
}

/// What a sequence of lines shows.
pub open spec fn rows(v: Seq<RenderLine>) -> Seq<Seq<SpanView>> {
    Seq::new(v.len(), |i: int| v[i]@)
}

/// Pushing a line pushes what it shows.
pub broadcast proof fn lemma_rows_push(v: Seq<RenderLine>, l: RenderLine)
    ensures
        #[trigger] rows(v.push(l)) == rows(v).push(l@),
{
    assert(rows(v.push(l)) =~= rows(v).push(l@));
}

/// What concatenated lines show.
pub broadcast proof fn lemma_rows_add(a: Seq<RenderLine>, b: Seq<RenderLine>)
    ensures
        #[trigger] rows(a + b) == rows(a) + rows(b),
{
    assert(rows(a + b) =~= rows(a) + rows(b));
}

impl RenderSpan {
    /// A span with a semantic style.
    pub fn new(text: &str, style: SpanStyle) -> (s: Self)
        ensures
            s@ == sp(text@, style),
    {
        RenderSpan { text: text.to_owned(), style: RenderStyle::Semantic(style) }
    }

    /// A span with colours of its own.
    pub fn with_style(text: &str, style: DirectStyle) -> (s: Self)
        ensures
            s@ == (SpanView { text: text@, style: RenderStyle::Direct(style) }),
    {
        RenderSpan { text: text.to_owned(), style: RenderStyle::Direct(style) }
    }
}

impl RenderLine {
    /// The empty line.
    pub fn new() -> (l: Self)
        ensures
            l@ == Seq::<SpanView>::empty(),
    {
        let l = RenderLine { spans: Vec::new() };
        assert(l@ =~= Seq::<SpanView>::empty());
        l
    }

    /// A line of unstyled text.
    pub fn plain(text: &str) -> (l: Self)
        ensures
            l@ == plain(text@),
    {
        RenderLine::new().span(text, SpanStyle::Plain)
    }

    /// Adds a span that is already made.
    pub fn push_span(&mut self, s: RenderSpan)
        ensures
            final(self)@ == old(self)@.push(s@),
    {
        self.spans.push(s);
        assert(self@ =~= old(self)@.push(s@));
    }

    /// This line with one more span.
    pub fn span(self, text: &str, style: SpanStyle) -> (l: Self)
        ensures
            l@ == self@.push(sp(text@, style)),
    {
        let mut l = self;
        l.push_span(RenderSpan::new(text, style));
        l
    }

    /// This line with one more span in colours of its own.
    pub fn span_direct(self, text: &str, style: DirectStyle) -> (l: Self)
        ensures
            l@ == self@.push(SpanView { text: text@, style: RenderStyle::Direct(style) }),
    {
        let mut l = self;
        l.push_span(RenderSpan::with_style(text, style));
        l
    }
}

/// Moves `src` to the end of `dst`.
pub fn extend_rows(dst: &mut Vec<RenderLine>, src: Vec<RenderLine>)
    ensures
        rows(final(dst)@) == rows(old(dst)@) + rows(src@),
        final(dst)@ == old(dst)@ + src@,
{
    broadcast use lemma_rows_add;

    let mut src = src;
    dst.append(&mut src);
}

/// A text being wrapped: the finished lines, the line under construction, and
/// where in it the last space stands that it may be broken at.
#[verifier::ext_equal]
pub struct WrapModel {
    pub sealed: Seq<Seq<char>>,
    pub line: Seq<char>,
    pub space: Option<int>,
}

/// Nothing read yet.
pub open spec fn wrap_start() -> WrapModel {
    WrapModel { sealed: Seq::empty(), line: Seq::empty(), space: None }
}

/// Finishes the current line.
pub open spec fn wrap_seal(m: WrapModel) -> WrapModel {
    WrapModel { sealed: m.sealed.push(m.line), line: Seq::empty(), space: None }
}

/// One more character on the current line.
pub open spec fn wrap_put(m: WrapModel, c: char) -> WrapModel {
    WrapModel {
        sealed: m.sealed,
        line: m.line.push(c),
        space: if c == ' ' {
            Some(m.line.len() as int)
        } else {
            m.space
        },
    }
}

/// Breaks the current line at space `k`, which is dropped.
pub open spec fn wrap_break(m: WrapModel, k: int) -> WrapModel {
    WrapModel { sealed: m.sealed.push(m.line.take(k)), line: m.line.skip(k + 1), space: None }
}

/// Greedy wrapping, one character: a line feed ends the line; what fits is
/// appended; a space that does not fit ends the line and is dropped; another
/// character breaks the line at its last space, and before itself where that
/// makes no room or there is no space.
pub open spec fn wrap_step(m: WrapModel, c: char, width: nat) -> WrapModel {
    if c == '\n' {
        wrap_seal(m)
    } else if columns(m.line) + cw(c) <= width {
        wrap_put(m, c)
    } else if c == ' ' {
        wrap_seal(m)
    } else {
        match m.space {
            Some(k) => {
                let b = wrap_break(m, k);
                if columns(b.line) + cw(c) <= width {
                    WrapModel { line: b.line.push(c), ..b }
                } else {
                    wrap_put(wrap_seal(b), c)
                }
            },
            None => wrap_put(wrap_seal(m), c),
        }
    }
}

/// Greedy wrapping of all characters of `s`.
pub open spec fn wrap_feed(m: WrapModel, s: Seq<char>, width: nat) -> WrapModel
    decreases s.len(),
{
    if s.len() == 0 {
        m
    } else {
        wrap_step(wrap_feed(m, s.drop_last(), width), s.last(), width)
    }
}

/// The lines of a wrapped text; without any width the text is one line.
pub open spec fn wrapped(s: Seq<char>, width: nat) -> Seq<Seq<char>> {
    if width == 0 {
        seq![s]
    } else {
        let m = wrap_feed(wrap_start(), s, width);
        m.sealed.push(m.line)
    }
}

/// What holds of every text being wrapped to `width`.
pub open spec fn wrap_ok(m: WrapModel, width: nat) -> bool {
    &&& m.space matches Some(k) ==> 0 <= k < m.line.len() && m.line[k] == ' ' && columns(m.line)
        <= width
    &&& fits(m.line, width)
    &&& forall|i: int| 0 <= i < m.sealed.len() ==> fits(#[trigger] m.sealed[i], width)
}

/// At most `width` columns, or a single character that is wider by itself.
pub open spec fn fits(line: Seq<char>, width: nat) -> bool {
    columns(line) <= width || line.len() == 1
}

proof fn lemma_wrap_step_ok(m: WrapModel, c: char, width: nat)
    requires
        wrap_ok(m, width),
    ensures
        wrap_ok(wrap_step(m, c, width), width),
{
    let n = wrap_step(m, c, width);
    lemma_columns_push(m.line, c);
    if c != '\n' && columns(m.line) + cw(c) > width && c != ' ' {
        if let Some(k) = m.space {
            lemma_columns_split(m.line, k);
            lemma_columns_split(m.line, k + 1);
            lemma_columns_push(m.line.skip(k + 1), c);
            assert(fits(m.line.take(k), width));
        }
        assert(n.line.len() == 1 || columns(n.line) <= width);
    }
    assert(columns(Seq::<char>::empty()) == 0);
    assert forall|i: int| 0 <= i < n.sealed.len() implies fits(#[trigger] n.sealed[i], width) by {
        if i < m.sealed.len() {
            assert(n.sealed[i] == m.sealed[i]);
        }
    }
}

proof fn lemma_wrap_feed_ok(m: WrapModel, s: Seq<char>, width: nat)
    requires
        wrap_ok(m, width),
    ensures
        wrap_ok(wrap_feed(m, s, width), width),
    decreases s.len(),
{
    if s.len() > 0 {
        lemma_wrap_feed_ok(m, s.drop_last(), width);
        lemma_wrap_step_ok(wrap_feed(m, s.drop_last(), width), s.last(), width);
    }
}

/// A text wrapped from the start is well formed throughout.
pub proof fn lemma_wrap_start_ok(s: Seq<char>, width: nat)
    ensures
        wrap_ok(wrap_feed(wrap_start(), s, width), width),
{
    assert(columns(Seq::<char>::empty()) == 0);
    lemma_wrap_feed_ok(wrap_start(), s, width);
}

/// No wrapped line is wider than asked for, but for a line of one character
/// that is wider by itself.
pub proof fn law_wrapped_lines_fit(s: Seq<char>, width: nat)
    requires
        width > 0,
    ensures
        forall|i: int| 0 <= i < wrapped(s, width).len() ==> fits(#[trigger] wrapped(s, width)[i], width),
{
    assert(columns(Seq::<char>::empty()) == 0);
    lemma_wrap_feed_ok(wrap_start(), s, width);
}

/// Wrapping piece by piece is wrapping at once.
pub proof fn law_wrap_incremental(m: WrapModel, a: Seq<char>, b: Seq<char>, width: nat)
    ensures
        wrap_feed(wrap_feed(m, a, width), b, width) == wrap_feed(m, a + b, width),
    decreases b.len(),
{
    if b.len() == 0 {
        assert(a + b =~= a);
    } else {
        assert((a + b).drop_last() =~= a + b.drop_last());
        law_wrap_incremental(m, a, b.drop_last(), width);
    }
}

/// A character that is no space ends the current line.
pub proof fn lemma_step_ends_line(m: WrapModel, c: char, width: nat)
    requires
        c != ' ',
        c != '\n',
    ensures
        wrap_step(m, c, width).line.len() > 0,
        wrap_step(m, c, width).line.last() == c,
{
}

/// Wrapping a text that the cursor block ends gives the lines finished without
/// it and then those that the cursor makes of the current line.
pub proof fn law_wrap_cursor(s: Seq<char>, width: nat)
    requires
        width > 0,
    ensures
        ({
            let m = wrap_step(wrap_feed(wrap_start(), s, width), '▌', width);
            wrapped(s.push('▌'), width) == m.sealed.push(m.line)
        }),
{
    assert(s.push('▌').drop_last() =~= s);
}

/// All lines in one.
pub open spec fn run_on(ls: Seq<Seq<char>>) -> Seq<char>
    decreases ls.len(),
{
    if ls.len() == 0 {
        Seq::empty()
    } else {
        run_on(ls.drop_last()) + ls.last()
    }
}

/// Lines in one text, each followed by its gap.
pub open spec fn gapped(ls: Seq<Seq<char>>, gaps: Seq<Seq<char>>) -> Seq<char>
    decreases ls.len(),
{
    if ls.len() == 0 {
        Seq::empty()
    } else {
        gapped(ls.drop_last(), gaps.drop_last()) + ls.last() + gaps.last()
    }
}

/// What wrapping may drop between two lines: nothing, a space or a line feed.
pub open spec fn is_gap(g: Seq<char>) -> bool {
    g == Seq::<char>::empty() || g == seq![' '] || g == seq!['\n']
}

/// `s` is the lines with a gap between each two.
pub open spec fn gaps_fit(s: Seq<char>, ls: Seq<Seq<char>>, gaps: Seq<Seq<char>>) -> bool {
    &&& ls.len() == gaps.len() + 1
    &&& forall|i: int| 0 <= i < gaps.len() ==> is_gap(#[trigger] gaps[i])
    &&& s == gapped(ls.drop_last(), gaps) + ls.last()
}

spec fn model_gaps(s: Seq<char>, m: WrapModel, gaps: Seq<Seq<char>>) -> bool {
    gaps_fit(s, m.sealed.push(m.line), gaps)
}

proof fn lemma_model_gaps(s: Seq<char>, m: WrapModel, gaps: Seq<Seq<char>>)
    ensures
        model_gaps(s, m, gaps) == {
            &&& m.sealed.len() == gaps.len()
            &&& forall|i: int| 0 <= i < gaps.len() ==> is_gap(#[trigger] gaps[i])
            &&& s == gapped(m.sealed, gaps) + m.line
        },
{
    assert(m.sealed.push(m.line).drop_last() =~= m.sealed);
}

/// One more line ended, with a gap behind it that was in the current line or
/// comes on top.
proof fn lemma_gaps_end(
    s: Seq<char>,
    m: WrapModel,
    gaps: Seq<Seq<char>>,
    g: Seq<char>,
    head: Seq<char>,
    n: WrapModel,
)
    requires
        model_gaps(s, m, gaps),
        is_gap(g),
        n.sealed == m.sealed.push(head),
    ensures
        head + g + n.line == m.line ==> model_gaps(s, n, gaps.push(g)),
        n.line == Seq::<char>::empty() && head == m.line ==> model_gaps(s + g, n, gaps.push(g)),
{
    let h = gaps.push(g);
    lemma_model_gaps(s, m, gaps);
    lemma_model_gaps(s, n, h);
    lemma_model_gaps(s + g, n, h);
    assert(n.sealed.drop_last() =~= m.sealed);
    assert(h.drop_last() =~= gaps);
    assert(gapped(n.sealed, h) == gapped(m.sealed, gaps) + head + g);
    assert forall|i: int| 0 <= i < h.len() implies is_gap(#[trigger] h[i]) by {
        if i < gaps.len() {
            assert(h[i] == gaps[i]);
        }
    }
    if head + g + n.line == m.line {
        assert(gapped(m.sealed, gaps) + head + g + n.line =~= gapped(m.sealed, gaps) + (head + g
            + n.line));
    }
    if n.line == Seq::<char>::empty() && head == m.line {
        assert(gapped(m.sealed, gaps) + head + g + n.line =~= s + g);
    }
}

proof fn lemma_gaps_put(s: Seq<char>, m: WrapModel, gaps: Seq<Seq<char>>, c: char, n: WrapModel)
    requires
        model_gaps(s, m, gaps),
        n.sealed == m.sealed,
        n.line == m.line.push(c),
    ensures
        model_gaps(s.push(c), n, gaps),
{
    lemma_model_gaps(s, m, gaps);
    lemma_model_gaps(s.push(c), n, gaps);
    assert(s.push(c) =~= gapped(m.sealed, gaps) + m.line.push(c));
}

proof fn lemma_step_gaps(
    s: Seq<char>,
    m: WrapModel,
    gaps: Seq<Seq<char>>,
    c: char,
    width: nat,
) -> (out: Seq<Seq<char>>)
    requires
        wrap_ok(m, width),
        model_gaps(s, m, gaps),
    ensures
        model_gaps(s.push(c), wrap_step(m, c, width), out),
{
    let none = Seq::<char>::empty();
    let n = wrap_step(m, c, width);
    let sealed = wrap_seal(m);
    assert(m.line + none + none =~= m.line);
    if c == '\n' {
        lemma_gaps_end(s, m, gaps, seq!['\n'], m.line, n);
        assert(s + seq!['\n'] =~= s.push(c));
        gaps.push(seq!['\n'])
    } else if columns(m.line) + cw(c) <= width {
        lemma_gaps_put(s, m, gaps, c, n);
        gaps
    } else if c == ' ' {
        lemma_gaps_end(s, m, gaps, seq![' '], m.line, n);
        assert(s + seq![' '] =~= s.push(c));
        gaps.push(seq![' '])
    } else {
        match m.space {
            Some(k) => {
                let b = wrap_break(m, k);
                assert(m.line.take(k) + seq![' '] + m.line.skip(k + 1) =~= m.line);
                lemma_gaps_end(s, m, gaps, seq![' '], m.line.take(k), b);
                let h = gaps.push(seq![' ']);
                if columns(b.line) + cw(c) <= width {
                    lemma_gaps_put(s, b, h, c, n);
                    h
                } else {
                    assert(b.line + none + none =~= b.line);
                    lemma_gaps_end(s, b, h, none, b.line, wrap_seal(b));
                    lemma_gaps_put(s, wrap_seal(b), h.push(none), c, n);
                    h.push(none)
                }
            },
            None => {
                lemma_gaps_end(s, m, gaps, none, m.line, sealed);
                lemma_gaps_put(s, sealed, gaps.push(none), c, n);
                gaps.push(none)
            },
        }
    }
}

proof fn lemma_feed_gaps(s: Seq<char>, width: nat) -> (out: Seq<Seq<char>>)
    ensures
        model_gaps(s, wrap_feed(wrap_start(), s, width), out),
    decreases s.len(),
{
    if s.len() == 0 {
        let out = Seq::<Seq<char>>::empty();
        lemma_model_gaps(s, wrap_start(), out);
        assert(s =~= gapped(wrap_start().sealed, out) + wrap_start().line);
        out
    } else {
        let t = s.drop_last();
        let gaps = lemma_feed_gaps(t, width);
        lemma_wrap_start_ok(t, width);
        assert(t.push(s.last()) =~= s);
        lemma_step_gaps(t, wrap_feed(wrap_start(), t, width), gaps, s.last(), width)
    }
}

/// A text is its wrapped lines with, between each two, what was dropped there:
/// nothing, one space or one line feed.
pub proof fn law_wrap_keeps_text(s: Seq<char>, width: nat)
    ensures
        exists|gaps: Seq<Seq<char>>| gaps_fit(s, wrapped(s, width), gaps),
{
    if width == 0 {
        let none = Seq::<Seq<char>>::empty();
        assert(seq![s].drop_last() =~= none);
        assert(gapped(none, none) + s =~= s);
        assert(gaps_fit(s, wrapped(s, width), none));
    } else {
        let gaps = lemma_feed_gaps(s, width);
        assert(gaps_fit(s, wrapped(s, width), gaps));
    }
}

/// A text being wrapped to a fixed width.
#[derive(Clone, Debug)]
pub struct WrapState {
    width: usize,
    sealed: Vec<String>,
    line: Vec<char>,
    line_w: usize,
    last_space: Option<usize>,
}

impl View for WrapState {
    type V = WrapModel;

    closed spec fn view(&self) -> WrapModel {
        WrapModel {
            sealed: texts(self.sealed@),
            line: self.line@,
            space: match self.last_space {
                Some(k) => Some(k as int),
                None => None,
            },
        }
    }
}

impl WrapState {
    /// The width that lines are wrapped to.
    pub closed spec fn limit(&self) -> nat {
        self.width as nat
    }

    /// The recorded width is that of the current line, which fits.
    pub closed spec fn wf(&self) -> bool {
        &&& self.width > 0
        &&& self.line_w == columns(self.line@)
        &&& wrap_ok(self@, self.limit())
    }

    /// Nothing read yet.
    pub fn new(width: usize) -> (w: Self)
        requires
            width > 0,
        ensures
            w.wf(),
            w.limit() == width,
            w@ == wrap_start(),
    {
        let w = WrapState {
            width,
            sealed: Vec::new(),
            line: Vec::new(),
            line_w: 0,
            last_space: None,
        };
        assert(w@ =~= wrap_start());
        assert(columns(Seq::<char>::empty()) == 0);
        w
    }

    /// Reads all of `text`.
    pub fn push_str(&mut self, text: &str)
        requires
            old(self).wf(),
        ensures
            final(self).wf(),
            final(self).limit() == old(self).limit(),
            final(self)@ == wrap_feed(old(self)@, text@, old(self).limit()),
    {
        let chars = chars_of(text);
        let ghost start = self@;
        let mut i: usize = 0;
        assert(chars@.take(0) =~= Seq::empty());
        while i < chars.len()
            invariant
                i <= chars@.len(),
                self.wf(),
                self.limit() == old(self).limit(),
                self@ == wrap_feed(start, chars@.take(i as int), self.limit()),
            decreases chars@.len() - i,
        {
            self.step(chars[i]);
            i += 1;
            proof {
                assert(chars@.take(i as int).drop_last() =~= chars@.take(i - 1));
                assert(chars@.take(i as int).last() == chars@[i - 1]);
            }
        }
        assert(chars@.take(i as int) =~= text@);
    }

    fn seal(&mut self)
        requires
            old(self).wf(),
        ensures
            final(self).wf(),
            final(self).limit() == old(self).limit(),
            final(self)@ == wrap_seal(old(self)@),
    {
        proof {
            lemma_wrap_step_ok(self@, '\n', self.limit());
            assert(columns(Seq::<char>::empty()) == 0);
        }
        let done = string_of(&self.line, 0, self.line.len());
        assert(done@ =~= self.line@);
        self.sealed.push(done);
        self.line = Vec::new();
        self.line_w = 0;
        self.last_space = None;
        assert(self@ =~= wrap_seal(old(self)@));
    }

    fn room_for(&self, w: usize) -> (r: bool)
        requires
            self.wf(),
        ensures
            r == (columns(self@.line) + w <= self.limit()),
    {
        self.line_w <= self.width && w <= self.width - self.line_w
    }

    fn put(&mut self, c: char)
        requires
            old(self).wf(),
            columns(old(self)@.line) + cw(c) <= old(self).limit() || (old(self)@.line.len() == 0 && c
                != ' '),
        ensures
            final(self).wf(),
            final(self).limit() == old(self).limit(),
            final(self)@ == wrap_put(old(self)@, c),
    {
        let w = char_width(c);
        proof {
            lemma_columns_push(self.line@, c);
            assert(columns(Seq::<char>::empty()) == 0);
            if self.line@.len() == 0 {
                assert(self.line@ =~= Seq::empty());
            }
        }
        if c == ' ' {
            self.last_space = Some(self.line.len());
        }
        self.line.push(c);
        self.line_w = self.line_w + w;
        assert(self@ =~= wrap_put(old(self)@, c));
    }

    fn break_at(&mut self, k: usize)
        requires
            old(self).wf(),
            old(self)@.space == Some(k as int),
        ensures
            final(self).wf(),
            final(self).limit() == old(self).limit(),
            final(self)@ == wrap_break(old(self)@, k as int),
    {
        let ghost m = self@;
        proof {
            lemma_columns_split(m.line, k as int);
            lemma_columns_split(m.line, k + 1);
        }
        let head = string_of(&self.line, 0, k);
        assert(head@ =~= m.line.take(k as int));
        self.sealed.push(head);
        let mut tail: Vec<char> = Vec::new();
        let mut w: usize = 0;
        let n: usize = self.line.len();
        assert(k < n);
        let mut i: usize = k + 1;
        assert(columns(Seq::<char>::empty()) == 0);
        while i < self.line.len()
            invariant
                k + 1 <= i <= self.line@.len(),
                self.line@ == m.line,
                tail@ == m.line.subrange(k + 1, i as int),
                w == columns(tail@),
                columns(m.line) <= self.width,
            decreases self.line@.len() - i,
        {
            let c = self.line[i];
            proof {
                lemma_columns_split(m.line, i + 1);
                let upto = m.line.take(i + 1);
                lemma_columns_split(upto, k + 1);
                assert(upto.skip(k + 1) =~= tail@.push(c));
                lemma_columns_push(tail@, c);
            }
            tail.push(c);
            w = w + char_width(c);
            i += 1;
            assert(tail@ =~= m.line.subrange(k + 1, i as int));
        }
        self.line = tail;
        self.line_w = w;
        self.last_space = None;
        assert(self.line@ =~= m.line.skip(k + 1));
        assert(self@ =~= wrap_break(m, k as int));
        proof {
            assert forall|i: int| 0 <= i < self@.sealed.len() implies fits(
                #[trigger] self@.sealed[i],
                self.limit(),
            ) by {
                if i < m.sealed.len() {
                    assert(self@.sealed[i] == m.sealed[i]);
                }
            }
        }
    }

    /// Reads one character.
    pub fn step(&mut self, ch: char)
        requires
            old(self).wf(),
        ensures
            final(self).wf(),
            final(self).limit() == old(self).limit(),
            final(self)@ == wrap_step(old(self)@, ch, old(self).limit()),
    {
        if ch == '\n' {
            self.seal();
            return;
        }
        let w = char_width(ch);
        if !self.room_for(w) {
            if ch == ' ' {
                self.seal();
                return;
            }
            match self.last_space {
                Some(k) => {
                    self.break_at(k);
                    if self.room_for(w) {
                        self.put(ch);
                        return;
                    }
                },
                None => {},
            }
            self.seal();
        }
        self.put(ch);
    }

    /// The width that lines are wrapped to.
    pub fn width(&self) -> (w: usize)
        ensures
            w == self.limit(),
    {
        self.width
    }

    /// How many lines are finished.
    pub fn sealed_len(&self) -> (n: usize)
        ensures
            n == self@.sealed.len(),
    {
        self.sealed.len()
    }

    /// The finished lines.
    pub fn sealed_slice(&self) -> (v: &Vec<String>)
        ensures
            texts(v@) == self@.sealed,
    {
        &self.sealed
    }

    /// The lines, the unfinished one included.
    pub fn into_lines(self) -> (out: Vec<String>)
        requires
            self.wf(),
        ensures
            texts(out@) == self@.sealed.push(self@.line),
    {
        let mut out = self.sealed;
        let last = string_of(&self.line, 0, self.line.len());
        assert(last@ =~= self.line@);
        out.push(last);
        out
    }

    /// The current line with the cursor block behind it: the line that the
    /// cursor pushes out, where it does, and the line that the cursor ends.
    pub fn cursor_view(&self) -> (r: (Option<String>, String))
        requires
            self.wf(),
        ensures
            ({
                let m = wrap_step(self@, '▌', self.limit());
                &&& r.1@ == m.line
                &&& m.line.len() > 0 && m.line.last() == '▌'
                &&& match r.0 {
                    Some(head) => m.sealed == self@.sealed.push(head@),
                    None => m.sealed == self@.sealed,
                }
            }),
    {
        let w = char_width('▌');
        let mut line = string_of(&self.line, 0, self.line.len());
        assert(line@ =~= self.line@);
        if self.room_for(w) {
            line.push('▌');
            return (None, line);
        }
        match self.last_space {
            Some(k) => {
                let blank = char_width(' ');
                proof {
                    let m = self@;
                    lemma_columns_split(m.line, k as int);
                    lemma_columns_split(m.line.skip(k as int), 1);
                    assert(m.line.skip(k as int).take(1) =~= seq![' ']);
                    assert(seq![' '].drop_last() =~= Seq::empty());
                    assert(columns(Seq::<char>::empty()) == 0);
                    assert(columns(seq![' ']) == blank);
                    assert(m.line.skip(k as int).skip(1) =~= m.line.skip(k + 1));
                }
                let head = string_of(&self.line, 0, k);
                let mut tail = string_of(&self.line, k + 1, self.line.len());
                assert(head@ =~= self.line@.take(k as int));
                assert(tail@ =~= self.line@.skip(k + 1));
                tail.push('▌');
                (Some(head), tail)
            },
            None => {
                let mut cur = String::new();
                cur.push('▌');
                (Some(line), cur)
            },
        }
    }
}

/// Greedy wrapping to the display width: at the last space where there is one,
/// inside a long word where there is none.
pub fn wrap_text(text: &str, width: usize) -> (out: Vec<String>)
    ensures
        texts(out@) == wrapped(text@, width as nat),
        out@.len() >= 1,
{
    if width == 0 {
        let mut out: Vec<String> = Vec::new();
        out.push(text.to_owned());
        assert(texts(out@) =~= wrapped(text@, 0));
        return out;
    }
    let mut state = WrapState::new(width);
    state.push_str(text);
    let out = state.into_lines();
    assert(texts(out@).len() >= 1);
    out
}

/// How many characters of `s` fit into `room` columns.
pub open spec fn fit_len(s: Seq<char>, room: nat) -> nat
    decreases s.len(),
{
    if s.len() == 0 || cw(s[0]) > room {
        0
    } else {
        1 + fit_len(s.drop_first(), (room - cw(s[0])) as nat)
    }
}

/// Where the visible part of an edit buffer starts: at the first position from
/// `from` on that leaves a column for the cursor.
pub open spec fn window_start(buf: Seq<char>, cursor: int, from: int, max_w: nat) -> int
    decreases cursor - from,
{
    if from < cursor && columns(buf.subrange(from, cursor)) + 1 > max_w {
        window_start(buf, cursor, from + 1, max_w)
    } else {
        from
    }
}

/// The visible part of an edit buffer and the cursor's column in it.
pub open spec fn edit_view(buf: Seq<char>, cursor: nat, max_w: nat) -> (Seq<char>, nat) {
    let at = if cursor <= buf.len() {
        cursor as int
    } else {
        buf.len() as int
    };
    let start = window_start(buf, at, 0, max_w);
    let text = buf.skip(start).take(fit_len(buf.skip(start), max_w) as int);
    let ahead = columns(buf.subrange(start, at));
    (
        text,
        if ahead <= columns(text) {
            ahead
        } else {
            columns(text)
        },
    )
}

proof fn lemma_window_start(buf: Seq<char>, cursor: int, from: int, max_w: nat)
    requires
        0 <= from <= cursor <= buf.len(),
    ensures
        ({
            let start = window_start(buf, cursor, from, max_w);
            &&& from <= start <= cursor
            &&& start == cursor || columns(buf.subrange(start, cursor)) + 1 <= max_w
        }),
    decreases cursor - from,
{
    if from < cursor && columns(buf.subrange(from, cursor)) + 1 > max_w {
        lemma_window_start(buf, cursor, from + 1, max_w);
    }
}

/// `fit_len` is the longest prefix that fits: a prefix within the room is no
/// longer, and the one it measures is within the room.
pub proof fn lemma_fit_len(s: Seq<char>, room: nat, k: int)
    requires
        0 <= k <= s.len(),
    ensures
        fit_len(s, room) <= s.len(),
        columns(s.take(fit_len(s, room) as int)) <= room,
        columns(s.take(k)) <= room ==> k <= fit_len(s, room),
    decreases s.len(),
{
    let n = fit_len(s, room);
    if s.len() > 0 {
        let one = s.take(1);
        assert(one.drop_last() =~= Seq::empty());
        assert(columns(Seq::<char>::empty()) == 0);
        assert(columns(one) == cw(s[0]));
        if k > 0 {
            lemma_columns_split(s.take(k), 1);
            assert(s.take(k).take(1) =~= one);
        }
        if cw(s[0]) <= room {
            let t = s.drop_first();
            let j = if k > 0 {
                k - 1
            } else {
                0
            };
            lemma_fit_len(t, (room - cw(s[0])) as nat, j);
            if k > 0 {
                assert(s.take(k).skip(1) =~= t.take(j));
            }
            lemma_columns_split(s.take(n as int), 1);
            assert(s.take(n as int).take(1) =~= one);
            assert(s.take(n as int).skip(1) =~= t.take(n - 1));
        } else {
            assert(s.take(0) =~= Seq::empty());
        }
    } else {
        assert(s.take(0) =~= Seq::empty());
        assert(columns(Seq::<char>::empty()) == 0);
    }
}

/// The cursor is never outside the window: everything from the window's start
/// to the cursor is visible, and a column is left for the cursor itself.
pub proof fn law_edit_window_shows_cursor(buf: Seq<char>, cursor: nat, max_w: nat)
    requires
        max_w > 0,
    ensures
        ({
            let at = if cursor <= buf.len() {
                cursor as int
            } else {
                buf.len() as int
            };
            let start = window_start(buf, at, 0, max_w);
            let (text, offset) = edit_view(buf, cursor, max_w);
            &&& 0 <= start <= at
            &&& at - start <= text.len()
            &&& offset == columns(buf.subrange(start, at))
            &&& offset + 1 <= max_w
            &&& columns(text) <= max_w
        }),
{
    let at = if cursor <= buf.len() {
        cursor as int
    } else {
        buf.len() as int
    };
    let start = window_start(buf, at, 0, max_w);
    lemma_window_start(buf, at, 0, max_w);
    let rest = buf.skip(start);
    assert(rest.take(at - start) =~= buf.subrange(start, at));
    if start == at {
        assert(buf.subrange(start, at) =~= Seq::empty());
        assert(columns(Seq::<char>::empty()) == 0);
    }
    lemma_fit_len(rest, max_w, at - start);
    let n = fit_len(rest, max_w) as int;
    lemma_columns_split(rest.take(n), at - start);
    assert(rest.take(n).take(at - start) =~= buf.subrange(start, at));
}

/// The visible part of an edit buffer and the cursor's column in it.
pub fn edit_window(buf: &Vec<char>, cursor: usize, max_w: usize) -> (r: (String, usize))
    ensures
        r.0@ == edit_view(buf@, cursor as nat, max_w as nat).0,
        r.1 == edit_view(buf@, cursor as nat, max_w as nat).1,
{
    let at: usize = if cursor <= buf.len() {
        cursor
    } else {
        buf.len()
    };
    let mut start: usize = 0;
    while start < at && range_width(buf, start, at) >= max_w as u128
        invariant
            start <= at <= buf@.len(),
            window_start(buf@, at as int, 0, max_w as nat) == window_start(
                buf@,
                at as int,
                start as int,
                max_w as nat,
            ),
        decreases at - start,
    {
        start += 1;
    }
    let ghost rest = buf@.skip(start as int);
    let mut end: usize = start;
    let mut used: usize = 0;
    assert(rest.take(0) =~= Seq::empty());
    assert(columns(Seq::<char>::empty()) == 0);
    assert(rest.skip(0) =~= rest);
    let mut w: usize = if end < buf.len() {
        char_width(buf[end])
    } else {
        0
    };
    while end < buf.len() && w <= max_w - used
        invariant
            start <= end <= buf@.len(),
            rest == buf@.skip(start as int),
            used == columns(rest.take(end - start)),
            used <= max_w,
            end < buf@.len() ==> w == cw(buf@[end as int]),
            end - start + fit_len(rest.skip(end - start), (max_w - used) as nat) == fit_len(
                rest,
                max_w as nat,
            ),
        decreases buf@.len() - end,
    {
        proof {
            let k = end - start;
            assert(rest.skip(k)[0] == buf@[end as int]);
            assert(rest.skip(k).drop_first() =~= rest.skip(k + 1));
            assert(rest.take(k + 1) =~= rest.take(k).push(buf@[end as int]));
            lemma_columns_push(rest.take(k), buf@[end as int]);
        }
        used = used + w;
        end += 1;
        if end < buf.len() {
            w = char_width(buf[end]);
        }
    }
    proof {
        let k = end - start;
        if end < buf@.len() {
            assert(rest.skip(k)[0] == buf@[end as int]);
        }
        assert(fit_len(rest, max_w as nat) == k);
    }
    let text = string_of(buf, start, end);
    assert(text@ =~= rest.take(end - start));
    let ahead = range_width(buf, start, at);
    if ahead <= used as u128 {
        (text, ahead as usize)
    } else {
        (text, used)
    }
}

} // verus!
