//! Markdown as styled lines.

use crate::highlight::Highlighter;
use crate::md_code::{highlighted_block, render_highlighted_code_block};
use crate::md_events::{
    event_views, markdown_events, read_events, MdBody, MdBodyView, MdDetail, MdDetailView,
    MdEvent, MdEventView, MdTag,
};
use crate::md_table::{
    cell_done, row_done, table_lines, table_rows, table_start, TableState, TableView,
};
use crate::md_wrap::{run_lines, runs, wrap_spans, wrapped_runs, Run, RunView};
use crate::render_line::{
    extend_rows, lemma_rows_add, lemma_rows_push, plain, rows, sp, RenderLine, SpanStyle,
    SpanView,
};
use crate::text::{cat3, has_prefix, lemma_texts_push, opt_text, repeat_char, repeated, starts_with};
use crate::tool_diff::less;
use vstd::prelude::*;

verus! {

broadcast use {lemma_rows_push, lemma_rows_add, lemma_texts_push};

/// Markdown being rendered: the lines so far, the styles that are open, the
/// paragraph under construction, how deep quotations and lists are nested, and
/// the code block, table and link that are open.
#[verifier::ext_equal]
pub struct MdModel {
    pub out: Seq<Seq<SpanView>>,
    pub styles: Seq<SpanStyle>,
    pub spans: Seq<RunView>,
    pub quotes: nat,
    pub lists: nat,
    pub in_code: bool,
    pub lang: Option<Seq<char>>,
    pub table: Option<TableView>,
    pub link: Option<Seq<char>>,
}

/// Nothing read yet.
pub open spec fn md_start_state() -> MdModel {
    MdModel {
        out: Seq::empty(),
        styles: Seq::empty(),
        spans: Seq::empty(),
        quotes: 0,
        lists: 0,
        in_code: false,
        lang: None,
        table: None,
        link: None,
    }
}

/// The style that text has here.
pub open spec fn cur_style(styles: Seq<SpanStyle>) -> SpanStyle {
    if styles.len() == 0 {
        SpanStyle::Plain
    } else {
        styles.last()
    }
}

/// Runs as spans.
pub open spec fn run_spans(r: Seq<RunView>) -> Seq<SpanView> {
    Seq::new(r.len(), |i: int| sp(r[i].0, r[i].1))
}

/// The mark of a quoted line.
pub open spec fn quote_mark(quote: bool) -> Seq<SpanView> {
    if quote {
        seq![sp("▎ "@, SpanStyle::MdQuote)]
    } else {
        Seq::empty()
    }
}

/// A wrapped paragraph.
pub open spec fn para_rows(ls: Seq<Seq<RunView>>, quote: bool) -> Seq<Seq<SpanView>> {
    Seq::new(ls.len(), |i: int| quote_mark(quote) + run_spans(ls[i]))
}

/// The paragraph is complete.
pub open spec fn para_done(m: MdModel, width: nat, quote: bool) -> MdModel {
    if m.spans.len() == 0 {
        m
    } else {
        let avail = if quote {
            less(width, 4)
        } else {
            width
        };
        MdModel {
            out: m.out + para_rows(wrapped_runs(m.spans, avail), quote),
            spans: Seq::empty(),
            ..m
        }
    }
}

/// One more line.
pub open spec fn line_out(m: MdModel, line: Seq<SpanView>) -> MdModel {
    MdModel { out: m.out.push(line), ..m }
}

/// One more run of the paragraph.
pub open spec fn run_out(m: MdModel, text: Seq<char>, style: SpanStyle) -> MdModel {
    MdModel { spans: m.spans.push((text, style)), ..m }
}

/// An event inside a table.
pub open spec fn in_table(m: MdModel, t: TableView, e: MdEventView, width: nat) -> MdModel {
    match e.body {
        MdBodyView::Start => match e.tag {
            MdTag::TableHead => MdModel { table: Some(TableView { in_head: true, ..t }), ..m },
            MdTag::TableRow => MdModel { table: Some(TableView { cur_row: Seq::empty(), ..t }), ..m },
            MdTag::TableCell => MdModel {
                table: Some(TableView { cur_cell: Seq::empty(), ..t }),
                ..m
            },
            _ => m,
        },
        MdBodyView::End => match e.tag {
            MdTag::TableHead => MdModel {
                table: Some(TableView { in_head: false, ..row_done(t) }),
                ..m
            },
            MdTag::TableRow => MdModel { table: Some(row_done(t)), ..m },
            MdTag::TableCell => MdModel { table: Some(cell_done(t)), ..m },
            MdTag::Table => {
                let p = para_done(MdModel { table: None, ..m }, width, false);
                MdModel { out: p.out + table_rows(t, width), ..p }
            },
            _ => m,
        },
        MdBodyView::Text(s) => MdModel {
            table: Some(TableView { cur_cell: t.cur_cell + s, ..t }),
            ..m
        },
        MdBodyView::Code(s) => MdModel {
            table: Some(TableView { cur_cell: t.cur_cell + s, ..t }),
            ..m
        },
        MdBodyView::SoftBreak => MdModel {
            table: Some(TableView { cur_cell: t.cur_cell.push(' '), ..t }),
            ..m
        },
        MdBodyView::HardBreak => MdModel {
            table: Some(TableView { cur_cell: t.cur_cell.push(' '), ..t }),
            ..m
        },
        _ => m,
    }
}

/// The style of a heading.
pub open spec fn heading_style(level: u8) -> SpanStyle {
    if level == 1 {
        SpanStyle::MdH1
    } else if level == 2 {
        SpanStyle::MdH2
    } else {
        SpanStyle::MdH3
    }
}

/// One more open style.
pub open spec fn style_in(m: MdModel, style: SpanStyle) -> MdModel {
    MdModel { styles: m.styles.push(style), ..m }
}

/// An element opens.
pub open spec fn opened(m: MdModel, e: MdEventView, width: nat) -> MdModel {
    match e.tag {
        MdTag::Heading(level) => style_in(para_done(m, width, m.quotes > 0), heading_style(level)),
        MdTag::Strong => style_in(m, SpanStyle::Bold),
        MdTag::Emphasis => style_in(m, SpanStyle::Italic),
        MdTag::Strikethrough => style_in(m, SpanStyle::Dim),
        MdTag::Link => {
            let dest = match e.detail {
                MdDetailView::Link(d) => d,
                _ => Seq::empty(),
            };
            style_in(MdModel { link: Some(dest), ..m }, SpanStyle::MdLink)
        },
        MdTag::BlockQuote => {
            let p = style_in(para_done(m, width, false), SpanStyle::MdQuote);
            MdModel { quotes: p.quotes + 1, ..p }
        },
        MdTag::List => MdModel { lists: m.lists + 1, ..m },
        MdTag::Item => run_out(
            para_done(m, width, false),
            repeated(' ', 2 * less(m.lists, 1)) + "• "@,
            SpanStyle::Dim,
        ),
        MdTag::CodeBlock => MdModel {
            in_code: true,
            lang: match e.detail {
                MdDetailView::Fence(l) => Some(l),
                _ => None,
            },
            ..para_done(m, width, false)
        },
        MdTag::Table => MdModel {
            table: Some(
                table_start(
                    match e.detail {
                        MdDetailView::Columns(c) => c,
                        _ => Seq::empty(),
                    },
                ),
            ),
            ..para_done(m, width, false)
        },
        _ => m,
    }
}

/// The innermost style closes.
pub open spec fn style_out(m: MdModel) -> MdModel {
    if m.styles.len() == 0 {
        m
    } else {
        MdModel { styles: m.styles.drop_last(), ..m }
    }
}

/// Whether a run is the box of a task.
pub open spec fn task_box(r: RunView) -> bool {
    starts_with(r.0, "[ ] "@) || starts_with(r.0, "[x] "@)
}

/// Whether a paragraph holds the box of a task.
pub open spec fn has_task_box(v: Seq<RunView>) -> bool {
    exists|i: int| 0 <= i < v.len() && task_box(#[trigger] v[i])
}

/// An element closes.
pub open spec fn ended(m: MdModel, e: MdEventView, width: nat) -> MdModel {
    match e.tag {
        MdTag::Heading(_) => style_out(m),
        MdTag::Strong => style_out(m),
        MdTag::Emphasis => style_out(m),
        MdTag::Strikethrough => style_out(m),
        MdTag::Link => match m.link {
            Some(dest) => run_out(
                MdModel { link: None, ..style_out(m) },
                " ("@ + dest + ")"@,
                SpanStyle::Dim,
            ),
            None => style_out(m),
        },
        MdTag::Paragraph => if m.in_code {
            m
        } else if m.spans.len() > 0 {
            line_out(para_done(m, width, m.quotes > 0), Seq::empty())
        } else if m.out.len() > 0 && m.out.last().len() > 0 {
            line_out(m, Seq::empty())
        } else {
            m
        },
        MdTag::Item => {
            let prefix: nat = if has_task_box(m.spans) {
                4
            } else {
                2
            };
            para_done(m, less(width, prefix), false)
        },
        MdTag::List => {
            let lists = less(m.lists, 1);
            let p = MdModel { lists, ..m };
            if lists == 0 {
                line_out(p, Seq::empty())
            } else {
                p
            }
        },
        MdTag::CodeBlock => line_out(MdModel { in_code: false, lang: None, ..m }, Seq::empty()),
        MdTag::BlockQuote => {
            let p = style_out(m);
            line_out(
                para_done(MdModel { quotes: less(p.quotes, 1), ..p }, width, false),
                Seq::empty(),
            )
        },
        _ => m,
    }
}

/// One event.
pub open spec fn md_step(m: MdModel, e: MdEventView, width: nat) -> MdModel {
    match m.table {
        Some(t) => in_table(m, t, e, width),
        None => match e.body {
            MdBodyView::Start => opened(m, e, width),
            MdBodyView::End => ended(m, e, width),
            MdBodyView::Text(s) => if m.in_code {
                MdModel { out: m.out + highlighted_block(s, m.lang, width), ..m }
            } else {
                run_out(m, s, cur_style(m.styles))
            },
            MdBodyView::Code(s) => run_out(m, s, SpanStyle::MdInlineCode),
            MdBodyView::Math(s) => run_out(m, s, SpanStyle::MdInlineCode),
            MdBodyView::SoftBreak => run_out(m, " "@, cur_style(m.styles)),
            MdBodyView::HardBreak => para_done(
                run_out(m, "\n"@, cur_style(m.styles)),
                width,
                m.quotes > 0,
            ),
            MdBodyView::Rule => line_out(
                line_out(
                    para_done(m, width, false),
                    seq![
                        sp(
                            repeated(
                                '─',
                                if width <= 40 {
                                    width
                                } else {
                                    40
                                },
                            ),
                            SpanStyle::MdRuler,
                        ),
                    ],
                ),
                Seq::empty(),
            ),
            MdBodyView::Task(done) => run_out(
                m,
                if done {
                    "[x] "@
                } else {
                    "[ ] "@
                },
                SpanStyle::Dim,
            ),
            MdBodyView::Other => m,
        },
    }
}

/// All events, one after the other.
pub open spec fn md_fold(es: Seq<MdEventView>, width: nat) -> MdModel
    decreases es.len(),
{
    if es.len() == 0 {
        md_start_state()
    } else {
        md_step(md_fold(es.drop_last(), width), es.last(), width)
    }
}

/// Lines without all but one of the empty lines at their end.
pub open spec fn one_blank_tail(r: Seq<Seq<SpanView>>) -> Seq<Seq<SpanView>>
    decreases r.len(),
{
    if r.len() >= 2 && r[r.len() - 1].len() == 0 && r[r.len() - 2].len() == 0 {
        one_blank_tail(r.drop_last())
    } else {
        r
    }
}

/// What events render to; at least one line.
pub open spec fn events_rows(es: Seq<MdEventView>, width: nat) -> Seq<Seq<SpanView>> {
    let m = md_fold(es, width);
    let p = para_done(m, width, m.quotes > 0);
    let whole = match p.table {
        Some(t) => p.out + table_rows(t, width),
        None => p.out,
    };
    let r = one_blank_tail(whole);
    if r.len() == 0 {
        seq![plain(""@)]
    } else {
        r
    }
}

/// What a Markdown text renders to.
pub open spec fn markdown_rows(text: Seq<char>, width: nat) -> Seq<Seq<SpanView>> {
    if width == 0 || text.len() == 0 {
        seq![plain(""@)]
    } else {
        events_rows(markdown_events(text, true, true, true), width)
    }
}

struct MdState {
    out: Vec<RenderLine>,
    styles: Vec<SpanStyle>,
    spans: Vec<Run>,
    quotes: usize,
    lists: usize,
    in_code: bool,
    lang: Option<String>,
    table: Option<TableState>,
    link: Option<String>,
}

impl View for MdState {
    type V = MdModel;

    closed spec fn view(&self) -> MdModel {
        MdModel {
            out: rows(self.out@),
            styles: self.styles@,
            spans: runs(self.spans@),
            quotes: self.quotes as nat,
            lists: self.lists as nat,
            in_code: self.in_code,
            lang: opt_text(self.lang),
            table: match self.table {
                Some(t) => Some(t@),
                None => None,
            },
            link: opt_text(self.link),
        }
    }
}

fn para_line(r: &Vec<Run>, quote: bool) -> (l: RenderLine)
    ensures
        l@ == quote_mark(quote) + run_spans(runs(r@)),
{
    let mut l = RenderLine::new();
    if quote {
        l = l.span("▎ ", SpanStyle::MdQuote);
    }
    let ghost all = run_spans(runs(r@));
    let mut i: usize = 0;
    assert(l@ =~= quote_mark(quote));
    while i < r.len()
        invariant
            i <= r@.len(),
            all == run_spans(runs(r@)),
            l@ =~= quote_mark(quote) + all.take(i as int),
        decreases r@.len() - i,
    {
        l = l.span(r[i].0.as_str(), r[i].1);
        i += 1;
        assert(all.take(i as int) =~= all.take(i - 1).push(all[i - 1]));
    }
    assert(all.take(i as int) =~= all);
    l
}

impl MdState {
    fn flush_para(&mut self, width: usize, quote: bool)
        ensures
            final(self)@ == para_done(old(self)@, width as nat, quote),
            final(self).quotes == old(self).quotes,
            final(self).lists == old(self).lists,
    {
        if self.spans.len() == 0 {
            return;
        }
        let avail: usize = if quote {
            width.saturating_sub(4)
        } else {
            width
        };
        let ls = wrap_spans(&self.spans, avail);
        let ghost shown = rows(self.out@);
        let ghost want = para_rows(run_lines(ls@), quote);
        let ghost before = self@;
        let mut i: usize = 0;
        while i < ls.len()
            invariant
                i <= ls@.len(),
                want == para_rows(run_lines(ls@), quote),
                rows(self.out@) =~= shown + want.take(i as int),
                self@ == (MdModel { out: rows(self.out@), ..before }),
                self.quotes == old(self).quotes,
                self.lists == old(self).lists,
            decreases ls@.len() - i,
        {
            let line = para_line(&ls[i], quote);
            assert(line@ == want[i as int]);
            self.out.push(line);
            i += 1;
            assert(want.take(i as int) =~= want.take(i - 1).push(want[i - 1]));
        }
        assert(want.take(i as int) =~= want);
        self.spans = Vec::new();
        assert(runs(self.spans@) =~= Seq::empty());
        assert(self@ =~= para_done(before, width as nat, quote));
    }

    fn blank_line(&mut self)
        ensures
            final(self)@ == line_out(old(self)@, Seq::empty()),
            final(self).quotes == old(self).quotes,
            final(self).lists == old(self).lists,
    {
        self.out.push(RenderLine::new());
        assert(self@ =~= line_out(old(self)@, Seq::empty()));
    }

    fn push_run(&mut self, text: String, style: SpanStyle)
        ensures
            final(self)@ == run_out(old(self)@, text@, style),
            final(self).quotes == old(self).quotes,
            final(self).lists == old(self).lists,
    {
        let ghost before = runs(self.spans@);
        self.spans.push((text, style));
        assert(runs(self.spans@) =~= before.push((text@, style)));
        assert(self@ =~= run_out(old(self)@, text@, style));
    }

    fn push_style(&mut self, style: SpanStyle)
        ensures
            final(self)@ == style_in(old(self)@, style),
            final(self).quotes == old(self).quotes,
            final(self).lists == old(self).lists,
    {
        self.styles.push(style);
        assert(self@ =~= style_in(old(self)@, style));
    }

    fn pop_style(&mut self)
        ensures
            final(self)@ == style_out(old(self)@),
            final(self).quotes == old(self).quotes,
            final(self).lists == old(self).lists,
    {
        if self.styles.len() > 0 {
            let ghost before = self.styles@;
            let _top = self.styles.pop();
            assert(self.styles@ =~= before.drop_last());
        }
        assert(self@ =~= style_out(old(self)@));
    }

    fn style(&self) -> (s: SpanStyle)
        ensures
            s == cur_style(self@.styles),
    {
        if self.styles.len() == 0 {
            SpanStyle::Plain
        } else {
            self.styles[self.styles.len() - 1]
        }
    }

    fn take_table(&mut self) -> (t: Option<TableState>)
        ensures
            t == old(self).table,
            *final(self) == (MdState { table: None, ..*old(self) }),
    {
        self.table.take()
    }

    fn table_event(&mut self, t: TableState, e: &MdEvent, width: usize)
        requires
            old(self).table is None,
        ensures
            final(self)@ == in_table(
                (MdModel { table: Some(t@), ..old(self)@ }),
                t@,
                e@,
                width as nat,
            ),
            final(self).quotes == old(self).quotes,
            final(self).lists == old(self).lists,
    {
        let mut t = t;
        let ghost t0 = t@;
        let ghost m = MdModel { table: Some(t@), ..self@ };
        match &e.body {
            MdBody::Start => match e.tag {
                MdTag::TableHead => {
                    t.in_head = true;
                    assert(t@ =~= (TableView { in_head: true, ..t0 }));
                },
                MdTag::TableRow => {
                    t.cur_row = Vec::new();
                    assert(t@ =~= (TableView { cur_row: Seq::empty(), ..t0 }));
                },
                MdTag::TableCell => {
                    t.cur_cell = String::new();
                    assert(t@ =~= (TableView { cur_cell: Seq::empty(), ..t0 }));
                },
                _ => {},
            },
            MdBody::End => match e.tag {
                MdTag::TableHead => {
                    t.flush_row();
                    t.in_head = false;
                    assert(t@ =~= (TableView { in_head: false, ..row_done(t0) }));
                },
                MdTag::TableRow => {
                    t.flush_row();
                },
                MdTag::TableCell => {
                    t.flush_cell();
                },
                MdTag::Table => {
                    proof {
                        assert((MdModel { table: None, ..m }) =~= self@);
                    }
                    self.flush_para(width, false);
                    let more = table_lines(&t, width);
                    extend_rows(&mut self.out, more);
                    assert(self@ =~= in_table(m, t0, e@, width as nat));
                    return;
                },
                _ => {},
            },
            MdBody::Text(s) => {
                t.cur_cell.push_str(s.as_str());
                assert(t@ =~= (TableView { cur_cell: t0.cur_cell + s@, ..t0 }));
            },
            MdBody::Code(s) => {
                t.cur_cell.push_str(s.as_str());
                assert(t@ =~= (TableView { cur_cell: t0.cur_cell + s@, ..t0 }));
            },
            MdBody::SoftBreak => {
                t.cur_cell.push(' ');
                assert(t@ =~= (TableView { cur_cell: t0.cur_cell.push(' '), ..t0 }));
            },
            MdBody::HardBreak => {
                t.cur_cell.push(' ');
                assert(t@ =~= (TableView { cur_cell: t0.cur_cell.push(' '), ..t0 }));
            },
            _ => {},
        }
        self.table = Some(t);
        assert(self@ =~= in_table(m, t0, e@, width as nat));
    }

    fn open(&mut self, e: &MdEvent, width: usize)
        requires
            old(self).quotes < usize::MAX,
            old(self).lists < usize::MAX,
        ensures
            final(self)@ == opened(old(self)@, e@, width as nat),
            final(self).quotes <= old(self).quotes + 1,
            final(self).lists <= old(self).lists + 1,
    {
        let ghost m = self@;
        match e.tag {
            MdTag::Heading(level) => {
                self.flush_para(width, self.quotes > 0);
                self.push_style(
                    if level == 1 {
                        SpanStyle::MdH1
                    } else if level == 2 {
                        SpanStyle::MdH2
                    } else {
                        SpanStyle::MdH3
                    },
                );
            },
            MdTag::Strong => {
                self.push_style(SpanStyle::Bold);
            },
            MdTag::Emphasis => {
                self.push_style(SpanStyle::Italic);
            },
            MdTag::Strikethrough => {
                self.push_style(SpanStyle::Dim);
            },
            MdTag::Link => {
                let dest: String = match &e.detail {
                    MdDetail::Link(d) => d.clone(),
                    _ => String::new(),
                };
                let ghost d = dest@;
                self.link = Some(dest);
                assert(self@ =~= (MdModel { link: Some(d), ..m }));
                self.push_style(SpanStyle::MdLink);
            },
            MdTag::BlockQuote => {
                self.flush_para(width, false);
                self.push_style(SpanStyle::MdQuote);
                self.quotes = self.quotes + 1;
                assert(self@ =~= opened(m, e@, width as nat));
            },
            MdTag::List => {
                self.lists = self.lists + 1;
                assert(self@ =~= opened(m, e@, width as nat));
            },
            MdTag::Item => {
                self.flush_para(width, false);
                let n: usize = self.lists.saturating_sub(1);
                let half = repeat_char(' ', n);
                let text = cat3(half.as_str(), half.as_str(), "• ");
                proof {
                    assert(half@ + half@ =~= repeated(' ', 2 * less(m.lists, 1)));
                }
                self.push_run(text, SpanStyle::Dim);
            },
            MdTag::CodeBlock => {
                self.flush_para(width, false);
                self.in_code = true;
                let lang: Option<String> = match &e.detail {
                    MdDetail::Fence(l) => Some(l.clone()),
                    _ => None,
                };
                self.lang = lang;
                assert(self@ =~= opened(m, e@, width as nat));
            },
            MdTag::Table => {
                self.flush_para(width, false);
                let columns = match &e.detail {
                    MdDetail::Columns(c) => copy_aligns(c),
                    _ => Vec::new(),
                };
                self.table = Some(TableState::new(columns));
                assert(self@ =~= opened(m, e@, width as nat));
            },
            _ => {},
        }
    }

    fn close(&mut self, e: &MdEvent, width: usize)
        ensures
            final(self)@ == ended(old(self)@, e@, width as nat),
            final(self).quotes <= old(self).quotes,
            final(self).lists <= old(self).lists,
    {
        let ghost m = self@;
        match e.tag {
            MdTag::Heading(_) => {
                self.pop_style();
            },
            MdTag::Strong => {
                self.pop_style();
            },
            MdTag::Emphasis => {
                self.pop_style();
            },
            MdTag::Strikethrough => {
                self.pop_style();
            },
            MdTag::Link => {
                self.pop_style();
                let link = self.link.take();
                match link {
                    Some(dest) => {
                        let text = cat3(" (", dest.as_str(), ")");
                        assert(self@ =~= (MdModel { link: None, ..style_out(m) }));
                        self.push_run(text, SpanStyle::Dim);
                    },
                    None => {
                        assert(self@ =~= style_out(m));
                    },
                }
            },
            MdTag::Paragraph => {
                if self.in_code {
                } else if self.spans.len() > 0 {
                    self.flush_para(width, self.quotes > 0);
                    self.blank_line();
                } else if self.out.len() > 0 && self.out[self.out.len() - 1].spans.len() > 0 {
                    assert(m.out.last().len() > 0);
                    self.blank_line();
                }
            },
            MdTag::Item => {
                let prefix: usize = if holds_task_box(&self.spans) {
                    4
                } else {
                    2
                };
                self.flush_para(width.saturating_sub(prefix), false);
            },
            MdTag::List => {
                self.lists = self.lists.saturating_sub(1);
                assert(self@ =~= (MdModel { lists: less(m.lists, 1), ..m }));
                if self.lists == 0 {
                    self.blank_line();
                }
            },
            MdTag::CodeBlock => {
                self.in_code = false;
                self.lang = None;
                assert(self@ =~= (MdModel { in_code: false, lang: None, ..m }));
                self.blank_line();
            },
            MdTag::BlockQuote => {
                self.pop_style();
                self.quotes = self.quotes.saturating_sub(1);
                assert(self@ =~= (MdModel { quotes: less(m.quotes, 1), ..style_out(m) }));
                self.flush_para(width, false);
                self.blank_line();
            },
            _ => {},
        }
    }

    fn step(&mut self, hl: &Highlighter, e: &MdEvent, width: usize)
        requires
            old(self).quotes < usize::MAX,
            old(self).lists < usize::MAX,
        ensures
            final(self)@ == md_step(old(self)@, e@, width as nat),
            final(self).quotes <= old(self).quotes + 1,
            final(self).lists <= old(self).lists + 1,
    {
        let ghost m = self@;
        let table = self.take_table();
        match table {
            Some(t) => {
                proof {
                    assert((MdModel { table: Some(t@), ..self@ }) =~= m);
                }
                self.table_event(t, e, width);
                return;
            },
            None => {
                assert(self@ =~= m);
            },
        }
        match &e.body {
            MdBody::Start => {
                self.open(e, width);
            },
            MdBody::End => {
                self.close(e, width);
            },
            MdBody::Text(s) => {
                if self.in_code {
                    let lang: Option<&str> = match &self.lang {
                        Some(l) => Some(l.as_str()),
                        None => None,
                    };
                    let more = render_highlighted_code_block(hl, s.as_str(), lang, width);
                    extend_rows(&mut self.out, more);
                    assert(self@ =~= md_step(m, e@, width as nat));
                } else {
                    let st = self.style();
                    self.push_run(s.clone(), st);
                }
            },
            MdBody::Code(s) => {
                self.push_run(s.clone(), SpanStyle::MdInlineCode);
            },
            MdBody::Math(s) => {
                self.push_run(s.clone(), SpanStyle::MdInlineCode);
            },
            MdBody::SoftBreak => {
                let st = self.style();
                self.push_run(" ".to_owned(), st);
            },
            MdBody::HardBreak => {
                let st = self.style();
                self.push_run("\n".to_owned(), st);
                self.flush_para(width, self.quotes > 0);
            },
            MdBody::Rule => {
                self.flush_para(width, false);
                let n: usize = if width <= 40 {
                    width
                } else {
                    40
                };
                let bar = repeat_char('─', n);
                let ghost p = self@;
                let line = RenderLine::new().span(bar.as_str(), SpanStyle::MdRuler);
                let ghost shown = line@;
                self.out.push(line);
                assert(self@ =~= line_out(p, shown));
                self.blank_line();
            },
            MdBody::Task(done) => {
                let mark = if *done {
                    "[x] "
                } else {
                    "[ ] "
                };
                self.push_run(mark.to_owned(), SpanStyle::Dim);
            },
            MdBody::Other => {},
        }
    }
}

fn copy_aligns(v: &Vec<crate::md_events::MdAlign>) -> (out: Vec<crate::md_events::MdAlign>)
    ensures
        out@ == v@,
{
    let mut out: Vec<crate::md_events::MdAlign> = Vec::new();
    let mut i: usize = 0;
    while i < v.len()
        invariant
            i <= v@.len(),
            out@ == v@.take(i as int),
        decreases v@.len() - i,
    {
        out.push(v[i]);
        i += 1;
        assert(out@ =~= v@.take(i as int));
    }
    assert(v@.take(i as int) =~= v@);
    out
}

fn holds_task_box(v: &Vec<Run>) -> (r: bool)
    ensures
        r == has_task_box(runs(v@)),
{
    let mut i: usize = 0;
    while i < v.len()
        invariant
            i <= v@.len(),
            forall|k: int| 0 <= k < i ==> !task_box(#[trigger] runs(v@)[k]),
        decreases v@.len() - i,
    {
        assert(runs(v@)[i as int] == (v@[i as int].0@, v@[i as int].1));
        if has_prefix(v[i].0.as_str(), "[ ] ") || has_prefix(v[i].0.as_str(), "[x] ") {
            assert(task_box(runs(v@)[i as int]));
            return true;
        }
        i += 1;
    }
    false
}

fn drop_blank_tail(out: &mut Vec<RenderLine>)
    ensures
        rows(final(out)@) == one_blank_tail(rows(old(out)@)),
{
    let ghost goal = one_blank_tail(rows(out@));
    while out.len() >= 2 && out[out.len() - 1].spans.len() == 0 && out[out.len() - 2].spans.len()
        == 0
        invariant
            one_blank_tail(rows(out@)) == goal,
        decreases out@.len(),
    {
        let ghost before = rows(out@);
        let _line = out.pop();
        assert(rows(out@) =~= before.drop_last());
    }
    proof {
        let r = rows(out@);
        if r.len() >= 2 {
            assert(r[r.len() - 1].len() == out@[out@.len() - 1].spans@.len());
            assert(r[r.len() - 2].len() == out@[out@.len() - 2].spans@.len());
        }
    }
}

/// Markdown events as styled lines.
pub fn render_events(hl: &Highlighter, events: &Vec<MdEvent>, width: usize) -> (out: Vec<RenderLine>)
    ensures
        rows(out@) == events_rows(event_views(events@), width as nat),
{
    let mut st = MdState {
        out: Vec::new(),
        styles: Vec::new(),
        spans: Vec::new(),
        quotes: 0,
        lists: 0,
        in_code: false,
        lang: None,
        table: None,
        link: None,
    };
    assert(st@ =~= md_start_state());
    let ghost all = event_views(events@);
    let n: usize = events.len();
    let mut i: usize = 0;
    assert(all.take(0) =~= Seq::empty());
    while i < n
        invariant
            i <= n,
            n == events@.len(),
            all == event_views(events@),
            st.quotes <= i,
            st.lists <= i,
            st@ == md_fold(all.take(i as int), width as nat),
        decreases n - i,
    {
        proof {
            assert(all.take(i + 1).drop_last() =~= all.take(i as int));
            assert(all.take(i + 1).last() == events@[i as int]@);
        }
        st.step(hl, &events[i], width);
        i += 1;
    }
    assert(all.take(i as int) =~= all);
    st.flush_para(width, st.quotes > 0);
    let table = st.table.take();
    match table {
        Some(t) => {
            let more = table_lines(&t, width);
            extend_rows(&mut st.out, more);
        },
        None => {},
    }
    let mut out = st.out;
    drop_blank_tail(&mut out);
    if out.len() == 0 {
        out.push(RenderLine::plain(""));
        assert(rows(out@) =~= seq![plain(""@)]);
    } else {
        assert(rows(out@).len() > 0);
    }
    out
}

/// A Markdown text as styled lines.
pub fn render_markdown(hl: &Highlighter, text: &str, width: usize) -> (out: Vec<RenderLine>)
    ensures
        rows(out@) == markdown_rows(text@, width as nat),
        out@.len() >= 1,
{
    if width == 0 || text.is_empty() {
        let mut out: Vec<RenderLine> = Vec::new();
        out.push(RenderLine::plain(""));
        assert(rows(out@) =~= seq![plain(""@)]);
        return out;
    }
    let events = read_events(text);
    let out = render_events(hl, &events, width);
    assert(rows(out@).len() >= 1);
    out
}

} // verus!
