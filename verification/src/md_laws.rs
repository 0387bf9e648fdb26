//! What drawn Markdown tells: every element in its style, every text in its
//! place.

use crate::highlight::{run_style, CodeRunView};
use crate::markdown::{md_step, md_fold, events_rows, one_blank_tail, MdModel};
use crate::md_code::{code_line_rows, code_run, code_runs, highlighted_block, plain_code_rows, CodeModel};
use crate::md_events::{MdAlign, MdBodyView, MdDetailView, MdEventView, MdTag};
use crate::md_table::{cell, column_count, column_width, longest, table_rows, TableView};
use crate::md_wrap::{line_if, wrap_from, wrapped_chars, wrapped_runs, RunView};
use crate::render_line::{law_wrap_keeps_text, sp, wrapped, RenderStyle, SpanStyle, SpanView};
use crate::text::{dec, occurs, occurs_at, one_line, trim};
use crate::transcript_laws::shown_by;
use crate::width::text_columns;
use vstd::prelude::*;

verus! {

/// A start or end of an element without details.
pub open spec fn mark(body: MdBodyView, tag: MdTag) -> MdEventView {
    MdEventView { body, tag, detail: MdDetailView::Plain }
}

/// An event that is no start and no end.
pub open spec fn inline(body: MdBodyView) -> MdEventView {
    MdEventView { body, tag: MdTag::Other, detail: MdDetailView::Plain }
}

/// The box of a task is one run of the paragraph, and holds an x exactly where
/// the task is done.
pub proof fn law_box_is_crossed_when_done(m: MdModel, e: MdEventView, done: bool, width: nat)
    requires
        m.table is None,
        e.body == MdBodyView::Task(done),
    ensures
        ({
            let n = md_step(m, e, width);
            let r = n.spans.last();
            &&& n.spans.len() == m.spans.len() + 1
            &&& n.spans.drop_last() == m.spans
            &&& r.0.contains('x') == done
            &&& r.0.len() == 4
            &&& r.0[0] == '[' && r.0[2] == ']' && r.0[3] == ' '
            &&& n == (MdModel { spans: n.spans, ..m })
        }),
{
    reveal_strlit("[x] ");
    reveal_strlit("[ ] ");
    let n = md_step(m, e, width);
    assert(n.spans.drop_last() =~= m.spans);
    let r = n.spans.last().0;
    if done {
        assert(r[1] == 'x');
    } else {
        assert forall|i: int| 0 <= i < r.len() implies r[i] != 'x' by {}
    }
}

/// Text outside code is one run of the paragraph, whole and in the innermost open
/// style.
pub proof fn law_text_joins_the_paragraph(m: MdModel, e: MdEventView, s: Seq<char>, width: nat)
    requires
        m.table is None,
        !m.in_code,
        e.body == MdBodyView::Text(s),
    ensures
        md_step(m, e, width) == (MdModel {
            spans: m.spans.push(
                (
                    s,
                    if m.styles.len() > 0 {
                        m.styles.last()
                    } else {
                        SpanStyle::Plain
                    },
                ),
            ),
            ..m
        }),
{
}

/// Inline code and formulas are one run each, whole and in the style of code,
/// whatever else is open.
pub proof fn law_inline_code_is_code(m: MdModel, e: MdEventView, s: Seq<char>, width: nat)
    requires
        m.table is None,
        e.body == MdBodyView::Code(s) || e.body == MdBodyView::Math(s),
    ensures
        md_step(m, e, width) == (MdModel {
            spans: m.spans.push((s, SpanStyle::MdInlineCode)),
            ..m
        }),
{
}

/// A line break in the source is a space.
pub proof fn law_soft_break_is_a_space(m: MdModel, e: MdEventView, width: nat)
    requires
        m.table is None,
        e.body is SoftBreak,
    ensures
        ({
            let n = md_step(m, e, width);
            &&& n.spans.len() == m.spans.len() + 1
            &&& n.spans.drop_last() == m.spans
            &&& n.spans.last().0 == seq![' ']
            &&& n == (MdModel { spans: n.spans, ..m })
        }),
{
    reveal_strlit(" ");
    assert(" "@ =~= seq![' ']);
    assert(md_step(m, e, width).spans.drop_last() =~= m.spans);
}

/// The style in which the text of an element is drawn.
pub open spec fn drawn_in(tag: MdTag, style: SpanStyle) -> bool {
    ||| tag is Strong && style is Bold
    ||| tag is Emphasis && style is Italic
    ||| tag is Strikethrough && style is Dim
    ||| tag is Link && style is MdLink
    ||| tag is BlockQuote && style is MdQuote
    ||| tag == MdTag::Heading(1) && style is MdH1
    ||| tag == MdTag::Heading(2) && style is MdH2
    ||| (tag matches MdTag::Heading(l) && l != 1 && l != 2 && style is MdH3)
}

/// Text in an element is drawn in the style of that element, and what follows
/// the element in the style of before.
pub proof fn law_elements_have_their_style(
    m: MdModel,
    start: MdEventView,
    end: MdEventView,
    style: SpanStyle,
    s: Seq<char>,
    width: nat,
)
    requires
        m.table is None,
        !m.in_code,
        start.body is Start,
        end.body is End,
        end.tag == start.tag,
        drawn_in(start.tag, style),
    ensures
        ({
            let o = md_step(m, start, width);
            let t = md_step(o, inline(MdBodyView::Text(s)), width);
            let n = md_step(t, end, width);
            &&& o.table is None
            &&& t.spans.last() == (s, style)
            &&& n.styles == m.styles
            &&& n.quotes == m.quotes
            &&& n.lists == m.lists
            &&& n.in_code == m.in_code
        }),
{
    let o = md_step(m, start, width);
    assert(o.styles.drop_last() =~= m.styles);
    assert(o.styles.last() == style);
    assert(o.styles =~= m.styles.push(style));
}

/// A link shows its text and, behind it, where it goes.
pub proof fn law_link_shows_where_it_goes(
    m: MdModel,
    dest: Seq<char>,
    s: Seq<char>,
    width: nat,
)
    requires
        m.table is None,
        !m.in_code,
    ensures
        ({
            let start = MdEventView {
                body: MdBodyView::Start,
                tag: MdTag::Link,
                detail: MdDetailView::Link(dest),
            };
            let o = md_step(m, start, width);
            let t = md_step(o, inline(MdBodyView::Text(s)), width);
            let n = md_step(t, mark(MdBodyView::End, MdTag::Link), width);
            &&& n.spans.len() == m.spans.len() + 2
            &&& n.spans.take(m.spans.len() as int) == m.spans
            &&& n.spans[m.spans.len() as int] == (s, SpanStyle::MdLink)
            &&& n.spans.last().0 == seq![' ', '('] + dest + seq![')']
            &&& n.styles == m.styles
            &&& n.link is None
            &&& n.out == m.out
        }),
{
    reveal_strlit(" (");
    reveal_strlit(")");
    assert(" ("@ =~= seq![' ', '(']);
    assert(")"@ =~= seq![')']);
    let start = MdEventView {
        body: MdBodyView::Start,
        tag: MdTag::Link,
        detail: MdDetailView::Link(dest),
    };
    let o = md_step(m, start, width);
    let t = md_step(o, inline(MdBodyView::Text(s)), width);
    let n = md_step(t, mark(MdBodyView::End, MdTag::Link), width);
    assert(n.spans.take(m.spans.len() as int) =~= m.spans);
    assert(n.styles =~= m.styles);
    assert(n.spans.last().0 =~= seq![' ', '('] + dest + seq![')']);
}

/// A line of a paragraph, behind a bar where it is quoted.
pub open spec fn row_drawn(row: Seq<SpanView>, line: Seq<RunView>, quote: bool) -> bool {
    let body = if quote {
        row.skip(1)
    } else {
        row
    };
    &&& quote ==> row.len() > 0 && row[0].text == seq!['▎', ' ']
    &&& body.len() == line.len()
    &&& forall|k: int| 0 <= k < line.len() ==> #[trigger] body[k] == sp(line[k].0, line[k].1)
}

/// A paragraph was drawn behind `before`: its lines one by one, behind a bar
/// where it is quoted.
pub open spec fn paragraph_drawn(
    before: Seq<Seq<SpanView>>,
    spans: Seq<RunView>,
    room: nat,
    quote: bool,
    after: Seq<Seq<SpanView>>,
) -> bool {
    let ls = wrapped_runs(spans, room);
    &&& after.len() >= before.len() + ls.len()
    &&& after.take(before.len() as int) == before
    &&& forall|i: int|
        0 <= i < ls.len() ==> row_drawn(after[before.len() + i], #[trigger] ls[i], quote)
}

proof fn lemma_para(m: MdModel, width: nat, quote: bool)
    requires
        m.spans.len() > 0,
    ensures
        ({
            let n = crate::markdown::para_done(m, width, quote);
            let room = if !quote {
                width
            } else if width >= 4 {
                (width - 4) as nat
            } else {
                0
            };
            &&& paragraph_drawn(m.out, m.spans, room, quote, n.out)
            &&& n.out.len() == m.out.len() + wrapped_runs(m.spans, room).len()
            &&& n.spans.len() == 0
            &&& n == (MdModel { out: n.out, spans: n.spans, ..m })
        }),
{
    reveal_strlit("▎ ");
    assert("▎ "@ =~= seq!['▎', ' ']);
    let n = crate::markdown::para_done(m, width, quote);
    assert(n.out.take(m.out.len() as int) =~= m.out);
    let room = if !quote {
        width
    } else if width >= 4 {
        (width - 4) as nat
    } else {
        0
    };
    let ls = wrapped_runs(m.spans, room);
    assert forall|i: int| 0 <= i < ls.len() implies row_drawn(
        n.out[m.out.len() + i],
        #[trigger] ls[i],
        quote,
    ) by {
        let row = n.out[m.out.len() + i];
        assert(row == crate::markdown::quote_mark(quote) + crate::markdown::run_spans(ls[i]));
        if quote {
            assert(row.skip(1) =~= crate::markdown::run_spans(ls[i]));
        } else {
            assert(row =~= crate::markdown::run_spans(ls[i]));
        }
    }
}

/// The room that a quoted paragraph has, or one that is not.
pub open spec fn room_of(m: MdModel, width: nat) -> nat {
    if m.quotes == 0 {
        width
    } else if width >= 4 {
        (width - 4) as nat
    } else {
        0
    }
}

/// At its end a paragraph is drawn whole, quoted where it stands in a quotation,
/// with an empty line behind it.
pub proof fn law_paragraph_is_drawn(m: MdModel, e: MdEventView, width: nat)
    requires
        m.table is None,
        !m.in_code,
        m.spans.len() > 0,
        e.body is End,
        e.tag is Paragraph,
    ensures
        ({
            let n = md_step(m, e, width);
            &&& paragraph_drawn(m.out, m.spans, room_of(m, width), m.quotes > 0, n.out)
            &&& n.out.len() == m.out.len() + wrapped_runs(m.spans, room_of(m, width)).len() + 1
            &&& n.out.last().len() == 0
            &&& n.spans.len() == 0
            &&& n == (MdModel { out: n.out, spans: n.spans, ..m })
        }),
{
    lemma_para(m, width, m.quotes > 0);
    let p = crate::markdown::para_done(m, width, m.quotes > 0);
    let n = md_step(m, e, width);
    assert(n.out.take(p.out.len() as int) =~= p.out);
    lemma_drawn_more(m.out, m.spans, room_of(m, width), m.quotes > 0, p.out, n.out);
}

/// A hard break draws the paragraph so far.
pub proof fn law_hard_break_draws(m: MdModel, e: MdEventView, width: nat)
    requires
        m.table is None,
        e.body is HardBreak,
    ensures
        ({
            let n = md_step(m, e, width);
            let style = if m.styles.len() > 0 {
                m.styles.last()
            } else {
                SpanStyle::Plain
            };
            &&& paragraph_drawn(
                m.out,
                m.spans.push((seq!['\n'], style)),
                room_of(m, width),
                m.quotes > 0,
                n.out,
            )
            &&& n.spans.len() == 0
        }),
{
    reveal_strlit("\n");
    assert("\n"@ =~= seq!['\n']);
    let style = if m.styles.len() > 0 {
        m.styles.last()
    } else {
        SpanStyle::Plain
    };
    let p = MdModel { spans: m.spans.push((seq!['\n'], style)), ..m };
    lemma_para(p, width, m.quotes > 0);
}

/// What interrupts a paragraph draws it first: a heading, a quotation, a list
/// item, a code block, a table, a rule.
pub open spec fn interrupts(e: MdEventView) -> bool {
    ||| e.body is Start && (e.tag is Heading || e.tag is BlockQuote || e.tag is Item || e.tag is CodeBlock
        || e.tag is Table)
    ||| e.body is Rule
}

/// No text is lost when something interrupts a paragraph.
pub proof fn law_interrupted_paragraph_is_drawn(m: MdModel, e: MdEventView, width: nat)
    requires
        m.table is None,
        m.spans.len() > 0,
        interrupts(e),
    ensures
        ({
            let n = md_step(m, e, width);
            let quote = e.tag is Heading && e.body is Start && m.quotes > 0;
            paragraph_drawn(
                m.out,
                m.spans,
                if quote {
                    room_of(m, width)
                } else {
                    width
                },
                quote,
                n.out,
            )
        }),
{
    let quote = e.tag is Heading && e.body is Start && m.quotes > 0;
    lemma_para(m, width, quote);
    let p = crate::markdown::para_done(m, width, quote);
    let n = md_step(m, e, width);
    assert(n.out.take(p.out.len() as int) =~= p.out);
    lemma_drawn_more(
        m.out,
        m.spans,
        if quote {
            room_of(m, width)
        } else {
            width
        },
        quote,
        p.out,
        n.out,
    );
}

/// A list item begins with a bullet, two spaces further in for every list around
/// its own; it ends drawn whole, as wide as its bullet, or box, leaves.
pub proof fn law_item_has_its_bullet(m: MdModel, width: nat)
    requires
        m.table is None,
    ensures
        ({
            let n = md_step(m, mark(MdBodyView::Start, MdTag::Item), width);
            let deep: int = if m.lists > 0 {
                2 * (m.lists - 1)
            } else {
                0
            };
            let r = n.spans.last().0;
            &&& n.spans.len() == 1
            &&& r.len() == deep + 2
            &&& r[deep] == '•' && r[deep + 1] == ' '
            &&& forall|i: int| 0 <= i < deep ==> #[trigger] r[i] == ' '
            &&& n.lists == m.lists && n.quotes == m.quotes && n.styles == m.styles
        }),
{
    reveal_strlit("• ");
    let p = crate::markdown::para_done(m, width, false);
    assert(p.spans.len() == 0);
}

/// The end of a list item draws it.
pub proof fn law_item_is_drawn(m: MdModel, e: MdEventView, width: nat)
    requires
        m.table is None,
        m.spans.len() > 0,
        e.body is End,
        e.tag is Item,
    ensures
        ({
            let n = md_step(m, e, width);
            let boxed = exists|i: int|
                0 <= i < m.spans.len() && crate::markdown::task_box(#[trigger] m.spans[i]);
            let bullet: nat = if boxed {
                4
            } else {
                2
            };
            let room = if width >= bullet {
                (width - bullet) as nat
            } else {
                0
            };
            &&& paragraph_drawn(m.out, m.spans, room, false, n.out)
            &&& n.out.len() == m.out.len() + wrapped_runs(m.spans, room).len()
            &&& n.spans.len() == 0
        }),
{
    let bullet: nat = if crate::markdown::has_task_box(m.spans) {
        4
    } else {
        2
    };
    let room = if width >= bullet {
        (width - bullet) as nat
    } else {
        0
    };
    lemma_para(m, room, false);
}

/// Lists and quotations nest: one more inside, as many as before behind; an
/// empty line follows the outermost list and every quotation.
pub proof fn law_nesting_is_counted(m: MdModel, width: nat)
    requires
        m.table is None,
    ensures
        ({
            let l = md_step(m, mark(MdBodyView::Start, MdTag::List), width);
            let q = md_step(m, mark(MdBodyView::Start, MdTag::BlockQuote), width);
            let ql = md_step(q, mark(MdBodyView::End, MdTag::BlockQuote), width);
            let ll = md_step(l, mark(MdBodyView::End, MdTag::List), width);
            &&& l.lists == m.lists + 1
            &&& ll.lists == m.lists
            &&& m.lists == 0 ==> ll.out == m.out.push(Seq::empty())
            &&& m.lists > 0 ==> ll.out == m.out
            &&& q.quotes == m.quotes + 1
            &&& ql.quotes == m.quotes
            &&& ql.out.len() > 0 && ql.out.last().len() == 0
            &&& ql.styles == m.styles
        }),
{
    let q = md_step(m, mark(MdBodyView::Start, MdTag::BlockQuote), width);
    let ql = md_step(q, mark(MdBodyView::End, MdTag::BlockQuote), width);
    assert(ql.styles =~= m.styles);
}

/// A rule is a line of its own, at most forty columns, with an empty line behind.
pub proof fn law_rule_is_a_line(m: MdModel, e: MdEventView, width: nat)
    requires
        m.table is None,
        m.spans.len() == 0,
        e.body is Rule,
    ensures
        ({
            let n = md_step(m, e, width);
            let line = n.out[m.out.len() as int];
            &&& n.out.len() == m.out.len() + 2
            &&& n.out.take(m.out.len() as int) == m.out
            &&& n.out.last().len() == 0
            &&& line.len() == 1
            &&& line[0].text.len() == if width < 40 {
                width
            } else {
                40
            }
            &&& forall|i: int| 0 <= i < line[0].text.len() ==> #[trigger] line[0].text[i] == '─'
            &&& line[0].style == RenderStyle::Semantic(SpanStyle::MdRuler)
        }),
{
    assert(md_step(m, e, width).out.take(m.out.len() as int) =~= m.out);
}

/// Code is drawn at once, under the language its block names, and the paragraph
/// is left alone; an empty line follows the block.
pub proof fn law_code_block_is_code(m: MdModel, lang: Seq<char>, s: Seq<char>, width: nat)
    requires
        m.table is None,
        m.spans.len() == 0,
    ensures
        ({
            let start = MdEventView {
                body: MdBodyView::Start,
                tag: MdTag::CodeBlock,
                detail: MdDetailView::Fence(lang),
            };
            let o = md_step(m, start, width);
            let t = md_step(o, inline(MdBodyView::Text(s)), width);
            let n = md_step(t, mark(MdBodyView::End, MdTag::CodeBlock), width);
            &&& o.out == m.out
            &&& t.out == m.out + highlighted_block(s, Some(lang), width)
            &&& t.spans.len() == 0
            &&& n.out == t.out.push(Seq::empty())
            &&& !n.in_code
            &&& n.styles == m.styles
        }),
{
}

/// What is drawn stays drawn: an event only adds lines.
pub proof fn law_drawn_lines_stay(m: MdModel, e: MdEventView, width: nat)
    ensures
        md_step(m, e, width).out.len() >= m.out.len(),
        md_step(m, e, width).out.take(m.out.len() as int) == m.out,
{
    assert(md_step(m, e, width).out.take(m.out.len() as int) =~= m.out);
}

/// A paragraph that was begun is gone on with or drawn: no event drops its text.
pub proof fn law_no_text_is_dropped(m: MdModel, e: MdEventView, width: nat)
    requires
        m.spans.len() > 0,
    ensures
        ({
            let n = md_step(m, e, width);
            ||| n.spans.len() >= m.spans.len() && n.spans.take(m.spans.len() as int) == m.spans
            ||| (exists|room: nat, quote: bool| #[trigger]
                paragraph_drawn(m.out, m.spans, room, quote, n.out))
            ||| e.body is HardBreak
        }),
{
    let n = md_step(m, e, width);
    if m.table is None && interrupts(e) {
        law_interrupted_paragraph_is_drawn(m, e, width);
    } else if m.table is None && e.body is End && e.tag is Paragraph && !m.in_code {
        law_paragraph_is_drawn(m, e, width);
    } else if m.table is None && e.body is End && e.tag is Item {
        law_item_is_drawn(m, e, width);
    } else if m.table is None && e.body is End && e.tag is BlockQuote {
        let s = crate::markdown::style_out(m);
        let q = MdModel { quotes: crate::tool_diff::less(s.quotes, 1), ..s };
        lemma_para(q, width, false);
        let p = crate::markdown::para_done(q, width, false);
        assert(n.out.take(p.out.len() as int) =~= p.out);
        lemma_drawn_more(m.out, m.spans, width, false, p.out, n.out);
    } else if m.table is Some && e.body is End && e.tag is Table {
        let q = MdModel { table: None, ..m };
        lemma_para(q, width, false);
        let p = crate::markdown::para_done(q, width, false);
        assert(n.out.take(p.out.len() as int) =~= p.out);
        lemma_drawn_more(m.out, m.spans, width, false, p.out, n.out);
    } else if !(e.body is HardBreak && m.table is None) {
        assert(n.spans.take(m.spans.len() as int) =~= m.spans);
    }
}

/// Lines added behind a paragraph leave it drawn.
proof fn lemma_drawn_more(
    before: Seq<Seq<SpanView>>,
    spans: Seq<RunView>,
    room: nat,
    quote: bool,
    after: Seq<Seq<SpanView>>,
    more: Seq<Seq<SpanView>>,
)
    requires
        paragraph_drawn(before, spans, room, quote, after),
        more.len() >= after.len(),
        more.take(after.len() as int) == after,
    ensures
        paragraph_drawn(before, spans, room, quote, more),
{
    let ls = wrapped_runs(spans, room);
    assert forall|i: int| 0 <= i < ls.len() implies row_drawn(
        more[before.len() + i],
        #[trigger] ls[i],
        quote,
    ) by {
        assert(more.take(after.len() as int)[before.len() + i] == more[before.len() + i]);
    }
    assert(more.take(before.len() as int) =~= more.take(after.len() as int).take(
        before.len() as int,
    ));
}

/// In a table text goes to the cell, whole, and so does code; a break is a space.
pub proof fn law_cell_gathers_its_text(m: MdModel, t: TableView, e: MdEventView, width: nat)
    requires
        m.table == Some(t),
    ensures
        ({
            let n = md_step(m, e, width);
            &&& (e.body matches MdBodyView::Text(s) ==> n == (MdModel {
                table: Some(TableView { cur_cell: t.cur_cell + s, ..t }),
                ..m
            }))
            &&& (e.body matches MdBodyView::Code(s) ==> n == (MdModel {
                table: Some(TableView { cur_cell: t.cur_cell + s, ..t }),
                ..m
            }))
            &&& e.body is SoftBreak || e.body is HardBreak ==> n == (MdModel {
                table: Some(TableView { cur_cell: t.cur_cell.push(' '), ..t }),
                ..m
            })
        }),
{
}

/// A cell that ends is the next of its row; a row that ends is the next of its
/// table, or its header where it is the first of the head.
pub proof fn law_cells_make_rows(m: MdModel, t: TableView, width: nat)
    requires
        m.table == Some(t),
    ensures
        ({
            let c = md_step(m, mark(MdBodyView::End, MdTag::TableCell), width).table;
            let r = md_step(m, mark(MdBodyView::End, MdTag::TableRow), width).table;
            let h = md_step(m, mark(MdBodyView::End, MdTag::TableHead), width).table;
            &&& c is Some && r is Some && h is Some
            &&& c->0.cur_row == t.cur_row.push(trim(t.cur_cell))
            &&& c->0.rows == t.rows && c->0.headers == t.headers && c->0.columns == t.columns
            &&& c->0.cur_cell.len() == 0
            &&& t.cur_row.len() > 0 && !t.in_head ==> r->0.rows == t.rows.push(t.cur_row)
                && r->0.headers == t.headers && r->0.cur_row.len() == 0
            &&& t.cur_row.len() > 0 && t.in_head && t.headers.len() == 0 ==> h->0.headers
                == t.cur_row && h->0.rows == t.rows && h->0.cur_row.len() == 0
            &&& !h->0.in_head
            &&& r->0.columns == t.columns && h->0.columns == t.columns
        }),
{
}

/// The start of a table takes its columns; that of a head, a row or a cell an
/// empty one.
pub proof fn law_table_starts_empty(m: MdModel, columns: Seq<MdAlign>, width: nat)
    requires
        m.table is None,
    ensures
        ({
            let start = MdEventView {
                body: MdBodyView::Start,
                tag: MdTag::Table,
                detail: MdDetailView::Columns(columns),
            };
            let t = md_step(m, start, width).table;
            &&& t is Some
            &&& t->0.columns == columns
            &&& t->0.rows.len() == 0 && t->0.headers.len() == 0
            &&& t->0.cur_row.len() == 0 && t->0.cur_cell.len() == 0
        }),
{
}

/// A table that ends is drawn behind what was drawn before.
pub proof fn law_table_is_drawn(m: MdModel, t: TableView, width: nat)
    requires
        m.table == Some(t),
        m.spans.len() == 0,
    ensures
        ({
            let n = md_step(m, mark(MdBodyView::End, MdTag::Table), width);
            n.table is None && n.out == m.out + table_rows(t, width) && n.spans.len() == 0
        }),
{
}

proof fn lemma_longest(rs: Seq<Seq<Seq<char>>>, i: int)
    requires
        0 <= i < rs.len(),
    ensures
        rs[i].len() <= longest(rs),
    decreases rs.len(),
{
    if i < rs.len() - 1 {
        lemma_longest(rs.drop_last(), i);
    }
}

proof fn lemma_cells(n: nat, row: Seq<Seq<char>>, t: TableView, width: nat, style: SpanStyle, j: int)
    requires
        0 <= j < n,
    ensures
        ({
            let line = crate::md_table::cells_upto(n, row, t, width, style);
            let raw = if j < row.len() {
                row[j]
            } else {
                Seq::empty()
            };
            let align = if j < t.columns.len() {
                Some(t.columns[j])
            } else {
                None
            };
            &&& line.len() == 2 * n + 1
            &&& line[2 * j + 1] == sp(cell(raw, column_width(width, column_count(t), j), align), style)
            &&& line[2 * j] == sp(seq!['│'], SpanStyle::MdRuler)
            &&& line[2 * j + 2] == sp(seq!['│'], SpanStyle::MdRuler)
        }),
    decreases n,
{
    reveal_strlit("│");
    assert("│"@ =~= seq!['│']);
    if j < n - 1 {
        lemma_cells((n - 1) as nat, row, t, width, style, j);
    } else if j > 0 {
        lemma_cells((n - 1) as nat, row, t, width, style, j - 1);
    }
}

/// A table shows its header in one line and, under it, every row in a line of its
/// own, up to thirty-two; cell `j` of the row stands in column `j`, between bars.
/// More rows are counted.
pub proof fn law_table_shows_its_cells(t: TableView, width: nat, i: int, j: int)
    requires
        0 <= i < t.rows.len(),
        i < 32,
        0 <= j < t.rows[i].len(),
    ensures
        ({
            let rs = table_rows(t, width);
            let top: int = if t.headers.len() > 0 {
                3
            } else {
                1
            };
            let shown: int = if t.rows.len() <= 32 {
                t.rows.len() as int
            } else {
                32
            };
            let line = rs[top + i];
            let cols = column_count(t);
            let align = if j < t.columns.len() {
                Some(t.columns[j])
            } else {
                None
            };
            &&& cols >= t.rows[i].len() && cols >= t.headers.len()
            &&& rs.len() == top + shown + (if t.rows.len() > 32 {
                2int
            } else {
                1
            })
            &&& line.len() == 2 * cols + 1
            &&& line[2 * j + 1] == sp(
                cell(t.rows[i][j], column_width(width, cols, j), align),
                SpanStyle::MdTableCell,
            )
            &&& line[2 * j].text == seq!['│'] && line[2 * j + 2].text == seq!['│']
            &&& t.rows.len() > 32 ==> occurs(
                rs[top + 32][0].text,
                dec((t.rows.len() - 32) as nat),
            )
        }),
{
    lemma_longest(t.rows, i);
    lemma_cells(column_count(t), t.rows[i], t, width, SpanStyle::MdTableCell, j);
    if t.rows.len() > 32 {
        let top: int = if t.headers.len() > 0 {
            3
        } else {
            1
        };
        let text = table_rows(t, width)[top + 32][0].text;
        let d = dec((t.rows.len() - 32) as nat);
        let at = "  （表格省略 "@.len() as int;
        assert(text.subrange(at, at + d.len()) =~= d);
        assert(occurs_at(text, d, at));
    }
}

/// The header of a table is its first line under the upper rule.
pub proof fn law_table_shows_its_header(t: TableView, width: nat, j: int)
    requires
        0 <= j < t.headers.len(),
    ensures
        ({
            let line = table_rows(t, width)[1];
            let align = if j < t.columns.len() {
                Some(t.columns[j])
            } else {
                None
            };
            &&& line.len() == 2 * t.headers.len() + 1
            &&& line[2 * j + 1] == sp(
                cell(t.headers[j], column_width(width, column_count(t), j), align),
                SpanStyle::MdTableHead,
            )
        }),
{
    lemma_cells(t.headers.len(), t.headers, t, width, SpanStyle::MdTableHead, j);
}

/// A cell that fits shows its text whole, on the side that its column is aligned
/// to, and spaces besides; one that does not ends its text with an ellipsis.
pub proof fn law_cell_shows_its_text(raw: Seq<char>, width: nat, align: Option<MdAlign>)
    ensures
        ({
            let s = one_line(raw);
            let r = cell(raw, width, align);
            let pad = width - text_columns(s);
            &&& text_columns(s) < width ==> {
                let at: int = match align {
                    Some(MdAlign::Right) => pad,
                    Some(MdAlign::Center) => pad / 2,
                    _ => 0,
                };
                &&& r.len() == s.len() + pad
                &&& r.subrange(at, at + s.len()) == s
                &&& forall|i: int| 0 <= i < r.len() && !(at <= i < at + s.len()) ==> r[i] == ' '
            }
            &&& text_columns(s) >= width ==> r.contains('…')
        }),
{
    let s = one_line(raw);
    let r = cell(raw, width, align);
    let pad = width - text_columns(s);
    if text_columns(s) < width {
        let at: int = match align {
            Some(MdAlign::Right) => pad,
            Some(MdAlign::Center) => pad / 2,
            _ => 0,
        };
        assert(r.subrange(at, at + s.len()) =~= s);
    } else {
        reveal_strlit("…");
        let kept = if width == 0 {
            Seq::empty()
        } else {
            s.take(crate::render_line::fit_len(s, (width - 1) as nat) as int)
        };
        assert(r[kept.len() as int] == '…');
    }
}

/// The widths of the first `n` columns in all.
pub open spec fn widths_upto(width: nat, cols: nat, n: nat) -> nat
    decreases n,
{
    if n == 0 {
        0
    } else {
        widths_upto(width, cols, (n - 1) as nat) + column_width(width, cols, n - 1)
    }
}

proof fn lemma_widths(width: nat, cols: nat, n: nat)
    requires
        0 < cols,
        n <= cols,
        width >= 4 * cols + 1,
    ensures
        ({
            let room = (width - cols - 1) as nat;
            widths_upto(width, cols, n) == n * (room / cols) + if n <= room % cols {
                n
            } else {
                room % cols
            }
        }),
    decreases n,
{
    let room = (width - cols - 1) as nat;
    assert(room / cols >= 3) by (nonlinear_arith)
        requires
            0 < cols,
            room >= 3 * cols,
    ;
    if n > 0 {
        lemma_widths(width, cols, (n - 1) as nat);
        let q = room / cols;
        assert(n * q == (n - 1) * q + q) by (nonlinear_arith);
    } else {
        let q = room / cols;
        assert(0 * q == 0) by (nonlinear_arith);
    }
}

/// The columns of a table and its bars fill the width, wherever each column has
/// at least three; the widths differ by one at most.
pub proof fn law_columns_fill_the_width(width: nat, cols: nat)
    requires
        0 < cols,
        width >= 4 * cols + 1,
    ensures
        widths_upto(width, cols, cols) + cols + 1 == width,
        forall|i: int, j: int|
            0 <= i < j < cols ==> {
                let d = #[trigger] column_width(width, cols, i) - #[trigger] column_width(
                    width,
                    cols,
                    j,
                );
                0 <= d <= 1
            },
{
    lemma_widths(width, cols, cols);
    let room = (width - cols - 1) as nat;
    assert(room / cols >= 3) by (nonlinear_arith)
        requires
            0 < cols,
            room >= 3 * cols,
    ;
    assert(cols * (room / cols) + room % cols == room && room % cols < cols) by (nonlinear_arith)
        requires
            0 < cols,
    ;
}

/// Only empty lines are dropped at the end, and one of them is kept.
pub proof fn law_only_empty_lines_are_dropped(r: Seq<Seq<SpanView>>)
    ensures
        ({
            let k = one_blank_tail(r);
            &&& k.len() <= r.len()
            &&& r.take(k.len() as int) == k
            &&& forall|i: int| k.len() <= i < r.len() ==> (#[trigger] r[i]).len() == 0
            &&& k.len() < r.len() ==> k.len() > 0 && k.last().len() == 0
            &&& r.len() > 0 ==> k.len() > 0
        }),
    decreases r.len(),
{
    let k = one_blank_tail(r);
    if r.len() >= 2 && r[r.len() - 1].len() == 0 && r[r.len() - 2].len() == 0 {
        let s = r.drop_last();
        law_only_empty_lines_are_dropped(s);
        assert(r.take(k.len() as int) =~= s.take(k.len() as int));
        assert forall|i: int| k.len() <= i < r.len() implies (#[trigger] r[i]).len() == 0 by {
            if i < s.len() {
                assert(s[i] == r[i]);
            }
        }
        if k.len() == s.len() {
            assert(k =~= s);
            assert(k.last() == r[r.len() - 2]);
        }
    } else {
        assert(r.take(k.len() as int) =~= r);
    }
}

/// `rs` is `whole` but for empty lines at the end, and `whole` is what was drawn
/// before with the paragraph behind it.
pub open spec fn ends_drawn(
    m: MdModel,
    width: nat,
    whole: Seq<Seq<SpanView>>,
    rs: Seq<Seq<SpanView>>,
) -> bool {
    &&& paragraph_drawn(m.out, m.spans, room_of(m, width), m.quotes > 0, whole)
    &&& whole.len() == m.out.len() + wrapped_runs(m.spans, room_of(m, width)).len()
    &&& rs.len() <= whole.len()
    &&& whole.take(rs.len() as int) == rs
    &&& forall|i: int| rs.len() <= i < whole.len() ==> (#[trigger] whole[i]).len() == 0
}

/// At the end what is left of a paragraph is drawn too, and at least one line.
pub proof fn law_last_paragraph_is_drawn(es: Seq<MdEventView>, width: nat)
    requires
        md_fold(es, width).spans.len() > 0,
        md_fold(es, width).table is None,
    ensures
        ({
            let m = md_fold(es, width);
            let rs = events_rows(es, width);
            exists|whole: Seq<Seq<SpanView>>| #[trigger] ends_drawn(m, width, whole, rs)
        }),
        events_rows(es, width).len() > 0,
{
    let m = md_fold(es, width);
    lemma_para(m, width, m.quotes > 0);
    let whole = crate::markdown::para_done(m, width, m.quotes > 0).out;
    law_only_empty_lines_are_dropped(whole);
    assert(wrapped_runs(m.spans, room_of(m, width)).len() > 0);
    assert(ends_drawn(m, width, whole, events_rows(es, width)));
}

/// Every line of wrapped styled characters is a stretch of them, styles
/// included.
pub proof fn law_lines_are_stretches(cs: Seq<(char, SpanStyle)>, width: nat, i: int)
    requires
        0 <= i < wrapped_chars(cs, width).len(),
    ensures
        exists|from: int, to: int|
            0 <= from < to <= cs.len() && wrapped_chars(cs, width)[i] == #[trigger] cs.subrange(
                from,
                to,
            ),
{
    lemma_stretches(cs, 0, 0, None, width, i);
}

proof fn lemma_stretches(
    cs: Seq<(char, SpanStyle)>,
    start: int,
    at: int,
    ws: Option<int>,
    width: nat,
    i: int,
)
    requires
        0 <= start <= at <= cs.len(),
        ws matches Some(k) ==> start <= k < at,
        0 <= i < wrap_from(cs, start, at, ws, width).len(),
    ensures
        exists|from: int, to: int|
            0 <= from < to <= cs.len() && wrap_from(cs, start, at, ws, width)[i]
                == #[trigger] cs.subrange(from, to),
    decreases
            cs.len() - at,
            (if ws is Some {
                1nat
            } else {
                0
            }),
            cs.len() - start,
{
    if at < cs.len() {
        let c = cs[at].0;
        let over = crate::md_wrap::span_columns(cs, start, at) + crate::width::cw(c) > width;
        if c == '\n' || (over && c == ' ') {
            let k = line_if(cs, start, at).len() as int;
            if i >= k {
                lemma_stretches(cs, at + 1, at + 1, None, width, i - k);
            }
        } else if over {
            match ws {
                Some(b) => {
                    let k = line_if(cs, start, b).len() as int;
                    if i >= k {
                        lemma_stretches(cs, b + 1, at, None, width, i - k);
                    }
                },
                None => {
                    let end = if start == at {
                        at + 1
                    } else {
                        at
                    };
                    if i >= 1 {
                        lemma_stretches(cs, end, end, None, width, i - 1);
                    }
                },
            }
        } else {
            lemma_stretches(
                cs,
                start,
                at + 1,
                if c == ' ' {
                    Some(at)
                } else {
                    ws
                },
                width,
                i,
            );
        }
    }
}

/// The text of a line of code without its indent.
pub open spec fn code_text(line: Seq<SpanView>) -> Seq<char>
    decreases line.len(),
{
    if line.len() <= 1 {
        Seq::empty()
    } else {
        code_text(line.drop_last()) + line.last().text
    }
}

/// The text of lines of code in one.
pub open spec fn code_texts(rs: Seq<Seq<SpanView>>) -> Seq<char>
    decreases rs.len(),
{
    if rs.len() == 0 {
        Seq::empty()
    } else {
        code_texts(rs.drop_last()) + code_text(rs.last())
    }
}

/// The text of highlighted runs in one.
pub open spec fn runs_text(rs: Seq<CodeRunView>) -> Seq<char>
    decreases rs.len(),
{
    if rs.len() == 0 {
        Seq::empty()
    } else {
        runs_text(rs.drop_last()) + rs.last().text
    }
}

spec fn laid_text(m: CodeModel) -> Seq<char> {
    code_texts(m.done) + code_text(m.cur)
}

/// A line that begins with the indent.
pub open spec fn indented(line: Seq<SpanView>) -> bool {
    line.len() >= 1 && line[0].text == seq![' ', ' ']
}

spec fn laid_well(m: CodeModel) -> bool {
    indented(m.cur) && forall|i: int| 0 <= i < m.done.len() ==> indented(#[trigger] m.done[i])
}

proof fn lemma_code_break(m: CodeModel, max_w: nat)
    requires
        laid_well(m),
    ensures
        laid_well(crate::md_code::code_break(m, max_w)),
        laid_text(crate::md_code::code_break(m, max_w)) == laid_text(m),
{
    reveal_strlit("  ");
    assert("  "@ =~= seq![' ', ' ']);
    let n = crate::md_code::code_break(m, max_w);
    assert(n.done.drop_last() =~= m.done);
    assert(laid_text(n) =~= laid_text(m));
}

proof fn lemma_code_run(m: CodeModel, text: Seq<char>, style: crate::render_line::DirectStyle, max_w: nat)
    requires
        laid_well(m),
    ensures
        laid_well(code_run(m, text, style, max_w)),
        laid_text(code_run(m, text, style, max_w)) == laid_text(m) + text,
    decreases text.len(),
{
    if text.len() == 0 {
        assert(laid_text(m) + text =~= laid_text(m));
    } else {
        let at = if m.room == 0 {
            crate::md_code::code_break(m, max_w)
        } else {
            m
        };
        if m.room == 0 {
            lemma_code_break(m, max_w);
        }
        let n = crate::md_code::code_take(text, at.room) as int;
        crate::render_line::lemma_fit_len(text, at.room, 0);
        let head = text.take(n);
        let put = CodeModel {
            cur: at.cur.push(crate::md_code::direct(head, style)),
            room: crate::tool_diff::less(at.room, crate::width::columns(head)),
            ..at
        };
        assert(put.cur.drop_last() =~= at.cur);
        assert(laid_text(put) =~= laid_text(at) + head);
        assert(put.cur[0] == at.cur[0]);
        if 0 < n < text.len() {
            lemma_code_break(put, max_w);
            lemma_code_run(crate::md_code::code_break(put, max_w), text.skip(n), style, max_w);
            assert(laid_text(at) + head + text.skip(n) =~= laid_text(at) + text);
        } else {
            assert(head =~= text);
        }
    }
}

proof fn lemma_code_runs(m: CodeModel, rs: Seq<CodeRunView>, max_w: nat)
    requires
        laid_well(m),
    ensures
        laid_well(code_runs(m, rs, max_w)),
        laid_text(code_runs(m, rs, max_w)) == laid_text(m) + runs_text(rs),
    decreases rs.len(),
{
    if rs.len() == 0 {
        assert(laid_text(m) + runs_text(rs) =~= laid_text(m));
    } else {
        let r = rs.last();
        let p = code_runs(m, rs.drop_last(), max_w);
        lemma_code_runs(m, rs.drop_last(), max_w);
        lemma_code_run(p, r.text, run_style(r.fg, r.bg, r.font), max_w);
        assert(laid_text(m) + runs_text(rs.drop_last()) + r.text =~= laid_text(m) + runs_text(rs));
    }
}

/// A highlighted line of code is drawn whole, cut into indented lines where it is
/// too wide.
pub proof fn law_code_line_is_whole(rs: Seq<CodeRunView>, max_w: nat)
    ensures
        code_texts(code_line_rows(rs, max_w)) == runs_text(rs),
        forall|i: int|
            0 <= i < code_line_rows(rs, max_w).len() ==> indented(
                #[trigger] code_line_rows(rs, max_w)[i],
            ),
{
    reveal_strlit("  ");
    assert("  "@ =~= seq![' ', ' ']);
    let m = CodeModel { done: Seq::empty(), cur: crate::md_code::code_indent(), room: max_w };
    assert(laid_text(m) =~= Seq::empty());
    lemma_code_runs(m, rs, max_w);
    let e = code_runs(m, rs, max_w);
    let lines = code_line_rows(rs, max_w);
    assert(lines.drop_last() =~= e.done);
    assert(code_texts(lines) =~= laid_text(e));
    assert(laid_text(e) =~= runs_text(rs));
}

/// Code that could not be highlighted is drawn whole too, indented.
pub proof fn law_plain_code_is_whole(line: Seq<char>, max_w: nat)
    ensures
        ({
            let rs = plain_code_rows(line, max_w);
            &&& shown_by(line, Seq::new(rs.len(), |i: int| rs[i][0].text.skip(2)))
            &&& forall|i: int|
                0 <= i < rs.len() ==> (#[trigger] rs[i]).len() == 1 && rs[i][0].text.len() >= 2
                    && rs[i][0].text[0] == ' ' && rs[i][0].text[1] == ' '
        }),
{
    reveal_strlit("  ");
    let rs = plain_code_rows(line, max_w);
    let ls = wrapped(line, max_w);
    law_wrap_keeps_text(line, max_w);
    let shown = Seq::new(rs.len(), |i: int| rs[i][0].text.skip(2));
    assert forall|i: int| 0 <= i < ls.len() implies #[trigger] shown[i] == ls[i] by {
        assert(("  "@ + ls[i]).skip(2) =~= ls[i]);
    }
    assert(shown =~= ls);
}

} // verus!
