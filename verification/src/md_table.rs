//! Markdown tables, drawn as a grid.

use crate::md_events::MdAlign;
use crate::render_line::{
    fit_len, lemma_rows_add, lemma_rows_push, rows, sp, RenderLine, SpanStyle, SpanView,
};
use crate::text::{
    cat2, cat3, chars_of, dec, dec_usize, lemma_texts_push, one_line, repeat_char, repeated,
    string_of, texts, to_one_line, trim, trimmed,
};
use crate::tool_diff::less;
use crate::width::{char_width, columns, str_width, text_columns};
use vstd::prelude::*;

verus! {

broadcast use {lemma_rows_push, lemma_rows_add, lemma_texts_push};

/// What of `s` fits into `room` columns.
pub fn fit_prefix(s: &str, room: usize) -> (r: String)
    ensures
        r@ == s@.take(fit_len(s@, room as nat) as int),
{
    let chars = chars_of(s);
    let mut end: usize = 0;
    let mut left: usize = room;
    assert(chars@.skip(0) =~= chars@);
    while end < chars.len() && char_width(chars[end]) <= left
        invariant
            end <= chars@.len(),
            chars@ == s@,
            end + fit_len(chars@.skip(end as int), left as nat) == fit_len(s@, room as nat),
        decreases chars@.len() - end,
    {
        proof {
            assert(chars@.skip(end as int)[0] == chars@[end as int]);
            assert(chars@.skip(end as int).drop_first() =~= chars@.skip(end + 1));
        }
        left = left - char_width(chars[end]);
        end += 1;
    }
    proof {
        if end < chars@.len() {
            assert(chars@.skip(end as int)[0] == chars@[end as int]);
        }
    }
    let r = string_of(&chars, 0, end);
    assert(r@ =~= s@.take(end as int));
    r
}

/// A cell's text in exactly `width` columns: cut with an ellipsis, or filled up
/// with spaces on the side that its alignment leaves.
pub open spec fn cell(raw: Seq<char>, width: nat, align: Option<MdAlign>) -> Seq<char> {
    let s = one_line(raw);
    let w = text_columns(s);
    if w >= width {
        let kept = if width == 0 {
            Seq::empty()
        } else {
            s.take(fit_len(s, (width - 1) as nat) as int)
        };
        kept + "…"@ + repeated(' ', less(width, text_columns(kept) + 1))
    } else {
        let pad = (width - w) as nat;
        match align {
            Some(MdAlign::Right) => repeated(' ', pad) + s,
            Some(MdAlign::Center) => repeated(' ', pad / 2) + s + repeated(
                ' ',
                (pad - pad / 2) as nat,
            ),
            _ => s + repeated(' ', pad),
        }
    }
}

/// A cell's text in exactly `width` columns.
pub fn format_cell(raw: &str, width: usize, align: Option<MdAlign>) -> (r: String)
    ensures
        r@ == cell(raw@, width as nat, align),
{
    let s = to_one_line(raw);
    let w = str_width(s.as_str());
    if w >= width {
        let kept = if width == 0 {
            String::new()
        } else {
            fit_prefix(s.as_str(), width - 1)
        };
        let used = str_width(kept.as_str());
        let pad = repeat_char(' ', width.saturating_sub(used).saturating_sub(1));
        return cat3(kept.as_str(), "…", pad.as_str());
    }
    let pad: usize = width - w;
    match align {
        Some(MdAlign::Right) => {
            let fill = repeat_char(' ', pad);
            cat2(fill.as_str(), s.as_str())
        },
        Some(MdAlign::Center) => {
            let left = repeat_char(' ', pad / 2);
            let right = repeat_char(' ', pad - pad / 2);
            cat3(left.as_str(), s.as_str(), right.as_str())
        },
        _ => {
            let fill = repeat_char(' ', pad);
            cat2(s.as_str(), fill.as_str())
        },
    }
}

/// A table being read.
#[verifier::ext_equal]
pub struct TableView {
    pub columns: Seq<MdAlign>,
    pub headers: Seq<Seq<char>>,
    pub rows: Seq<Seq<Seq<char>>>,
    pub in_head: bool,
    pub cur_row: Seq<Seq<char>>,
    pub cur_cell: Seq<char>,
}

/// A table being read.
#[derive(Debug)]
pub struct TableState {
    pub columns: Vec<MdAlign>,
    pub headers: Vec<String>,
    pub rows: Vec<Vec<String>>,
    pub in_head: bool,
    pub cur_row: Vec<String>,
    pub cur_cell: String,
}

/// The texts of all rows.
pub open spec fn row_texts(v: Seq<Vec<String>>) -> Seq<Seq<Seq<char>>> {
    Seq::new(v.len(), |i: int| texts(v[i]@))
}

impl View for TableState {
    type V = TableView;

    open spec fn view(&self) -> TableView {
        TableView {
            columns: self.columns@,
            headers: texts(self.headers@),
            rows: row_texts(self.rows@),
            in_head: self.in_head,
            cur_row: texts(self.cur_row@),
            cur_cell: self.cur_cell@,
        }
    }
}

/// An empty table.
pub open spec fn table_start(columns: Seq<MdAlign>) -> TableView {
    TableView {
        columns,
        headers: Seq::empty(),
        rows: Seq::empty(),
        in_head: false,
        cur_row: Seq::empty(),
        cur_cell: Seq::empty(),
    }
}

/// The current cell is complete.
pub open spec fn cell_done(t: TableView) -> TableView {
    TableView { cur_row: t.cur_row.push(trim(t.cur_cell)), cur_cell: Seq::empty(), ..t }
}

/// The current row is complete; the first one of the head is the header.
pub open spec fn row_done(t: TableView) -> TableView {
    if t.cur_row.len() == 0 {
        t
    } else if t.in_head && t.headers.len() == 0 {
        TableView { headers: t.cur_row, cur_row: Seq::empty(), ..t }
    } else {
        TableView { rows: t.rows.push(t.cur_row), cur_row: Seq::empty(), ..t }
    }
}

impl TableState {
    pub fn new(columns: Vec<MdAlign>) -> (t: Self)
        ensures
            t@ == table_start(columns@),
    {
        let t = TableState {
            columns,
            headers: Vec::new(),
            rows: Vec::new(),
            in_head: false,
            cur_row: Vec::new(),
            cur_cell: String::new(),
        };
        assert(t@ =~= table_start(columns@));
        t
    }

    /// Ends the current cell.
    pub fn flush_cell(&mut self)
        ensures
            final(self)@ == cell_done(old(self)@),
    {
        let text = trimmed(self.cur_cell.as_str());
        self.cur_row.push(text);
        self.cur_cell = String::new();
        assert(self@ =~= cell_done(old(self)@));
    }

    /// Ends the current row.
    pub fn flush_row(&mut self)
        ensures
            final(self)@ == row_done(old(self)@),
    {
        if self.cur_row.len() == 0 {
            return;
        }
        let mut row: Vec<String> = Vec::new();
        std::mem::swap(&mut row, &mut self.cur_row);
        assert(texts(self.cur_row@) =~= Seq::empty());
        if self.in_head && self.headers.len() == 0 {
            self.headers = row;
        } else {
            self.rows.push(row);
        }
        assert(self@ =~= row_done(old(self)@));
    }
}

/// How many cells the longest row has.
pub open spec fn longest(rs: Seq<Seq<Seq<char>>>) -> nat
    decreases rs.len(),
{
    if rs.len() == 0 {
        0
    } else {
        let rest = longest(rs.drop_last());
        if rs.last().len() >= rest {
            rs.last().len()
        } else {
            rest
        }
    }
}

/// How many columns a table has.
pub open spec fn column_count(t: TableView) -> nat {
    if t.headers.len() >= longest(t.rows) {
        t.headers.len()
    } else {
        longest(t.rows)
    }
}

/// The width of column `i`: the table shares the width without its borders
/// evenly, the first columns taking what is left over, and no column less than
/// three.
pub open spec fn column_width(width: nat, cols: nat, i: int) -> nat {
    let room = less(width, cols + 1);
    if room / cols >= 3 {
        room / cols + if i < room % cols {
            1nat
        } else {
            0
        }
    } else {
        3
    }
}

/// A rule over the first `n` of `cols` columns.
pub open spec fn rule_upto(
    n: nat,
    cols: nat,
    width: nat,
    left: Seq<char>,
    mid: Seq<char>,
    right: Seq<char>,
) -> Seq<char>
    decreases n,
{
    if n == 0 {
        left
    } else {
        rule_upto((n - 1) as nat, cols, width, left, mid, right) + repeated(
            '─',
            column_width(width, cols, n - 1),
        ) + if n < cols {
            mid
        } else {
            right
        }
    }
}

/// A rule line.
pub open spec fn rule_row(
    cols: nat,
    width: nat,
    left: Seq<char>,
    mid: Seq<char>,
    right: Seq<char>,
) -> Seq<SpanView> {
    seq![sp(rule_upto(cols, cols, width, left, mid, right), SpanStyle::MdRuler)]
}

/// The first `n` cells of a row, between bars.
pub open spec fn cells_upto(
    n: nat,
    row: Seq<Seq<char>>,
    t: TableView,
    width: nat,
    style: SpanStyle,
) -> Seq<SpanView>
    decreases n,
{
    if n == 0 {
        seq![sp("│"@, SpanStyle::MdRuler)]
    } else {
        let i = n - 1;
        let raw = if i < row.len() {
            row[i]
        } else {
            Seq::empty()
        };
        let align = if i < t.columns.len() {
            Some(t.columns[i])
        } else {
            None
        };
        cells_upto(i as nat, row, t, width, style).push(
            sp(cell(raw, column_width(width, column_count(t), i), align), style),
        ).push(sp("│"@, SpanStyle::MdRuler))
    }
}

/// At most this many body rows are drawn.
pub const TABLE_ROWS: usize = 32;

/// The header of a table, where it has one.
pub open spec fn header_rows(t: TableView, width: nat) -> Seq<Seq<SpanView>> {
    let cols = column_count(t);
    if t.headers.len() == 0 {
        Seq::empty()
    } else {
        seq![
            cells_upto(t.headers.len(), t.headers, t, width, SpanStyle::MdTableHead),
            rule_row(cols, width, "├"@, "┼"@, "┤"@),
        ]
    }
}

/// How many body rows are drawn.
pub open spec fn shown_rows(t: TableView) -> nat {
    if t.rows.len() <= TABLE_ROWS {
        t.rows.len()
    } else {
        TABLE_ROWS as nat
    }
}

/// The body of a table.
pub open spec fn table_body(t: TableView, width: nat) -> Seq<Seq<SpanView>> {
    Seq::new(
        shown_rows(t),
        |i: int| cells_upto(column_count(t), t.rows[i], t, width, SpanStyle::MdTableCell),
    )
}

/// The line that counts the rows which are not drawn.
pub open spec fn table_rest(t: TableView) -> Seq<Seq<SpanView>> {
    if t.rows.len() > TABLE_ROWS {
        let n = dec((t.rows.len() - TABLE_ROWS) as nat);
        seq![seq![sp("  （表格省略 "@ + n + " 行）"@, SpanStyle::Dim)]]
    } else {
        Seq::empty()
    }
}

/// A table as a grid.
pub open spec fn table_rows(t: TableView, width: nat) -> Seq<Seq<SpanView>> {
    let cols = column_count(t);
    if cols == 0 {
        Seq::empty()
    } else {
        seq![rule_row(cols, width, "┌"@, "┬"@, "┐"@)] + header_rows(t, width) + table_body(t, width)
            + table_rest(t) + seq![rule_row(cols, width, "└"@, "┴"@, "┘"@)]
    }
}

fn count_columns(t: &TableState) -> (n: usize)
    ensures
        n == column_count(t@),
{
    let mut n: usize = 0;
    let mut i: usize = 0;
    let ghost all = row_texts(t.rows@);
    assert(all.take(0) =~= Seq::empty());
    while i < t.rows.len()
        invariant
            i <= t.rows@.len(),
            all == row_texts(t.rows@),
            n == longest(all.take(i as int)),
        decreases t.rows@.len() - i,
    {
        proof {
            assert(all.take(i + 1).drop_last() =~= all.take(i as int));
            assert(all.take(i + 1).last() == texts(t.rows@[i as int]@));
        }
        if t.rows[i].len() >= n {
            n = t.rows[i].len();
        }
        i += 1;
    }
    assert(all.take(i as int) =~= all);
    if t.headers.len() >= n {
        t.headers.len()
    } else {
        n
    }
}

fn width_of_column(width: usize, cols: usize, i: usize) -> (w: usize)
    requires
        cols > 0,
    ensures
        w == column_width(width as nat, cols as nat, i as int),
{
    let room = width.saturating_sub(cols).saturating_sub(1);
    let each = room / cols;
    if each >= 3 {
        let over = room % cols;
        if i < over {
            proof {
                assert(each < room) by (nonlinear_arith)
                    requires
                        each == room / cols,
                        over == room % cols,
                        over > 0,
                        cols > 0,
                ;
            }
            each + 1
        } else {
            each
        }
    } else {
        3
    }
}

fn rule_line(cols: usize, width: usize, left: &str, mid: &str, right: &str) -> (l: RenderLine)
    requires
        cols > 0,
    ensures
        l@ == rule_row(cols as nat, width as nat, left@, mid@, right@),
{
    let mut s = left.to_owned();
    let mut i: usize = 0;
    while i < cols
        invariant
            i <= cols,
            cols > 0,
            s@ == rule_upto(i as nat, cols as nat, width as nat, left@, mid@, right@),
        decreases cols - i,
    {
        let bar = repeat_char('─', width_of_column(width, cols, i));
        s.push_str(bar.as_str());
        i += 1;
        if i < cols {
            s.push_str(mid);
        } else {
            s.push_str(right);
        }
    }
    RenderLine::new().span(s.as_str(), SpanStyle::MdRuler)
}

fn cells_line(t: &TableState, row: &Vec<String>, n: usize, cols: usize, width: usize, style: SpanStyle)
    -> (l: RenderLine)
    requires
        cols == column_count(t@),
        cols > 0,
    ensures
        l@ == cells_upto(n as nat, texts(row@), t@, width as nat, style),
{
    let mut l = RenderLine::new().span("│", SpanStyle::MdRuler);
    let mut i: usize = 0;
    while i < n
        invariant
            i <= n,
            cols == column_count(t@),
            cols > 0,
            l@ == cells_upto(i as nat, texts(row@), t@, width as nat, style),
        decreases n - i,
    {
        let w = width_of_column(width, cols, i);
        let align = if i < t.columns.len() {
            Some(t.columns[i])
        } else {
            None
        };
        let text = if i < row.len() {
            format_cell(row[i].as_str(), w, align)
        } else {
            let none = String::new();
            format_cell(none.as_str(), w, align)
        };
        l = l.span(text.as_str(), style).span("│", SpanStyle::MdRuler);
        i += 1;
    }
    l
}

/// A table as a grid.
pub fn table_lines(t: &TableState, width: usize) -> (out: Vec<RenderLine>)
    ensures
        rows(out@) == table_rows(t@, width as nat),
{
    let mut out: Vec<RenderLine> = Vec::new();
    assert(rows(out@) =~= Seq::empty());
    let cols = count_columns(t);
    if cols == 0 {
        return out;
    }
    out.push(rule_line(cols, width, "┌", "┬", "┐"));
    let ghost r0 = rows(out@);
    assert(r0 =~= seq![rule_row(cols as nat, width as nat, "┌"@, "┬"@, "┐"@)]);
    if t.headers.len() > 0 {
        out.push(cells_line(t, &t.headers, t.headers.len(), cols, width, SpanStyle::MdTableHead));
        out.push(rule_line(cols, width, "├", "┼", "┤"));
    }
    assert(rows(out@) =~= r0 + header_rows(t@, width as nat));
    let ghost r1 = rows(out@);
    let n: usize = if t.rows.len() <= TABLE_ROWS {
        t.rows.len()
    } else {
        TABLE_ROWS
    };
    let mut i: usize = 0;
    while i < n
        invariant
            i <= n <= t.rows@.len(),
            n == shown_rows(t@),
            cols == column_count(t@),
            cols > 0,
            rows(out@) =~= r1 + table_body(t@, width as nat).take(i as int),
        decreases n - i,
    {
        let line = cells_line(t, &t.rows[i], cols, cols, width, SpanStyle::MdTableCell);
        assert(line@ == table_body(t@, width as nat)[i as int]);
        out.push(line);
        i += 1;
    }
    assert(table_body(t@, width as nat).take(i as int) =~= table_body(t@, width as nat));
    let ghost r2 = rows(out@);
    if t.rows.len() > TABLE_ROWS {
        let count = dec_usize(t.rows.len() - TABLE_ROWS);
        let text = cat3("  （表格省略 ", count.as_str(), " 行）");
        let line = RenderLine::new().span(text.as_str(), SpanStyle::Dim);
        assert(line@ =~= table_rest(t@)[0]);
        out.push(line);
    }
    assert(rows(out@) =~= r2 + table_rest(t@));
    out.push(rule_line(cols, width, "└", "┴", "┘"));
    assert(rows(out@) =~= table_rows(t@, width as nat));
    out
}

} // verus!
