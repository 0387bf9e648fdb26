//! Unified diffs as styled lines: one column with line numbers, or old and new
//! side by side where there is room.

use crate::render_line::{
    extend_rows, lemma_rows_add, lemma_rows_push, rows, sp, RenderLine, SpanStyle, SpanView,
};
use crate::text::{
    blank, cat2, cat3, chars_of, dec, dec_u64, dec_usize, find_from, has_prefix, is_blank,
    is_white_space, lines, lines_of, repeat_char, repeated, starts_with, string_of, texts, trim,
    trim_start, trimmed, truncate_str, truncated, upto, white_space,
};
use vstd::prelude::*;

verus! {

broadcast use {lemma_rows_push, lemma_rows_add};

/// `s` filled up with spaces on the left to `w` characters.
pub open spec fn pad_left(s: Seq<char>, w: nat) -> Seq<char> {
    if s.len() >= w {
        s
    } else {
        repeated(' ', (w - s.len()) as nat) + s
    }
}

/// `s` filled up with spaces on the right to `w` characters.
pub open spec fn pad_right(s: Seq<char>, w: nat) -> Seq<char> {
    if s.len() >= w {
        s
    } else {
        s + repeated(' ', (w - s.len()) as nat)
    }
}

/// `s` filled up with spaces on the right to `w` characters.
pub fn padded_right(s: &str, w: usize) -> (r: String)
    ensures
        r@ == pad_right(s@, w as nat),
{
    let n: usize = chars_of(s).len();
    if n >= w {
        s.to_owned()
    } else {
        let fill = repeat_char(' ', w - n);
        cat2(s, fill.as_str())
    }
}

/// A line number, right-aligned in `w` characters.
pub fn fmt_ln(n: u32, w: usize) -> (r: String)
    ensures
        r@ == pad_left(dec(n as nat), w as nat),
{
    let digits = dec_u64(n as u64);
    let len: usize = chars_of(digits.as_str()).len();
    if len >= w {
        digits
    } else {
        let fill = repeat_char(' ', w - len);
        cat2(fill.as_str(), digits.as_str())
    }
}

/// `s` without its leading run of `c`.
pub open spec fn strip_leading(s: Seq<char>, c: char) -> Seq<char>
    decreases s.len(),
{
    if s.len() > 0 && s[0] == c {
        strip_leading(s.drop_first(), c)
    } else {
        s
    }
}

/// Length of the leading run that holds no white space.
pub open spec fn word_len(s: Seq<char>) -> nat
    decreases s.len(),
{
    if s.len() > 0 && !white_space(s[0]) {
        1 + word_len(s.drop_first())
    } else {
        0
    }
}

/// The first word of `s` and what follows it.
pub open spec fn next_word(s: Seq<char>) -> (Seq<char>, Seq<char>) {
    let t = trim_start(s);
    (t.take(word_len(t) as int), t.skip(word_len(t) as int))
}

/// The value of a decimal digit.
pub open spec fn digit_value(c: char) -> Option<nat> {
    if '0' <= c <= '9' {
        Some((c as nat - '0' as nat) as nat)
    } else {
        None
    }
}

/// The value of a run of decimal digits.
pub open spec fn digits_value(s: Seq<char>) -> Option<nat>
    decreases s.len(),
{
    if s.len() == 0 {
        Some(0)
    } else {
        match (digits_value(s.drop_last()), digit_value(s.last())) {
            (Some(v), Some(d)) => Some(10 * v + d),
            _ => None,
        }
    }
}

/// The number that `s` writes: digits, after at most one plus sign, within `u32`.
pub open spec fn number(s: Seq<char>) -> Option<u32> {
    let digits = if s.len() > 1 && s[0] == '+' {
        s.skip(1)
    } else {
        s
    };
    match digits_value(digits) {
        Some(v) => if digits.len() > 0 && v <= u32::MAX {
            Some(v as u32)
        } else {
            None
        },
        None => None,
    }
}

/// The line numbers that a hunk header `@@ -a,b +c,d @@` starts at.
pub open spec fn hunk_start(header: Seq<char>) -> Option<(u32, u32)> {
    let h = trim(header);
    let (a, rest) = next_word(trim(strip_leading(h, '@')));
    let (b, _) = next_word(rest);
    let old_side = strip_leading(a, '-');
    let new_side = strip_leading(b, '+');
    if !starts_with(h, "@@"@) || a.len() == 0 || b.len() == 0 {
        None
    } else {
        match (
            number(old_side.take(upto(old_side, ',') as int)),
            number(new_side.take(upto(new_side, ',') as int)),
        ) {
            (Some(o), Some(n)) => Some((o, n)),
            _ => None,
        }
    }
}

fn without_leading(s: &str, c: char) -> (r: String)
    ensures
        r@ == strip_leading(s@, c),
{
    let chars = chars_of(s);
    let mut i: usize = 0;
    assert(chars@.skip(0) =~= chars@);
    while i < chars.len() && chars[i] == c
        invariant
            i <= chars@.len(),
            chars@ == s@,
            strip_leading(chars@.skip(i as int), c) == strip_leading(s@, c),
        decreases chars@.len() - i,
    {
        proof {
            assert(chars@.skip(i as int).drop_first() =~= chars@.skip(i + 1));
        }
        i += 1;
    }
    let r = string_of(&chars, i, chars.len());
    assert(r@ =~= chars@.skip(i as int));
    r
}

fn first_word(s: &str) -> (r: (String, String))
    ensures
        (r.0@, r.1@) == next_word(s@),
{
    let chars = chars_of(s);
    let mut from: usize = 0;
    assert(chars@.skip(0) =~= chars@);
    while from < chars.len() && is_white_space(chars[from])
        invariant
            from <= chars@.len(),
            chars@ == s@,
            trim_start(chars@.skip(from as int)) == trim_start(s@),
        decreases chars@.len() - from,
    {
        proof {
            assert(chars@.skip(from as int).drop_first() =~= chars@.skip(from + 1));
        }
        from += 1;
    }
    let ghost t = chars@.skip(from as int);
    assert(t == trim_start(s@));
    let mut to: usize = from;
    assert(t.skip(0) =~= t);
    while to < chars.len() && !is_white_space(chars[to])
        invariant
            from <= to <= chars@.len(),
            t == chars@.skip(from as int),
            to - from + word_len(t.skip(to - from)) == word_len(t),
        decreases chars@.len() - to,
    {
        proof {
            assert(t.skip(to - from)[0] == chars@[to as int]);
            assert(t.skip(to - from).drop_first() =~= t.skip(to - from + 1));
        }
        to += 1;
    }
    proof {
        if to < chars@.len() {
            assert(t.skip(to - from)[0] == chars@[to as int]);
        }
        assert(word_len(t) == to - from);
    }
    let word = string_of(&chars, from, to);
    let rest = string_of(&chars, to, chars.len());
    assert(word@ =~= t.take(to - from));
    assert(rest@ =~= t.skip(to - from));
    (word, rest)
}

fn before(s: &str, c: char) -> (r: String)
    ensures
        r@ == s@.take(upto(s@, c) as int),
{
    let chars = chars_of(s);
    let k = find_from(&chars, 0, c);
    assert(chars@.skip(0) =~= chars@);
    let r = string_of(&chars, 0, k);
    assert(r@ =~= s@.take(k as int));
    r
}

fn char_digit(c: char) -> (d: Option<u64>)
    ensures
        match d {
            Some(v) => digit_value(c) == Some(v as nat) && v <= 9,
            None => digit_value(c) is None,
        },
{
    if '0' <= c && c <= '9' {
        Some(c as u64 - '0' as u64)
    } else {
        None
    }
}

proof fn lemma_digits_prefix(s: Seq<char>, k: int)
    requires
        0 <= k <= s.len(),
        digits_value(s) is Some,
    ensures
        digits_value(s.take(k)) is Some,
        digits_value(s.take(k))->0 <= digits_value(s)->0,
    decreases s.len() - k,
{
    if k < s.len() {
        lemma_digits_prefix(s, k + 1);
        assert(s.take(k + 1).drop_last() =~= s.take(k));
    } else {
        assert(s.take(k) =~= s);
    }
}

fn parse_u32(s: &str) -> (r: Option<u32>)
    ensures
        r == number(s@),
{
    let chars = chars_of(s);
    let mut i: usize = 0;
    if chars.len() > 1 && chars[0] == '+' {
        i = 1;
    }
    let start: usize = i;
    let ghost digits = s@.skip(start as int);
    proof {
        if start == 0 {
            assert(digits =~= s@);
        }
        assert(digits.take(0) =~= Seq::empty());
    }
    if start == chars.len() {
        return None;
    }
    let mut v: u64 = 0;
    while i < chars.len()
        invariant
            start <= i <= chars@.len(),
            chars@ == s@,
            digits == s@.skip(start as int),
            digits_value(digits.take(i - start)) == Some(v as nat),
            v <= u32::MAX,
            start < chars@.len(),
            number(s@) == (match digits_value(digits) {
                Some(x) => if x <= u32::MAX {
                    Some(x as u32)
                } else {
                    None
                },
                None => None,
            }),
        decreases chars@.len() - i,
    {
        proof {
            assert(digits.take(i - start + 1).drop_last() =~= digits.take(i - start));
            assert(digits.take(i - start + 1).last() == chars@[i as int]);
            if digits_value(digits) is Some {
                lemma_digits_prefix(digits, i - start + 1);
            }
        }
        match char_digit(chars[i]) {
            Some(d) => {
                v = 10 * v + d;
                if v > u32::MAX as u64 {
                    return None;
                }
            },
            None => {
                return None;
            },
        }
        i += 1;
    }
    assert(digits.take(i - start) =~= digits);
    Some(v as u32)
}

/// The line numbers that a hunk header `@@ -a,b +c,d @@` starts at.
pub fn parse_hunk_header(header: &str) -> (r: Option<(u32, u32)>)
    ensures
        r == hunk_start(header@),
{
    let h = trimmed(header);
    if !has_prefix(h.as_str(), "@@") {
        return None;
    }
    let inner = trimmed(without_leading(h.as_str(), '@').as_str());
    let (a, rest) = first_word(inner.as_str());
    let (b, _tail) = first_word(rest.as_str());
    if a.as_str().is_empty() || b.as_str().is_empty() {
        return None;
    }
    let o = parse_u32(before(without_leading(a.as_str(), '-').as_str(), ',').as_str());
    let n = parse_u32(before(without_leading(b.as_str(), '+').as_str(), ',').as_str());
    match (o, n) {
        (Some(o), Some(n)) => Some((o, n)),
        _ => None,
    }
}

/// At most this many diff lines are shown.
pub const DIFF_ROWS: usize = 60;

/// Beyond this many lines a diff says how many it does not show.
pub const DIFF_LINES: usize = 80;

/// The next line number.
pub open spec fn next_ln(n: u32) -> u32 {
    if n == u32::MAX {
        0
    } else {
        (n + 1) as u32
    }
}

fn after_ln(n: u32) -> (r: u32)
    ensures
        r == next_ln(n),
{
    if n == u32::MAX {
        0
    } else {
        n + 1
    }
}

/// The left edge of a card line.
pub open spec fn edge(is_block: bool) -> Seq<char> {
    if is_block {
        " ┃ "@
    } else {
        "    "@
    }
}

/// The left edge of a card line.
pub fn edge_text(is_block: bool) -> (r: &'static str)
    ensures
        r@ == edge(is_block),
{
    if is_block {
        " ┃ "
    } else {
        "    "
    }
}

/// A file header line of a diff.
pub open spec fn file_header(raw: Seq<char>) -> bool {
    starts_with(raw, "---"@) || starts_with(raw, "+++"@)
}

fn is_file_header(raw: &str) -> (r: bool)
    ensures
        r == file_header(raw@),
{
    has_prefix(raw, "---") || has_prefix(raw, "+++")
}

/// Whether `s` begins with the character `c`.
pub open spec fn headed(s: Seq<char>, c: char) -> bool {
    s.len() > 0 && s[0] == c
}

/// What follows the character `c` that `s` begins with.
fn after_head(s: &str, c: char) -> (r: Option<String>)
    ensures
        match r {
            Some(t) => headed(s@, c) && t@ == s@.skip(1),
            None => !headed(s@, c),
        },
{
    let chars = chars_of(s);
    if chars.len() > 0 && chars[0] == c {
        let t = string_of(&chars, 1, chars.len());
        assert(t@ =~= s@.skip(1));
        Some(t)
    } else {
        None
    }
}

/// A context line without its leading space.
pub open spec fn context_text(raw: Seq<char>) -> Seq<char> {
    if headed(raw, ' ') {
        raw.skip(1)
    } else {
        raw
    }
}

fn context_of(raw: &str) -> (r: String)
    ensures
        r@ == context_text(raw@),
{
    match after_head(raw, ' ') {
        Some(t) => t,
        None => raw.to_owned(),
    }
}

/// A diff line shown as it is.
pub open spec fn raw_row(raw: Seq<char>, is_block: bool) -> Seq<SpanView> {
    seq![sp(edge(is_block), SpanStyle::Dim), sp(raw, SpanStyle::Dim)]
}

/// A numbered diff line: edge, line number, marker, cut text.
pub open spec fn numbered_row(
    is_block: bool,
    ln: u32,
    mark: Seq<char>,
    text: Seq<char>,
    width: nat,
    style: SpanStyle,
) -> Seq<SpanView> {
    seq![
        sp(edge(is_block), SpanStyle::Dim),
        sp(pad_left(dec(ln as nat), 3), SpanStyle::Dim),
        sp(mark, style),
        sp(truncated(text, less(width, 10)), style),
    ]
}

/// `a - b`, not below zero.
pub open spec fn less(a: nat, b: nat) -> nat {
    if a >= b {
        (a - b) as nat
    } else {
        0
    }
}

/// One line of a one-column diff: what it shows and the line numbers after it.
pub open spec fn unified_line(
    raw: Seq<char>,
    old_ln: u32,
    new_ln: u32,
    is_block: bool,
    width: nat,
) -> (Seq<Seq<SpanView>>, u32, u32) {
    if file_header(raw) {
        (seq![raw_row(raw, is_block)], old_ln, new_ln)
    } else if starts_with(raw, "@@"@) {
        let (o, n) = match hunk_start(raw) {
            Some(p) => p,
            None => (old_ln, new_ln),
        };
        (seq![raw_row(raw, is_block)], o, n)
    } else if headed(raw, '+') {
        (
            seq![numbered_row(is_block, new_ln, " +"@, raw.skip(1), width, SpanStyle::DiffAdd)],
            old_ln,
            next_ln(new_ln),
        )
    } else if headed(raw, '-') {
        (
            seq![numbered_row(is_block, old_ln, " -"@, raw.skip(1), width, SpanStyle::DiffDel)],
            next_ln(old_ln),
            new_ln,
        )
    } else if !blank(raw) {
        (
            seq![numbered_row(is_block, new_ln, "  "@, context_text(raw), width, SpanStyle::Dim)],
            next_ln(old_ln),
            next_ln(new_ln),
        )
    } else {
        (Seq::empty(), next_ln(old_ln), next_ln(new_ln))
    }
}

/// A one-column diff.
pub open spec fn unified_rows(
    ls: Seq<Seq<char>>,
    old_ln: u32,
    new_ln: u32,
    is_block: bool,
    width: nat,
) -> Seq<Seq<SpanView>>
    decreases ls.len(),
{
    if ls.len() == 0 {
        Seq::empty()
    } else {
        let (head, o, n) = unified_line(ls[0], old_ln, new_ln, is_block, width);
        head + unified_rows(ls.drop_first(), o, n, is_block, width)
    }
}

fn raw_line(raw: &str, is_block: bool) -> (l: RenderLine)
    ensures
        l@ == raw_row(raw@, is_block),
{
    RenderLine::new().span(edge_text(is_block), SpanStyle::Dim).span(raw, SpanStyle::Dim)
}

fn numbered_line(is_block: bool, ln: u32, mark: &str, text: &str, width: usize, style: SpanStyle)
    -> (l: RenderLine)
    ensures
        l@ == numbered_row(is_block, ln, mark@, text@, width as nat, style),
{
    let no = fmt_ln(ln, 3);
    let seg = truncate_str(text, width.saturating_sub(10));
    RenderLine::new().span(edge_text(is_block), SpanStyle::Dim).span(
        no.as_str(),
        SpanStyle::Dim,
    ).span(mark, style).span(seg.as_str(), style)
}

/// One line of a one-column diff, pushed to `out`; the line numbers after it.
fn push_unified_line(
    out: &mut Vec<RenderLine>,
    raw: &str,
    old_ln: u32,
    new_ln: u32,
    is_block: bool,
    width: usize,
) -> (r: (u32, u32))
    ensures
        ({
            let (head, o, n) = unified_line(raw@, old_ln, new_ln, is_block, width as nat);
            &&& rows(final(out)@) == rows(old(out)@) + head
            &&& r == (o, n)
        }),
{
    let ghost before_rows = rows(out@);
    if is_file_header(raw) {
        out.push(raw_line(raw, is_block));
        assert(rows(out@) =~= before_rows + seq![raw_row(raw@, is_block)]);
        (old_ln, new_ln)
    } else if has_prefix(raw, "@@") {
        out.push(raw_line(raw, is_block));
        assert(rows(out@) =~= before_rows + seq![raw_row(raw@, is_block)]);
        match parse_hunk_header(raw) {
            Some(p) => p,
            None => (old_ln, new_ln),
        }
    } else if let Some(txt) = after_head(raw, '+') {
        out.push(numbered_line(is_block, new_ln, " +", txt.as_str(), width, SpanStyle::DiffAdd));
        assert(rows(out@) =~= before_rows + unified_line(
            raw@,
            old_ln,
            new_ln,
            is_block,
            width as nat,
        ).0);
        (old_ln, after_ln(new_ln))
    } else if let Some(txt) = after_head(raw, '-') {
        out.push(numbered_line(is_block, old_ln, " -", txt.as_str(), width, SpanStyle::DiffDel));
        assert(rows(out@) =~= before_rows + unified_line(
            raw@,
            old_ln,
            new_ln,
            is_block,
            width as nat,
        ).0);
        (after_ln(old_ln), new_ln)
    } else if !is_blank(raw) {
        let txt = context_of(raw);
        out.push(numbered_line(is_block, new_ln, "  ", txt.as_str(), width, SpanStyle::Dim));
        assert(rows(out@) =~= before_rows + unified_line(
            raw@,
            old_ln,
            new_ln,
            is_block,
            width as nat,
        ).0);
        (after_ln(old_ln), after_ln(new_ln))
    } else {
        assert(rows(out@) =~= before_rows + Seq::<Seq<SpanView>>::empty());
        (after_ln(old_ln), after_ln(new_ln))
    }
}

/// The first lines of `ls`, at most `n`.
pub open spec fn at_most(ls: Seq<Seq<char>>, n: nat) -> Seq<Seq<char>> {
    if ls.len() <= n {
        ls
    } else {
        ls.take(n as int)
    }
}

fn unified_lines(ls: &Vec<String>, is_block: bool, width: usize) -> (out: Vec<RenderLine>)
    ensures
        rows(out@) == unified_rows(at_most(texts(ls@), DIFF_ROWS as nat), 1, 1, is_block, width as nat),
{
    let mut out: Vec<RenderLine> = Vec::new();
    let n: usize = if ls.len() <= 60 {
        ls.len()
    } else {
        60
    };
    let ghost all = at_most(texts(ls@), DIFF_ROWS as nat);
    let mut pos: (u32, u32) = (1, 1);
    let mut i: usize = 0;
    assert(all.skip(0) =~= all);
    assert(rows(out@) =~= Seq::empty());
    while i < n
        invariant
            i <= n <= ls@.len(),
            n == all.len(),
            all == at_most(texts(ls@), DIFF_ROWS as nat),
            rows(out@) + unified_rows(all.skip(i as int), pos.0, pos.1, is_block, width as nat)
                =~= unified_rows(all, 1, 1, is_block, width as nat),
        decreases n - i,
    {
        proof {
            assert(all.skip(i as int)[0] == ls@[i as int]@);
            assert(all.skip(i as int).drop_first() =~= all.skip(i + 1));
        }
        pos = push_unified_line(&mut out, ls[i].as_str(), pos.0, pos.1, is_block, width);
        i += 1;
    }
    assert(all.skip(i as int) =~= Seq::empty());
    assert(rows(out@) =~= unified_rows(all, 1, 1, is_block, width as nat));
    out
}

/// A side-by-side diff in progress: removed and added lines that wait for each
/// other, how many lines are shown, and the line numbers.
#[verifier::ext_equal]
pub struct SplitModel {
    pub removed: Seq<(Seq<char>, u32)>,
    pub added: Seq<(Seq<char>, u32)>,
    pub shown: nat,
    pub old_ln: u32,
    pub new_ln: u32,
}

/// The line number column of one side; zero stands for no line.
pub open spec fn ln_cell(n: u32) -> Seq<char> {
    if n != 0 {
        pad_left(dec(n as nat), 3)
    } else {
        "   "@
    }
}

/// A side-by-side line.
pub open spec fn split_row(
    left_no: Seq<char>,
    left: Seq<char>,
    left_style: SpanStyle,
    right_no: Seq<char>,
    right: Seq<char>,
    right_style: SpanStyle,
    lw: nat,
    rw: nat,
) -> Seq<SpanView> {
    seq![
        sp(" ┃ "@, SpanStyle::Dim),
        sp(left_no, SpanStyle::Dim),
        sp(" "@, SpanStyle::Dim),
        sp(pad_right(truncated(left, lw), lw), left_style),
        sp(" │ "@, SpanStyle::Dim),
        sp(right_no, SpanStyle::Dim),
        sp(" "@, SpanStyle::Dim),
        sp(truncated(right, rw), right_style),
    ]
}

/// One side of a pair: its line number and text, or nothing.
pub open spec fn side(waiting: Seq<(Seq<char>, u32)>, i: int) -> (Seq<char>, u32) {
    if i < waiting.len() {
        waiting[i]
    } else {
        (Seq::empty(), 0)
    }
}

/// The `i`-th removed and added line side by side.
pub open spec fn pair_row(m: SplitModel, i: int, lw: nat, rw: nat) -> Seq<SpanView> {
    let (l, l_no) = side(m.removed, i);
    let (r, r_no) = side(m.added, i);
    split_row(
        ln_cell(l_no),
        l,
        if i < m.removed.len() {
            SpanStyle::DiffDel
        } else {
            SpanStyle::Dim
        },
        ln_cell(r_no),
        r,
        if i < m.added.len() {
            SpanStyle::DiffAdd
        } else {
            SpanStyle::Dim
        },
        lw,
        rw,
    )
}

/// How many pairs a flush shows.
pub open spec fn pair_count(m: SplitModel) -> nat {
    let n = if m.removed.len() >= m.added.len() {
        m.removed.len()
    } else {
        m.added.len()
    };
    if n <= less(DIFF_ROWS as nat, m.shown) {
        n
    } else {
        less(DIFF_ROWS as nat, m.shown)
    }
}

/// The waiting lines side by side.
pub open spec fn pair_rows(m: SplitModel, lw: nat, rw: nat) -> Seq<Seq<SpanView>> {
    Seq::new(pair_count(m), |i: int| pair_row(m, i, lw, rw))
}

/// Nothing waits any more.
pub open spec fn split_flushed(m: SplitModel) -> SplitModel {
    SplitModel {
        removed: Seq::empty(),
        added: Seq::empty(),
        shown: m.shown + pair_count(m),
        ..m
    }
}

/// One line of a side-by-side diff: what it shows, the state after it, and
/// whether the diff ends there.
pub open spec fn split_line(m: SplitModel, raw: Seq<char>, lw: nat, rw: nat) -> (
    Seq<Seq<SpanView>>,
    SplitModel,
    bool,
) {
    let flushed = split_flushed(m);
    if file_header(raw) {
        (pair_rows(m, lw, rw).push(raw_row(raw, true)), flushed, flushed.shown >= DIFF_ROWS)
    } else if starts_with(raw, "@@"@) {
        let (o, n) = match hunk_start(raw) {
            Some(p) => p,
            None => (m.old_ln, m.new_ln),
        };
        (
            pair_rows(m, lw, rw).push(raw_row(raw, true)),
            SplitModel { old_ln: o, new_ln: n, ..flushed },
            flushed.shown >= DIFF_ROWS,
        )
    } else if headed(raw, '-') {
        (
            Seq::empty(),
            SplitModel {
                removed: m.removed.push((raw.skip(1), m.old_ln)),
                old_ln: next_ln(m.old_ln),
                ..m
            },
            m.shown >= DIFF_ROWS,
        )
    } else if headed(raw, '+') {
        (
            Seq::empty(),
            SplitModel {
                added: m.added.push((raw.skip(1), m.new_ln)),
                new_ln: next_ln(m.new_ln),
                ..m
            },
            m.shown >= DIFF_ROWS,
        )
    } else {
        let next = SplitModel {
            old_ln: next_ln(m.old_ln),
            new_ln: next_ln(m.new_ln),
            ..flushed
        };
        if blank(raw) {
            (pair_rows(m, lw, rw), next, false)
        } else {
            let txt = context_text(raw);
            (
                pair_rows(m, lw, rw).push(
                    split_row(
                        pad_left(dec(m.old_ln as nat), 3),
                        txt,
                        SpanStyle::Dim,
                        pad_left(dec(m.new_ln as nat), 3),
                        txt,
                        SpanStyle::Dim,
                        lw,
                        rw,
                    ),
                ),
                SplitModel { shown: flushed.shown + 1, ..next },
                flushed.shown + 1 >= DIFF_ROWS,
            )
        }
    }
}

/// A side-by-side diff from state `m` on.
pub open spec fn split_rows(m: SplitModel, ls: Seq<Seq<char>>, lw: nat, rw: nat) -> Seq<
    Seq<SpanView>,
>
    decreases ls.len(),
{
    if ls.len() == 0 {
        pair_rows(m, lw, rw)
    } else {
        let (head, next, stop) = split_line(m, ls[0], lw, rw);
        if stop {
            head + pair_rows(next, lw, rw)
        } else {
            head + split_rows(next, ls.drop_first(), lw, rw)
        }
    }
}

/// The start of a side-by-side diff.
pub open spec fn split_start() -> SplitModel {
    SplitModel { removed: Seq::empty(), added: Seq::empty(), shown: 0, old_ln: 1, new_ln: 1 }
}

struct SplitState {
    removed: Vec<(String, u32)>,
    added: Vec<(String, u32)>,
    shown: usize,
    old_ln: u32,
    new_ln: u32,
}

spec fn waiting_view(v: Seq<(String, u32)>) -> Seq<(Seq<char>, u32)> {
    Seq::new(v.len(), |i: int| (v[i].0@, v[i].1))
}

impl View for SplitState {
    type V = SplitModel;

    closed spec fn view(&self) -> SplitModel {
        SplitModel {
            removed: waiting_view(self.removed@),
            added: waiting_view(self.added@),
            shown: self.shown as nat,
            old_ln: self.old_ln,
            new_ln: self.new_ln,
        }
    }
}

fn ln_text(n: u32) -> (r: String)
    ensures
        r@ == ln_cell(n),
{
    if n != 0 {
        fmt_ln(n, 3)
    } else {
        "   ".to_owned()
    }
}

fn split_text_line(
    left_no: &str,
    left: &str,
    left_style: SpanStyle,
    right_no: &str,
    right: &str,
    right_style: SpanStyle,
    lw: usize,
    rw: usize,
) -> (l: RenderLine)
    ensures
        l@ == split_row(
            left_no@,
            left@,
            left_style,
            right_no@,
            right@,
            right_style,
            lw as nat,
            rw as nat,
        ),
{
    let lt = truncate_str(left, lw);
    let lp = padded_right(lt.as_str(), lw);
    let rt = truncate_str(right, rw);
    RenderLine::new().span(" ┃ ", SpanStyle::Dim).span(left_no, SpanStyle::Dim).span(
        " ",
        SpanStyle::Dim,
    ).span(lp.as_str(), left_style).span(" │ ", SpanStyle::Dim).span(
        right_no,
        SpanStyle::Dim,
    ).span(" ", SpanStyle::Dim).span(rt.as_str(), right_style)
}

impl SplitState {
    /// Shows the waiting lines side by side.
    fn flush(&mut self, out: &mut Vec<RenderLine>, lw: usize, rw: usize)
        ensures
            rows(final(out)@) == rows(old(out)@) + pair_rows(old(self)@, lw as nat, rw as nat),
            final(self)@ == split_flushed(old(self)@),
    {
        let ghost m = self@;
        let n: usize = if self.removed.len() >= self.added.len() {
            self.removed.len()
        } else {
            self.added.len()
        };
        let room: usize = if self.shown <= 60 {
            60 - self.shown
        } else {
            0
        };
        let count: usize = if n <= room {
            n
        } else {
            room
        };
        assert(count == pair_count(m));
        let mut i: usize = 0;
        while i < count
            invariant
                i <= count,
                self@ == m,
                count == pair_count(m),
                rows(out@) =~= rows(old(out)@) + pair_rows(m, lw as nat, rw as nat).take(i as int),
            decreases count - i,
        {
            let (l_no, l_style): (u32, SpanStyle) = if i < self.removed.len() {
                (self.removed[i].1, SpanStyle::DiffDel)
            } else {
                (0, SpanStyle::Dim)
            };
            let (r_no, r_style): (u32, SpanStyle) = if i < self.added.len() {
                (self.added[i].1, SpanStyle::DiffAdd)
            } else {
                (0, SpanStyle::Dim)
            };
            let l_txt: String = if i < self.removed.len() {
                self.removed[i].0.clone()
            } else {
                String::new()
            };
            let r_txt: String = if i < self.added.len() {
                self.added[i].0.clone()
            } else {
                String::new()
            };
            let ln = ln_text(l_no);
            let rn = ln_text(r_no);
            let line = split_text_line(
                ln.as_str(),
                l_txt.as_str(),
                l_style,
                rn.as_str(),
                r_txt.as_str(),
                r_style,
                lw,
                rw,
            );
            assert(line@ == pair_row(m, i as int, lw as nat, rw as nat));
            out.push(line);
            i += 1;
        }
        assert(pair_rows(m, lw as nat, rw as nat).take(i as int) =~= pair_rows(
            m,
            lw as nat,
            rw as nat,
        ));
        self.shown = self.shown + count;
        self.removed = Vec::new();
        self.added = Vec::new();
        assert(self@ =~= split_flushed(m));
    }

    /// Reads one diff line; whether the diff ends there.
    fn line(&mut self, out: &mut Vec<RenderLine>, raw: &str, lw: usize, rw: usize) -> (stop: bool)
        requires
            old(self)@.shown <= DIFF_ROWS,
        ensures
            ({
                let (head, next, end) = split_line(old(self)@, raw@, lw as nat, rw as nat);
                &&& rows(final(out)@) == rows(old(out)@) + head
                &&& final(self)@ == next
                &&& stop == end
                &&& !stop ==> final(self)@.shown <= DIFF_ROWS
            }),
    {
        let ghost m = self@;
        let ghost shown_rows = rows(out@);
        if is_file_header(raw) {
            self.flush(out, lw, rw);
            out.push(raw_line(raw, true));
            assert(rows(out@) =~= shown_rows + split_line(m, raw@, lw as nat, rw as nat).0);
            self.shown >= 60
        } else if has_prefix(raw, "@@") {
            self.flush(out, lw, rw);
            match parse_hunk_header(raw) {
                Some(p) => {
                    self.old_ln = p.0;
                    self.new_ln = p.1;
                },
                None => {},
            }
            out.push(raw_line(raw, true));
            assert(rows(out@) =~= shown_rows + split_line(m, raw@, lw as nat, rw as nat).0);
            assert(self@ =~= split_line(m, raw@, lw as nat, rw as nat).1);
            self.shown >= 60
        } else if let Some(body) = after_head(raw, '-') {
            self.removed.push((body, self.old_ln));
            self.old_ln = after_ln(self.old_ln);
            assert(self@ =~= split_line(m, raw@, lw as nat, rw as nat).1);
            assert(rows(out@) =~= shown_rows + split_line(m, raw@, lw as nat, rw as nat).0);
            self.shown >= 60
        } else if let Some(body) = after_head(raw, '+') {
            self.added.push((body, self.new_ln));
            self.new_ln = after_ln(self.new_ln);
            assert(self@ =~= split_line(m, raw@, lw as nat, rw as nat).1);
            assert(rows(out@) =~= shown_rows + split_line(m, raw@, lw as nat, rw as nat).0);
            self.shown >= 60
        } else {
            let l_no = self.old_ln;
            let r_no = self.new_ln;
            self.flush(out, lw, rw);
            self.old_ln = after_ln(l_no);
            self.new_ln = after_ln(r_no);
            if is_blank(raw) {
                assert(self@ =~= split_line(m, raw@, lw as nat, rw as nat).1);
                return false;
            }
            let txt = context_of(raw);
            let ln = fmt_ln(l_no, 3);
            let rn = fmt_ln(r_no, 3);
            out.push(
                split_text_line(
                    ln.as_str(),
                    txt.as_str(),
                    SpanStyle::Dim,
                    rn.as_str(),
                    txt.as_str(),
                    SpanStyle::Dim,
                    lw,
                    rw,
                ),
            );
            self.shown = self.shown + 1;
            assert(rows(out@) =~= shown_rows + split_line(m, raw@, lw as nat, rw as nat).0);
            assert(self@ =~= split_line(m, raw@, lw as nat, rw as nat).1);
            self.shown >= 60
        }
    }
}

fn split_lines(ls: &Vec<String>, lw: usize, rw: usize) -> (out: Vec<RenderLine>)
    ensures
        rows(out@) == split_rows(
            split_start(),
            at_most(texts(ls@), DIFF_LINES as nat),
            lw as nat,
            rw as nat,
        ),
{
    let mut out: Vec<RenderLine> = Vec::new();
    let n: usize = if ls.len() <= 80 {
        ls.len()
    } else {
        80
    };
    let ghost all = at_most(texts(ls@), DIFF_LINES as nat);
    let ghost whole = split_rows(split_start(), all, lw as nat, rw as nat);
    let mut st = SplitState {
        removed: Vec::new(),
        added: Vec::new(),
        shown: 0,
        old_ln: 1,
        new_ln: 1,
    };
    assert(st@ =~= split_start());
    let mut i: usize = 0;
    let mut stop: bool = false;
    assert(all.skip(0) =~= all);
    assert(rows(out@) =~= Seq::empty());
    while i < n && !stop
        invariant
            i <= n <= ls@.len(),
            n == all.len(),
            all == at_most(texts(ls@), DIFF_LINES as nat),
            !stop ==> st@.shown <= DIFF_ROWS,
            rows(out@) + (if stop {
                pair_rows(st@, lw as nat, rw as nat)
            } else {
                split_rows(st@, all.skip(i as int), lw as nat, rw as nat)
            }) =~= whole,
        decreases n - i,
    {
        proof {
            assert(all.skip(i as int)[0] == ls@[i as int]@);
            assert(all.skip(i as int).drop_first() =~= all.skip(i + 1));
        }
        stop = st.line(&mut out, ls[i].as_str(), lw, rw);
        i += 1;
    }
    proof {
        if !stop {
            assert(all.skip(i as int) =~= Seq::empty());
        }
    }
    st.flush(&mut out, lw, rw);
    out
}

/// How many lines begin with `c` but not with `triple`.
pub open spec fn marked(ls: Seq<Seq<char>>, c: char, triple: Seq<char>) -> nat
    decreases ls.len(),
{
    if ls.len() == 0 {
        0
    } else {
        marked(ls.drop_last(), c, triple) + if headed(ls.last(), c) && !starts_with(
            ls.last(),
            triple,
        ) {
            1nat
        } else {
            0
        }
    }
}

fn count_marked(ls: &Vec<String>, c: char, triple: &str) -> (n: usize)
    ensures
        n == marked(texts(ls@), c, triple@),
{
    let mut n: usize = 0;
    let mut i: usize = 0;
    let ghost all = texts(ls@);
    assert(all.take(0) =~= Seq::empty());
    while i < ls.len()
        invariant
            i <= ls@.len(),
            all == texts(ls@),
            n <= i,
            n == marked(all.take(i as int), c, triple@),
        decreases ls@.len() - i,
    {
        proof {
            assert(all.take(i + 1).drop_last() =~= all.take(i as int));
            assert(all.take(i + 1).last() == ls@[i as int]@);
        }
        let head = after_head(ls[i].as_str(), c);
        if head.is_some() && !has_prefix(ls[i].as_str(), triple) {
            n += 1;
        }
        i += 1;
    }
    assert(all.take(i as int) =~= all);
    n
}

/// The line that counts what a diff adds and removes.
pub open spec fn diff_head(ls: Seq<Seq<char>>, is_block: bool, wide: bool) -> Seq<SpanView> {
    seq![
        sp(
            if is_block {
                " ┃ Δ "@
            } else {
                "    Δ "@
            },
            SpanStyle::Dim,
        ),
        sp("+"@ + dec(marked(ls, '+', "+++"@)), SpanStyle::DiffAdd),
        sp(" "@, SpanStyle::Dim),
        sp("−"@ + dec(marked(ls, '-', "---"@)), SpanStyle::DiffDel),
        sp(
            if wide {
                "  (split)"@
            } else {
                ""@
            },
            SpanStyle::Dim,
        ),
    ]
}

/// The lines of a diff.
pub open spec fn diff_body(ls: Seq<Seq<char>>, is_block: bool, wide: bool, width: nat) -> Seq<
    Seq<SpanView>,
> {
    let inner = less(width, 7);
    if wide {
        split_rows(
            split_start(),
            at_most(ls, DIFF_LINES as nat),
            less(inner / 2, 4),
            less((inner - inner / 2) as nat, 4),
        )
    } else {
        unified_rows(at_most(ls, DIFF_ROWS as nat), 1, 1, is_block, width)
    }
}

/// The line that counts what is not shown of a diff.
pub open spec fn diff_rest(ls: Seq<Seq<char>>, is_block: bool, wide: bool) -> Seq<Seq<SpanView>> {
    if ls.len() > DIFF_LINES {
        let lead = if wide {
            " ┃   … "@
        } else {
            edge(is_block) + "   … "@
        };
        let text = lead + dec((ls.len() - DIFF_LINES) as nat) + " 行未展示"@;
        seq![seq![sp(text, SpanStyle::Dim)]]
    } else {
        Seq::empty()
    }
}

/// A diff: how many lines it adds and removes, the lines themselves, and how
/// many are not shown. Old and new stand side by side in a block card wider
/// than 120 columns.
pub open spec fn diff_rows(diff: Seq<char>, is_block: bool, width: nat) -> Seq<Seq<SpanView>> {
    let ls = lines(diff);
    let wide = width > 120 && is_block;
    seq![diff_head(ls, is_block, wide)] + diff_body(ls, is_block, wide, width) + diff_rest(
        ls,
        is_block,
        wide,
    )
}

/// A diff as styled lines.
pub fn diff_lines(diff: &str, is_block: bool, width: usize) -> (out: Vec<RenderLine>)
    ensures
        rows(out@) == diff_rows(diff@, is_block, width as nat),
{
    let ls = lines_of(diff);
    let wide = width > 120 && is_block;
    let plus = dec_usize(count_marked(&ls, '+', "+++"));
    let minus = dec_usize(count_marked(&ls, '-', "---"));
    let plus_text = cat2("+", plus.as_str());
    let minus_text = cat2("−", minus.as_str());
    let head = RenderLine::new().span(
        if is_block {
            " ┃ Δ "
        } else {
            "    Δ "
        },
        SpanStyle::Dim,
    ).span(plus_text.as_str(), SpanStyle::DiffAdd).span(" ", SpanStyle::Dim).span(
        minus_text.as_str(),
        SpanStyle::DiffDel,
    ).span(
        if wide {
            "  (split)"
        } else {
            ""
        },
        SpanStyle::Dim,
    );
    let mut out: Vec<RenderLine> = Vec::new();
    assert(rows(out@) =~= Seq::empty());
    let ghost all = lines(diff@);
    assert(head@ == diff_head(all, is_block, wide));
    out.push(head);
    assert(rows(out@) =~= seq![diff_head(all, is_block, wide)]);
    if wide {
        let inner = width.saturating_sub(7);
        let left = inner / 2;
        let right = inner - left;
        let body = split_lines(&ls, left.saturating_sub(4), right.saturating_sub(4));
        extend_rows(&mut out, body);
    } else {
        let body = unified_lines(&ls, is_block, width);
        extend_rows(&mut out, body);
    }
    let ghost body_rows = rows(out@);
    assert(body_rows == seq![diff_head(all, is_block, wide)] + diff_body(
        all,
        is_block,
        wide,
        width as nat,
    ));
    if ls.len() > 80 {
        let n = dec_usize(ls.len() - 80);
        let lead = if wide {
            " ┃   … ".to_owned()
        } else {
            cat2(edge_text(is_block), "   … ")
        };
        let text = cat3(lead.as_str(), n.as_str(), " 行未展示");
        out.push(RenderLine::new().span(text.as_str(), SpanStyle::Dim));
        assert(rows(out@) =~= body_rows + diff_rest(all, is_block, wide));
    }
    assert(rows(out@) =~= diff_rows(diff@, is_block, width as nat));
    out
}

} // verus!
