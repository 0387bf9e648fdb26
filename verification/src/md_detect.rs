//! A cheap test whether a text is worth a Markdown parser.

use crate::text::{
    blank, chars_of, contains_str, has_prefix, is_blank, lines, lines_of, occurs, starts_with,
    string_of, texts, trim_start, trimmed_start,
};
use vstd::prelude::*;

verus! {

/// What `char::is_alphanumeric` says of `c`.
pub uninterp spec fn alphanumeric(c: char) -> bool;

/// `char::is_alphanumeric`: a property of the character; of ASCII, the letters
/// and digits have it.
#[verifier::external_body]
fn is_alphanumeric(c: char) -> (r: bool)
    ensures
        r == alphanumeric(c),
        c <= '\u{7f}' ==> r == (('0' <= c <= '9') || ('A' <= c <= 'Z') || ('a' <= c <= 'z')),
{
    c.is_alphanumeric()
}

/// A letter or digit; of ASCII, those and no others.
pub open spec fn letter_or_digit(c: char) -> bool {
    if c <= '\u{7f}' {
        ('0' <= c <= '9') || ('A' <= c <= 'Z') || ('a' <= c <= 'z')
    } else {
        alphanumeric(c)
    }
}

/// A character of a word.
pub open spec fn word_char(c: char) -> bool {
    letter_or_digit(c) || c == '_'
}

fn is_word_char(c: char) -> (r: bool)
    ensures
        r == word_char(c),
{
    c == '_' || is_alphanumeric(c)
}

/// A delimiter that stands alone: its neighbours are different characters.
pub open spec fn lone(s: Seq<char>, i: int) -> bool {
    !(i + 1 < s.len() && s[i + 1] == s[i]) && !(i > 0 && s[i - 1] == s[i])
}

/// What a possible closing delimiter decides for the opening one at `i`.
pub enum Closing {
    /// It closes nothing; the search goes on.
    Skip,
    /// It ends the search without emphasis.
    Stop,
    /// It closes an emphasis.
    Close,
}

/// A space that may not touch the inside of a delimiter.
pub open spec fn gap(c: char) -> bool {
    c == ' ' || c == '\n' || c == '\r' || c == '\t'
}

/// What the character at `j` decides for the opening delimiter at `i`.
pub open spec fn closing(s: Seq<char>, i: int, j: int) -> Closing {
    if s[j] != s[i] || !lone(s, j) {
        Closing::Skip
    } else if j - i - 1 == 0 || blank(s.subrange(i + 1, j)) || gap(s[i + 1]) || gap(s[j - 1]) {
        Closing::Stop
    } else if s[i] == '_' && i > 0 && j + 1 < s.len() && word_char(s[i - 1]) && word_char(s[j + 1]) {
        Closing::Skip
    } else {
        Closing::Close
    }
}

/// Whether the delimiter at `i` is closed by one from `j` on.
pub open spec fn closed_from(s: Seq<char>, i: int, j: int) -> bool
    decreases s.len() - j,
{
    if j >= s.len() {
        false
    } else {
        match closing(s, i, j) {
            Closing::Skip => closed_from(s, i, j + 1),
            Closing::Stop => false,
            Closing::Close => true,
        }
    }
}

/// Whether an emphasis of one asterisk or underscore opens at `i`.
pub open spec fn emphasis_at(s: Seq<char>, i: int) -> bool {
    (s[i] == '*' || s[i] == '_') && lone(s, i) && closed_from(s, i, i + 1)
}

/// Whether a text holds an emphasis of one asterisk or underscore.
pub open spec fn single_emphasis(s: Seq<char>) -> bool {
    exists|i: int| 0 <= i < s.len() && #[trigger] emphasis_at(s, i)
}

fn is_lone(s: &Vec<char>, i: usize) -> (r: bool)
    requires
        i < s@.len(),
    ensures
        r == lone(s@, i as int),
{
    let doubled = i < s.len() - 1 && s[i + 1] == s[i];
    let again = i > 0 && s[i - 1] == s[i];
    !doubled && !again
}

fn blank_range(s: &Vec<char>, from: usize, to: usize) -> (r: bool)
    requires
        from <= to <= s@.len(),
    ensures
        r == blank(s@.subrange(from as int, to as int)),
{
    let part = string_of(s, from, to);
    is_blank(part.as_str())
}

fn is_gap(c: char) -> (r: bool)
    ensures
        r == gap(c),
{
    c == ' ' || c == '\n' || c == '\r' || c == '\t'
}

fn closing_at(s: &Vec<char>, i: usize, j: usize) -> (r: Closing)
    requires
        i < j < s@.len(),
    ensures
        r == closing(s@, i as int, j as int),
{
    if s[j] != s[i] || !is_lone(s, j) {
        return Closing::Skip;
    }
    if j - i - 1 == 0 || blank_range(s, i + 1, j) || is_gap(s[i + 1]) || is_gap(s[j - 1]) {
        return Closing::Stop;
    }
    if s[i] == '_' && i > 0 && j < s.len() - 1 && is_word_char(s[i - 1]) && is_word_char(s[j + 1]) {
        return Closing::Skip;
    }
    Closing::Close
}

fn is_closed(s: &Vec<char>, i: usize) -> (r: bool)
    requires
        i < s@.len(),
    ensures
        r == closed_from(s@, i as int, i + 1),
{
    let n: usize = s.len();
    assert(i < n);
    let mut j: usize = i + 1;
    while j < n
        invariant
            n == s@.len(),
            i < j <= s@.len(),
            closed_from(s@, i as int, j as int) == closed_from(s@, i as int, i + 1),
        decreases s@.len() - j,
    {
        match closing_at(s, i, j) {
            Closing::Skip => {},
            Closing::Stop => {
                return false;
            },
            Closing::Close => {
                return true;
            },
        }
        j += 1;
    }
    false
}

/// Whether a text holds an emphasis of one asterisk or underscore.
pub fn has_single_emphasis(text: &str) -> (r: bool)
    ensures
        r == single_emphasis(text@),
{
    let s = chars_of(text);
    let mut i: usize = 0;
    while i < s.len()
        invariant
            i <= s@.len(),
            s@ == text@,
            forall|k: int| 0 <= k < i ==> !#[trigger] emphasis_at(s@, k),
        decreases s@.len() - i,
    {
        let c = s[i];
        if (c == '*' || c == '_') && is_lone(&s, i) && is_closed(&s, i) {
            assert(emphasis_at(text@, i as int));
            return true;
        }
        i += 1;
    }
    false
}

proof fn lemma_word_is_open(s: Seq<char>, i: int, j: int)
    requires
        forall|k: int| 0 <= k < s.len() ==> word_char(#[trigger] s[k]),
        s[0] != '_',
        s.last() != '_',
        0 < i < j <= s.len(),
        s[i] == '_',
    ensures
        !closed_from(s, i, j),
    decreases s.len() - j,
{
    if j < s.len() {
        if s[j] == '_' {
            assert(word_char(s[i - 1]) && word_char(s[j + 1]));
        }
        lemma_word_is_open(s, i, j + 1);
    }
}

/// Underscores within a word are no emphasis.
pub proof fn law_words_hold_no_emphasis(s: Seq<char>)
    requires
        s.len() > 0,
        forall|k: int| 0 <= k < s.len() ==> word_char(#[trigger] s[k]),
        s[0] != '_',
        s.last() != '_',
    ensures
        !single_emphasis(s),
{
    assert forall|i: int| 0 <= i < s.len() implies !#[trigger] emphasis_at(s, i) by {
        assert(word_char(s[i]));
        if s[i] == '_' {
            lemma_word_is_open(s, i, i + 1);
        }
    }
}

/// How often `c` occurs.
pub open spec fn count(s: Seq<char>, c: char) -> nat
    decreases s.len(),
{
    if s.len() == 0 {
        0
    } else {
        count(s.drop_last(), c) + if s.last() == c {
            1nat
        } else {
            0
        }
    }
}

fn count_of(text: &str, c: char) -> (n: usize)
    ensures
        n == count(text@, c),
{
    let s = chars_of(text);
    let mut n: usize = 0;
    let mut i: usize = 0;
    assert(s@.take(0) =~= Seq::empty());
    while i < s.len()
        invariant
            i <= s@.len(),
            s@ == text@,
            n <= i,
            n == count(s@.take(i as int), c),
        decreases s@.len() - i,
    {
        proof {
            assert(s@.take(i + 1).drop_last() =~= s@.take(i as int));
        }
        if s[i] == c {
            n += 1;
        }
        i += 1;
    }
    assert(s@.take(i as int) =~= s@);
    n
}

/// Whether a line begins a heading, list item, quotation or rule.
pub open spec fn block_mark(line: Seq<char>) -> bool {
    let t = trim_start(line);
    ||| starts_with(t, "# "@)
    ||| starts_with(t, "## "@)
    ||| starts_with(t, "### "@)
    ||| starts_with(t, "- "@)
    ||| starts_with(t, "* "@)
    ||| starts_with(t, "1. "@)
    ||| starts_with(t, "> "@)
    ||| starts_with(t, "---"@)
    ||| starts_with(t, "***"@)
}

/// Whether some line begins a block.
pub open spec fn any_block_mark(ls: Seq<Seq<char>>) -> bool {
    exists|i: int| 0 <= i < ls.len() && block_mark(#[trigger] ls[i])
}

/// Whether a text holds a mark of Markdown: code, emphasis, strikethrough, a
/// table, a block or a link.
pub open spec fn markdown(s: Seq<char>) -> bool {
    ||| occurs(s, "`"@)
    ||| occurs(s, "**"@)
    ||| occurs(s, "__"@)
    ||| occurs(s, "~~"@)
    ||| (occurs(s, "|"@) && occurs(s, "---"@))
    ||| count(s, '|') >= 3
    ||| any_block_mark(lines(s))
    ||| (occurs(s, "["@) && occurs(s, "]("@))
    ||| single_emphasis(s)
}

fn is_block_mark(line: &str) -> (r: bool)
    ensures
        r == block_mark(line@),
{
    let trimmed = trimmed_start(line);
    let t = trimmed.as_str();
    has_prefix(t, "# ") || has_prefix(t, "## ") || has_prefix(t, "### ") || has_prefix(t, "- ")
        || has_prefix(t, "* ") || has_prefix(t, "1. ") || has_prefix(t, "> ") || has_prefix(
        t,
        "---",
    ) || has_prefix(t, "***")
}

fn has_block_mark(text: &str) -> (r: bool)
    ensures
        r == any_block_mark(lines(text@)),
{
    let ls = lines_of(text);
    let mut i: usize = 0;
    while i < ls.len()
        invariant
            i <= ls@.len(),
            texts(ls@) == lines(text@),
            forall|k: int| 0 <= k < i ==> !block_mark(#[trigger] lines(text@)[k]),
        decreases ls@.len() - i,
    {
        assert(lines(text@)[i as int] == ls@[i as int]@);
        if is_block_mark(ls[i].as_str()) {
            return true;
        }
        i += 1;
    }
    assert(lines(text@).len() == ls@.len());
    false
}

/// Whether a text holds a mark of Markdown.
pub fn is_markdown(text: &str) -> (r: bool)
    ensures
        r == markdown(text@),
{
    contains_str(text, "`") || contains_str(text, "**") || contains_str(text, "__")
        || contains_str(text, "~~") || (contains_str(text, "|") && contains_str(text, "---"))
        || count_of(text, '|') >= 3 || has_block_mark(text) || (contains_str(text, "[")
        && contains_str(text, "](")) || has_single_emphasis(text)
}

} // verus!
