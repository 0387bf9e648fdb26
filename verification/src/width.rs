//! Display width of characters and strings, as the terminal lays them out.

use vstd::prelude::*;

verus! {

/// What `UnicodeWidthChar::width` returns for `c`.
pub uninterp spec fn char_columns(c: char) -> Option<nat>;

/// What `UnicodeWidthStr::width` returns for `s`.
pub uninterp spec fn text_columns(s: Seq<char>) -> nat;

/// `unicode_width::UnicodeWidthChar::width`: a function of the character. It
/// is `None` exactly for control characters and at most 3; the printable ASCII
/// characters and the left half block are one column wide.
#[verifier::external_body]
fn unicode_char_width(c: char) -> (r: Option<usize>)
    ensures
        match r {
            Some(w) => char_columns(c) == Some(w as nat) && w <= 3,
            None => char_columns(c) == None::<nat>,
        },
        (r is None) == (c < ' ' || ('\u{7f}' <= c < '\u{a0}')),
        ' ' <= c <= '~' || c == '▌' ==> r == Some(1usize),
{
    unicode_width::UnicodeWidthChar::width(c)
}

/// `unicode_width::UnicodeWidthStr::width`: a function of the string's
/// characters. It is summed from the end, and a left half block there joins
/// with nothing: it adds one column to what stands before it.
#[verifier::external_body]
pub(crate) fn str_width(s: &str) -> (r: usize)
    ensures
        r == text_columns(s@),
        s@.len() > 0 && s@.last() == '▌' ==> r == text_columns(s@.drop_last()) + 1,
{
    unicode_width::UnicodeWidthStr::width(s)
}

/// Columns of one character; control characters take none.
pub open spec fn cw(c: char) -> nat {
    match char_columns(c) {
        Some(w) => w,
        None => 0,
    }
}

/// Columns of a sequence of characters, one by one.
pub open spec fn columns(s: Seq<char>) -> nat
    decreases s.len(),
{
    if s.len() == 0 {
        0
    } else {
        columns(s.drop_last()) + cw(s.last())
    }
}

/// Columns of one character; control characters take none.
pub fn char_width(c: char) -> (r: usize)
    ensures
        r == cw(c),
        r <= 3,
        ' ' <= c <= '~' || c == '▌' ==> r == 1,
        c < ' ' || ('\u{7f}' <= c < '\u{a0}') ==> r == 0,
{
    match unicode_char_width(c) {
        Some(w) => w,
        None => 0,
    }
}

/// Columns of a concatenation.
pub proof fn lemma_columns_add(a: Seq<char>, b: Seq<char>)
    ensures
        columns(a + b) == columns(a) + columns(b),
    decreases b.len(),
{
    if b.len() == 0 {
        assert(a + b =~= a);
    } else {
        assert((a + b).drop_last() =~= a + b.drop_last());
        lemma_columns_add(a, b.drop_last());
    }
}

/// Columns of a sequence with one more character.
pub proof fn lemma_columns_push(a: Seq<char>, c: char)
    ensures
        columns(a.push(c)) == columns(a) + cw(c),
{
    assert(a.push(c).drop_last() =~= a);
}

/// Columns of a part are no more than those of the whole.
pub proof fn lemma_columns_split(s: Seq<char>, k: int)
    requires
        0 <= k <= s.len(),
    ensures
        columns(s) == columns(s.take(k)) + columns(s.skip(k)),
{
    assert(s =~= s.take(k) + s.skip(k));
    lemma_columns_add(s.take(k), s.skip(k));
}

/// Columns of `chars[from..to]`.
pub fn range_width(chars: &Vec<char>, from: usize, to: usize) -> (w: u128)
    requires
        from <= to <= chars@.len(),
    ensures
        w == columns(chars@.subrange(from as int, to as int)),
{
    let mut w: u128 = 0;
    let mut i: usize = from;
    assert(chars@.subrange(from as int, from as int) =~= Seq::empty());
    while i < to
        invariant
            from <= i <= to <= chars@.len(),
            w == columns(chars@.subrange(from as int, i as int)),
            w <= 3 * (i - from),
        decreases to - i,
    {
        proof {
            assert(chars@.subrange(from as int, i + 1) =~= chars@.subrange(
                from as int,
                i as int,
            ).push(chars@[i as int]));
            lemma_columns_push(chars@.subrange(from as int, i as int), chars@[i as int]);
        }
        w = w + char_width(chars[i]) as u128;
        i += 1;
    }
    w
}

} // verus!
