//! Character sequences: the string operations the rest of the crate is
//! specified with, and executable versions of them.

use vstd::prelude::*;
use vstd::utf8::{encode_utf8, encode_utf8_decode_utf8};

verus! {

/// `String::push` appends one character.
pub assume_specification[ String::push ](s: &mut String, ch: char)
    ensures
        final(s)@ == old(s)@.push(ch),
;

/// `String::push_str` appends all characters of the argument.
pub assume_specification[ String::push_str ](s: &mut String, string: &str)
    ensures
        final(s)@ == old(s)@ + string@,
;

/// The views of a sequence of strings.
pub open spec fn texts(v: Seq<String>) -> Seq<Seq<char>> {
    Seq::new(v.len(), |i: int| v[i]@)
}

/// Pushing a string pushes its view.
pub broadcast proof fn lemma_texts_push(v: Seq<String>, s: String)
    ensures
        #[trigger] texts(v.push(s)) == texts(v).push(s@),
{
    assert(texts(v.push(s)) =~= texts(v).push(s@));
}

/// What an optional string holds.
pub open spec fn opt_text(o: Option<String>) -> Option<Seq<char>> {
    match o {
        Some(s) => Some(s@),
        None => None,
    }
}

/// The characters of `s`, in order.
pub fn chars_of(s: &str) -> (out: Vec<char>)
    ensures
        out@ == s@,
{
    let mut out: Vec<char> = Vec::new();
    for c in it: s.chars()
        invariant
            out@ == it.seq().take(it.index() as int),
    {
        out.push(c);
        proof {
            assert(out@ =~= it.seq().take(it.index() + 1));
        }
    }
    out
}

/// The string made of `chars[from..to]`.
pub fn string_of(chars: &Vec<char>, from: usize, to: usize) -> (s: String)
    requires
        from <= to <= chars@.len(),
    ensures
        s@ == chars@.subrange(from as int, to as int),
{
    let mut s = String::new();
    let mut i: usize = from;
    while i < to
        invariant
            from <= i <= to <= chars@.len(),
            s@ == chars@.subrange(from as int, i as int),
        decreases to - i,
    {
        s.push(chars[i]);
        i += 1;
        assert(s@ =~= chars@.subrange(from as int, i as int));
    }
    s
}

/// Whether two strings hold the same characters.
pub fn str_eq(a: &str, b: &str) -> (r: bool)
    ensures
        r == (a@ == b@),
{
    let x = a.as_bytes();
    let y = b.as_bytes();
    let n: usize = x.len();
    proof {
        encode_utf8_decode_utf8(a@);
        encode_utf8_decode_utf8(b@);
    }
    if n != y.len() {
        return false;
    }
    let mut i: usize = 0;
    while i < n
        invariant
            i <= n,
            x@.len() == n,
            y@.len() == n,
            x@ == encode_utf8(a@),
            y@ == encode_utf8(b@),
            forall|j: int| 0 <= j < i ==> x@[j] == y@[j],
        decreases n - i,
    {
        if x[i] != y[i] {
            return false;
        }
        i += 1;
    }
    assert(x@ =~= y@);
    true
}

/// Concatenation of two strings.
pub fn cat2(a: &str, b: &str) -> (r: String)
    ensures
        r@ == a@ + b@,
{
    let mut s = a.to_owned();
    s.push_str(b);
    s
}

/// Concatenation of three strings.
pub fn cat3(a: &str, b: &str, c: &str) -> (r: String)
    ensures
        r@ == a@ + b@ + c@,
{
    let mut s = cat2(a, b);
    s.push_str(c);
    s
}

/// Concatenation of four strings.
pub fn cat4(a: &str, b: &str, c: &str, d: &str) -> (r: String)
    ensures
        r@ == a@ + b@ + c@ + d@,
{
    let mut s = cat3(a, b, c);
    s.push_str(d);
    s
}

/// The Unicode `White_Space` property.
pub open spec fn white_space(c: char) -> bool {
    ||| '\u{9}' <= c <= '\u{d}'
    ||| c == '\u{20}'
    ||| c == '\u{85}'
    ||| c == '\u{a0}'
    ||| c == '\u{1680}'
    ||| '\u{2000}' <= c <= '\u{200a}'
    ||| c == '\u{2028}'
    ||| c == '\u{2029}'
    ||| c == '\u{202f}'
    ||| c == '\u{205f}'
    ||| c == '\u{3000}'
}

/// Whether `c` has the Unicode `White_Space` property.
pub fn is_white_space(c: char) -> (r: bool)
    ensures
        r == white_space(c),
{
    ('\u{9}' <= c && c <= '\u{d}') || c == '\u{20}' || c == '\u{85}' || c == '\u{a0}' || c
        == '\u{1680}' || ('\u{2000}' <= c && c <= '\u{200a}') || c == '\u{2028}' || c == '\u{2029}'
        || c == '\u{202f}' || c == '\u{205f}' || c == '\u{3000}'
}

/// `s` without its leading white space.
pub open spec fn trim_start(s: Seq<char>) -> Seq<char>
    decreases s.len(),
{
    if s.len() > 0 && white_space(s[0]) {
        trim_start(s.drop_first())
    } else {
        s
    }
}

/// `s` without its trailing white space.
pub open spec fn trim_end(s: Seq<char>) -> Seq<char>
    decreases s.len(),
{
    if s.len() > 0 && white_space(s.last()) {
        trim_end(s.drop_last())
    } else {
        s
    }
}

/// `s` without leading and trailing white space.
pub open spec fn trim(s: Seq<char>) -> Seq<char> {
    trim_end(trim_start(s))
}

/// Nothing but white space.
pub open spec fn blank(s: Seq<char>) -> bool {
    forall|i: int| 0 <= i < s.len() ==> white_space(#[trigger] s[i])
}

/// The range of `chars` that trimming both ends leaves.
fn trim_range(chars: &Vec<char>, both: bool) -> (r: (usize, usize))
    ensures
        r.0 <= r.1 <= chars@.len(),
        both ==> chars@.subrange(r.0 as int, r.1 as int) == trim(chars@),
        !both ==> r.0 == 0 && chars@.subrange(0, r.1 as int) == trim_end(chars@),
{
    let mut from: usize = 0;
    if both {
        assert(chars@.skip(0) =~= chars@);
        while from < chars.len() && is_white_space(chars[from])
            invariant
                from <= chars@.len(),
                trim_start(chars@) == trim_start(chars@.skip(from as int)),
            decreases chars@.len() - from,
        {
            proof {
                let rest = chars@.skip(from as int);
                assert(rest.drop_first() =~= chars@.skip(from + 1));
            }
            from += 1;
        }
        assert(trim_start(chars@) == chars@.skip(from as int));
    }
    let mut to: usize = chars.len();
    let ghost whole = chars@.skip(from as int);
    assert(whole =~= chars@.subrange(from as int, to as int));
    while from < to && is_white_space(chars[to - 1])
        invariant
            from <= to <= chars@.len(),
            trim_end(whole) == trim_end(chars@.subrange(from as int, to as int)),
        decreases to,
    {
        proof {
            let rest = chars@.subrange(from as int, to as int);
            assert(rest.drop_last() =~= chars@.subrange(from as int, to - 1));
        }
        to -= 1;
    }
    assert(chars@.subrange(from as int, to as int) == trim_end(whole)) by {
        let rest = chars@.subrange(from as int, to as int);
        if from < to {
            assert(rest.last() == chars@[to - 1]);
        }
    }
    if !both {
        assert(whole =~= chars@);
    }
    (from, to)
}

/// `s` without leading and trailing white space.
pub fn trimmed(s: &str) -> (r: String)
    ensures
        r@ == trim(s@),
{
    let chars = chars_of(s);
    let (from, to) = trim_range(&chars, true);
    string_of(&chars, from, to)
}

/// `s` without leading white space.
pub fn trimmed_start(s: &str) -> (r: String)
    ensures
        r@ == trim_start(s@),
{
    let chars = chars_of(s);
    let n: usize = chars.len();
    let mut k: usize = 0;
    assert(s@.skip(0) =~= s@);
    while k < n && is_white_space(chars[k])
        invariant
            k <= n == chars@.len(),
            chars@ == s@,
            trim_start(s@) == trim_start(s@.skip(k as int)),
        decreases n - k,
    {
        assert(s@.skip(k as int)[0] == s@[k as int]);
        assert(s@.skip(k as int).skip(1) =~= s@.skip(k + 1));
        assert(s@.skip(k as int).drop_first() =~= s@.skip(k + 1));
        k += 1;
    }
    proof {
        if k < n {
            assert(s@.skip(k as int)[0] == s@[k as int]);
        }
    }
    let r = string_of(&chars, k, n);
    assert(r@ =~= s@.skip(k as int));
    r
}

/// `s` without trailing white space.
pub fn trimmed_end(s: &str) -> (r: String)
    ensures
        r@ == trim_end(s@),
{
    let chars = chars_of(s);
    let (_from, to) = trim_range(&chars, false);
    string_of(&chars, 0, to)
}

/// Trimming leaves nothing exactly of blank text.
pub proof fn lemma_trim_blank(s: Seq<char>)
    ensures
        (trim(s).len() == 0) == blank(s),
    decreases s.len(),
{
    if s.len() > 0 && white_space(s[0]) {
        lemma_trim_blank(s.drop_first());
        if blank(s) {
            assert(blank(s.drop_first()));
        }
        if blank(s.drop_first()) {
            assert forall|i: int| 0 <= i < s.len() implies white_space(#[trigger] s[i]) by {
                if i > 0 {
                    assert(s[i] == s.drop_first()[i - 1]);
                }
            }
        }
    } else if s.len() > 0 {
        lemma_trim_end_keeps(s);
    }
}

/// A sequence that holds a character which is no white space keeps it.
proof fn lemma_trim_end_keeps(s: Seq<char>)
    requires
        s.len() > 0,
        !white_space(s[0]),
    ensures
        trim_end(s).len() > 0,
    decreases s.len(),
{
    if white_space(s.last()) {
        lemma_trim_end_keeps(s.drop_last());
    }
}

/// Whether `s` holds nothing but white space.
pub fn is_blank(s: &str) -> (r: bool)
    ensures
        r == blank(s@),
{
    let chars = chars_of(s);
    let mut i: usize = 0;
    while i < chars.len()
        invariant
            i <= chars@.len(),
            chars@ == s@,
            forall|j: int| 0 <= j < i ==> white_space(#[trigger] chars@[j]),
        decreases chars@.len() - i,
    {
        if !is_white_space(chars[i]) {
            assert(!white_space(s@[i as int]));
            return false;
        }
        i += 1;
    }
    true
}

/// Length of the prefix of `s` before the first `c` (all of `s` without one).
pub open spec fn upto(s: Seq<char>, c: char) -> nat
    decreases s.len(),
{
    if s.len() == 0 || s[0] == c {
        0
    } else {
        1 + upto(s.drop_first(), c)
    }
}

/// What `upto` finds.
pub proof fn lemma_upto(s: Seq<char>, c: char)
    ensures
        upto(s, c) <= s.len(),
        upto(s, c) < s.len() ==> s[upto(s, c) as int] == c,
        forall|i: int| 0 <= i < upto(s, c) ==> s[i] != c,
    decreases s.len(),
{
    if s.len() > 0 && s[0] != c {
        let t = s.drop_first();
        lemma_upto(t, c);
        assert forall|i: int| 0 <= i < upto(s, c) implies s[i] != c by {
            if i > 0 {
                assert(s[i] == t[i - 1]);
            }
        }
    }
}

/// `upto` is the only position with its properties.
pub proof fn lemma_upto_is(s: Seq<char>, c: char, k: nat)
    requires
        k <= s.len(),
        k < s.len() ==> s[k as int] == c,
        forall|i: int| 0 <= i < k ==> s[i] != c,
    ensures
        upto(s, c) == k,
{
    lemma_upto(s, c);
}

/// The position of the first `c` in `chars[from..]`, or the length.
pub fn find_from(chars: &Vec<char>, from: usize, c: char) -> (k: usize)
    requires
        from <= chars@.len(),
    ensures
        from <= k <= chars@.len(),
        k - from == upto(chars@.skip(from as int), c),
{
    let mut k: usize = from;
    let ghost rest = chars@.skip(from as int);
    while k < chars.len() && chars[k] != c
        invariant
            from <= k <= chars@.len(),
            rest == chars@.skip(from as int),
            forall|i: int| 0 <= i < k - from ==> rest[i] != c,
        decreases chars@.len() - k,
    {
        assert(rest[k - from] == chars@[k as int]);
        k += 1;
    }
    proof {
        if k < chars@.len() {
            assert(rest[k - from] == chars@[k as int]);
        }
        lemma_upto_is(rest, c, (k - from) as nat);
    }
    k
}

/// The pieces of `s` between occurrences of `c`; at least one.
pub open spec fn split(s: Seq<char>, c: char) -> Seq<Seq<char>>
    decreases s.len(),
{
    let k = upto(s, c) as int;
    if 0 <= k < s.len() {
        seq![s.take(k)] + split(s.skip(k + 1), c)
    } else {
        seq![s]
    }
}

/// `s` without one trailing carriage return.
pub open spec fn strip_cr(s: Seq<char>) -> Seq<char> {
    if s.len() > 0 && s.last() == '\r' {
        s.drop_last()
    } else {
        s
    }
}

/// The lines of `s`: ended by a line feed or by carriage return and line feed,
/// the last line ending being optional.
pub open spec fn lines(s: Seq<char>) -> Seq<Seq<char>>
    decreases s.len(),
{
    let k = upto(s, '\n') as int;
    if 0 <= k < s.len() {
        seq![strip_cr(s.take(k))] + lines(s.skip(k + 1))
    } else if s.len() == 0 {
        Seq::empty()
    } else {
        seq![s]
    }
}

/// The pieces of `s` between occurrences of `c`.
pub fn split_of(s: &str, c: char) -> (out: Vec<String>)
    ensures
        texts(out@) == split(s@, c),
        out@.len() >= 1,
{
    broadcast use lemma_texts_push;

    let chars = chars_of(s);
    let mut out: Vec<String> = Vec::new();
    let mut at: usize = 0;
    assert(chars@.skip(0) =~= chars@);
    assert(texts(out@) =~= Seq::empty());
    loop
        invariant_except_break
            at <= chars@.len(),
            texts(out@) + split(chars@.skip(at as int), c) =~= split(s@, c),
        invariant
            chars@ == s@,
        ensures
            texts(out@) == split(s@, c),
            out@.len() >= 1,
        decreases chars@.len() - at,
    {
        let k = find_from(&chars, at, c);
        let ghost rest = chars@.skip(at as int);
        let piece = string_of(&chars, at, k);
        proof {
            assert(piece@ =~= rest.take(k - at));
        }
        if k < chars.len() {
            proof {
                assert(rest.skip(k - at + 1) =~= chars@.skip(k + 1));
                assert(split(rest, c) =~= seq![piece@] + split(chars@.skip(k + 1), c));
            }
            out.push(piece);
            at = k + 1;
        } else {
            proof {
                assert(rest.take(k - at) =~= rest);
                assert(split(rest, c) =~= seq![piece@]);
            }
            out.push(piece);
            break;
        }
    }
    out
}

/// The lines of `s`.
pub fn lines_of(s: &str) -> (out: Vec<String>)
    ensures
        texts(out@) == lines(s@),
        out@.len() == lines(s@).len(),
{
    broadcast use lemma_texts_push;

    let chars = chars_of(s);
    let mut out: Vec<String> = Vec::new();
    let mut at: usize = 0;
    assert(chars@.skip(0) =~= chars@);
    assert(texts(out@) =~= Seq::empty());
    while at < chars.len()
        invariant
            at <= chars@.len(),
            chars@ == s@,
            texts(out@) + lines(chars@.skip(at as int)) =~= lines(s@),
        decreases chars@.len() - at,
    {
        let k = find_from(&chars, at, '\n');
        let ghost rest = chars@.skip(at as int);
        if k < chars.len() {
            let mut end: usize = k;
            if at < k && chars[k - 1] == '\r' {
                end = k - 1;
            }
            let piece = string_of(&chars, at, end);
            proof {
                let raw = rest.take(k - at);
                if at < k {
                    assert(raw.last() == chars@[k - 1]);
                }
                assert(piece@ =~= strip_cr(raw));
                assert(rest.skip(k - at + 1) =~= chars@.skip(k + 1));
                assert(lines(rest) =~= seq![piece@] + lines(chars@.skip(k + 1)));
            }
            out.push(piece);
            at = k + 1;
        } else {
            let piece = string_of(&chars, at, k);
            proof {
                assert(piece@ =~= rest);
                assert(chars@.skip(k as int).len() == 0);
                assert(lines(rest) =~= seq![piece@] + lines(chars@.skip(k as int)));
            }
            out.push(piece);
            at = k;
        }
    }
    proof {
        assert(chars@.skip(at as int).len() == 0);
        assert(texts(out@) =~= lines(s@));
    }
    out
}

/// `s` with every line feed turned into a space.
pub open spec fn one_line(s: Seq<char>) -> Seq<char> {
    s.map_values(
        |c: char|
            if c == '\n' {
                ' '
            } else {
                c
            },
    )
}

/// `s` with every line feed turned into a space.
pub fn to_one_line(s: &str) -> (r: String)
    ensures
        r@ == one_line(s@),
{
    let chars = chars_of(s);
    let mut r = String::new();
    let mut i: usize = 0;
    while i < chars.len()
        invariant
            i <= chars@.len(),
            chars@ == s@,
            r@ == one_line(s@).take(i as int),
        decreases chars@.len() - i,
    {
        let c = chars[i];
        if c == '\n' {
            r.push(' ');
        } else {
            r.push(c);
        }
        i += 1;
        assert(r@ =~= one_line(s@).take(i as int));
    }
    assert(one_line(s@).take(i as int) =~= one_line(s@));
    r
}

/// The first `n` characters of `s`, or all of it.
pub open spec fn first_chars(s: Seq<char>, n: nat) -> Seq<char> {
    if s.len() <= n {
        s
    } else {
        s.take(n as int)
    }
}

/// The first `n` characters of `s`, or all of it.
pub fn take_chars(s: &str, n: usize) -> (r: String)
    ensures
        r@ == first_chars(s@, n as nat),
{
    let chars = chars_of(s);
    if chars.len() <= n {
        s.to_owned()
    } else {
        let r = string_of(&chars, 0, n);
        assert(r@ =~= s@.take(n as int));
        r
    }
}

/// `s` where it has at most `n` characters, else its first `n` and an ellipsis.
pub open spec fn ellipsized(s: Seq<char>, n: nat) -> Seq<char> {
    if s.len() <= n {
        s
    } else {
        s.take(n as int).push('…')
    }
}

/// `s` where it has at most `n` characters, else its first `n` and an ellipsis.
pub fn ellipsize(s: &str, n: usize) -> (r: String)
    ensures
        r@ == ellipsized(s@, n as nat),
{
    let chars = chars_of(s);
    if chars.len() <= n {
        s.to_owned()
    } else {
        let mut r = string_of(&chars, 0, n);
        assert(r@ =~= s@.take(n as int));
        r.push('…');
        r
    }
}

/// `s` cut to at most `max` characters, the last one an ellipsis where it was cut.
pub open spec fn truncated(s: Seq<char>, max: nat) -> Seq<char> {
    if s.len() <= max {
        s
    } else if max == 0 {
        seq!['…']
    } else {
        s.take(max - 1).push('…')
    }
}

/// `s` cut to at most `max` characters, the last one an ellipsis where it was cut.
pub fn truncate_str(s: &str, max: usize) -> (r: String)
    ensures
        r@ == truncated(s@, max as nat),
{
    let chars = chars_of(s);
    if chars.len() <= max {
        s.to_owned()
    } else {
        let keep: usize = if max == 0 {
            0
        } else {
            max - 1
        };
        let mut r = string_of(&chars, 0, keep);
        r.push('…');
        assert(r@ =~= truncated(s@, max as nat));
        r
    }
}

/// A cut text is no longer than asked for, except that the ellipsis always stays.
pub proof fn law_truncate_bounds_length(s: Seq<char>, max: nat)
    ensures
        truncated(s, max).len() <= max || (max == 0 && truncated(s, max) == seq!['…']),
        s.len() <= max ==> truncated(s, max) == s,
        s.len() > max ==> truncated(s, max).last() == '…',
{
}

/// The decimal digit `d`.
pub open spec fn digit(d: int) -> char {
    if d == 0 {
        '0'
    } else if d == 1 {
        '1'
    } else if d == 2 {
        '2'
    } else if d == 3 {
        '3'
    } else if d == 4 {
        '4'
    } else if d == 5 {
        '5'
    } else if d == 6 {
        '6'
    } else if d == 7 {
        '7'
    } else if d == 8 {
        '8'
    } else {
        '9'
    }
}

/// `n` in decimal.
pub open spec fn dec(n: nat) -> Seq<char>
    decreases n,
{
    if n < 10 {
        seq![digit(n as int)]
    } else {
        dec(n / 10).push(digit((n % 10) as int))
    }
}

/// `n` in decimal, with a minus sign where it is negative.
pub open spec fn dec_int(n: int) -> Seq<char> {
    if n < 0 {
        "-"@ + dec((-n) as nat)
    } else {
        dec(n as nat)
    }
}

fn digit_char(d: u64) -> (c: char)
    requires
        d < 10,
    ensures
        c == digit(d as int),
{
    match d {
        0 => '0',
        1 => '1',
        2 => '2',
        3 => '3',
        4 => '4',
        5 => '5',
        6 => '6',
        7 => '7',
        8 => '8',
        _ => '9',
    }
}

/// `n` in decimal.
pub fn dec_u64(n: u64) -> (s: String)
    ensures
        s@ == dec(n as nat),
    decreases n,
{
    if n < 10 {
        let mut s = String::new();
        s.push(digit_char(n));
        assert(s@ =~= seq![digit(n as int)]);
        s
    } else {
        let mut s = dec_u64(n / 10);
        s.push(digit_char(n % 10));
        s
    }
}

/// `n` in decimal.
pub fn dec_usize(n: usize) -> (s: String)
    ensures
        s@ == dec(n as nat),
{
    dec_u64(n as u64)
}

/// `n` in decimal, with a minus sign where it is negative.
pub fn dec_i64(n: i64) -> (s: String)
    ensures
        s@ == dec_int(n as int),
{
    if n < 0 {
        let m: u64 = if n == i64::MIN {
            9223372036854775808
        } else {
            (-n) as u64
        };
        let body = dec_u64(m);
        cat2("-", body.as_str())
    } else {
        dec_u64(n as u64)
    }
}

/// `n` copies of `c`.
pub open spec fn repeated(c: char, n: nat) -> Seq<char> {
    Seq::new(n, |i: int| c)
}

/// `n` copies of `c`.
pub fn repeat_char(c: char, n: usize) -> (s: String)
    ensures
        s@ == repeated(c, n as nat),
{
    let mut s = String::new();
    let mut i: usize = 0;
    while i < n
        invariant
            i <= n,
            s@ == repeated(c, i as nat),
        decreases n - i,
    {
        s.push(c);
        i += 1;
        assert(s@ =~= repeated(c, i as nat));
    }
    assert(s@ =~= repeated(c, n as nat));
    s
}

/// Whether `s` begins with `p`.
pub open spec fn starts_with(s: Seq<char>, p: Seq<char>) -> bool {
    p.len() <= s.len() && s.take(p.len() as int) == p
}

/// Whether `p` occurs in `s` at position `i`.
pub open spec fn occurs_at(s: Seq<char>, p: Seq<char>, i: int) -> bool {
    0 <= i && i + p.len() <= s.len() && s.subrange(i, i + p.len()) == p
}

/// Whether `p` occurs in `s`.
pub open spec fn occurs(s: Seq<char>, p: Seq<char>) -> bool {
    exists|i: int| occurs_at(s, p, i)
}

/// Whether `pat` stands in `chars` at position `at`.
pub fn found_at(chars: &Vec<char>, at: usize, pat: &Vec<char>) -> (r: bool)
    ensures
        r == occurs_at(chars@, pat@, at as int),
{
    if at > chars.len() || pat.len() > chars.len() - at {
        return false;
    }
    let mut i: usize = 0;
    while i < pat.len()
        invariant
            i <= pat@.len(),
            at + pat@.len() <= chars@.len() <= usize::MAX,
            forall|j: int| 0 <= j < i ==> chars@[at + j] == #[trigger] pat@[j],
        decreases pat@.len() - i,
    {
        if chars[at + i] != pat[i] {
            proof {
                assert(chars@.subrange(at as int, at + pat@.len())[i as int] == chars@[at + i]);
            }
            return false;
        }
        i += 1;
    }
    assert(chars@.subrange(at as int, at + pat@.len()) =~= pat@);
    true
}

/// Whether `s` begins with `p`.
pub fn has_prefix(s: &str, p: &str) -> (r: bool)
    ensures
        r == starts_with(s@, p@),
{
    let a = chars_of(s);
    let b = chars_of(p);
    let r = found_at(&a, 0, &b);
    proof {
        if p@.len() <= s@.len() {
            assert(s@.subrange(0, p@.len() as int) =~= s@.take(p@.len() as int));
        }
    }
    r
}

/// Whether `p` occurs in `s`.
pub fn contains_str(s: &str, p: &str) -> (r: bool)
    ensures
        r == occurs(s@, p@),
{
    let a = chars_of(s);
    let b = chars_of(p);
    let mut i: usize = 0;
    while i < a.len()
        invariant
            i <= a@.len(),
            a@ == s@,
            b@ == p@,
            forall|j: int| 0 <= j < i ==> !occurs_at(a@, b@, j),
        decreases a@.len() - i,
    {
        if found_at(&a, i, &b) {
            return true;
        }
        i += 1;
    }
    found_at(&a, i, &b)
}

/// `parts` with `sep` between them.
pub open spec fn joined(parts: Seq<Seq<char>>, sep: Seq<char>) -> Seq<char>
    decreases parts.len(),
{
    if parts.len() == 0 {
        Seq::empty()
    } else if parts.len() == 1 {
        parts[0]
    } else {
        joined(parts.drop_last(), sep) + sep + parts.last()
    }
}

/// `parts` with `sep` between them.
pub fn join(parts: &Vec<String>, sep: &str) -> (r: String)
    ensures
        r@ == joined(texts(parts@), sep@),
{
    let mut r = String::new();
    let mut i: usize = 0;
    assert(texts(parts@).take(0) =~= Seq::empty());
    while i < parts.len()
        invariant
            i <= parts@.len(),
            r@ == joined(texts(parts@).take(i as int), sep@),
        decreases parts@.len() - i,
    {
        let ghost all = texts(parts@);
        proof {
            assert(all.take(i + 1).drop_last() =~= all.take(i as int));
            assert(all.take(i + 1).last() == parts@[i as int]@);
        }
        if i > 0 {
            r.push_str(sep);
        }
        r.push_str(parts[i].as_str());
        proof {
            if i == 0 {
                assert(r@ =~= all.take(1)[0]);
            } else {
                assert(r@ =~= joined(all.take(i as int), sep@) + sep@ + parts@[i as int]@);
            }
        }
        i += 1;
    }
    assert(texts(parts@).take(i as int) =~= texts(parts@));
    r
}

} // verus!
