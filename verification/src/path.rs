//! Parts of file paths, and what kind of file a path names.

use crate::slash::{ascii_lower, lowered};
use crate::text::{chars_of, opt_text, split, split_of, str_eq, string_of, texts};
use vstd::prelude::*;

verus! {

/// The last segment that is neither empty nor a single dot.
pub open spec fn last_named(segments: Seq<Seq<char>>) -> Option<Seq<char>>
    decreases segments.len(),
{
    if segments.len() == 0 {
        None
    } else if segments.last().len() == 0 || segments.last() == "."@ {
        last_named(segments.drop_last())
    } else {
        Some(segments.last())
    }
}

/// The file that a path names, if it does not end in `..`.
pub open spec fn named_file(path: Seq<char>) -> Option<Seq<char>> {
    match last_named(split(path, '/')) {
        Some(s) => if s == ".."@ {
            None
        } else {
            Some(s)
        },
        None => None,
    }
}

/// The file that a path names, if it does not end in `..`.
pub fn file_name(path: &str) -> (r: Option<String>)
    ensures
        opt_text(r) == named_file(path@),
{
    let segments = split_of(path, '/');
    let ghost v = texts(segments@);
    let mut k: usize = segments.len();
    assert(v.take(k as int) =~= v);
    while k > 0
        invariant
            k <= segments@.len(),
            v == texts(segments@),
            v == split(path@, '/'),
            last_named(v) == last_named(v.take(k as int)),
        decreases k,
    {
        let ghost t = v.take(k as int);
        assert(t.last() == segments@[k - 1]@);
        assert(t.drop_last() =~= v.take(k - 1));
        let s = segments[k - 1].as_str();
        let n: usize = s.unicode_len();
        if n > 0 && !str_eq(s, ".") {
            if str_eq(s, "..") {
                return None;
            }
            return Some(segments[k - 1].clone());
        }
        k -= 1;
    }
    assert(v.take(0).len() == 0);
    None
}

/// Where the last dot stands.
pub open spec fn last_dot(s: Seq<char>) -> Option<int>
    decreases s.len(),
{
    if s.len() == 0 {
        None
    } else if s.last() == '.' {
        Some(s.len() - 1)
    } else {
        last_dot(s.drop_last())
    }
}

/// What stands behind the last dot of the file that a path names; a dot in
/// front does not count.
pub open spec fn extension(path: Seq<char>) -> Seq<char> {
    match named_file(path) {
        Some(name) => match last_dot(name) {
            Some(k) => if k > 0 {
                name.skip(k + 1)
            } else {
                Seq::empty()
            },
            None => Seq::empty(),
        },
        None => Seq::empty(),
    }
}

fn file_extension(path: &str) -> (r: String)
    ensures
        r@ == extension(path@),
{
    let name = match file_name(path) {
        Some(n) => n,
        None => {
            let none = String::new();
            assert(none@ =~= Seq::empty());
            return none;
        },
    };
    let chars = chars_of(name.as_str());
    let n: usize = chars.len();
    let mut k: usize = n;
    assert(name@.take(n as int) =~= name@);
    while k > 0
        invariant
            k <= n == chars@.len(),
            chars@ == name@,
            Some(name@) == named_file(path@),
            last_dot(name@) == last_dot(name@.take(k as int)),
        decreases k,
    {
        assert(name@.take(k as int).last() == name@[k - 1]);
        assert(name@.take(k as int).drop_last() =~= name@.take(k - 1));
        if chars[k - 1] == '.' {
            if k == 1 {
                let none = String::new();
                assert(none@ =~= Seq::empty());
                return none;
            }
            let ext = string_of(&chars, k, n);
            assert(ext@ =~= name@.skip(k as int));
            return ext;
        }
        k -= 1;
    }
    assert(name@.take(0).len() == 0);
    let none = String::new();
    assert(none@ =~= Seq::empty());
    none
}

/// The media type of a file, by its extension in lower case.
pub open spec fn media_type(ext: Seq<char>) -> Seq<char> {
    if ext == "png"@ {
        "image/png"@
    } else if ext == "jpg"@ || ext == "jpeg"@ {
        "image/jpeg"@
    } else if ext == "gif"@ {
        "image/gif"@
    } else if ext == "webp"@ {
        "image/webp"@
    } else if ext == "svg"@ {
        "image/svg+xml"@
    } else if ext == "pdf"@ {
        "application/pdf"@
    } else if ext == "json"@ {
        "application/json"@
    } else {
        "text/plain"@
    }
}

/// The media type of the file that a path names.
pub fn guess_media_type(path: &str) -> (r: String)
    ensures
        r@ == media_type(lowered(extension(path@))),
{
    let ext = file_extension(path);
    let low = ascii_lower(ext.as_str());
    let e = low.as_str();
    let kind = if str_eq(e, "png") {
        "image/png"
    } else if str_eq(e, "jpg") || str_eq(e, "jpeg") {
        "image/jpeg"
    } else if str_eq(e, "gif") {
        "image/gif"
    } else if str_eq(e, "webp") {
        "image/webp"
    } else if str_eq(e, "svg") {
        "image/svg+xml"
    } else if str_eq(e, "pdf") {
        "application/pdf"
    } else if str_eq(e, "json") {
        "application/json"
    } else {
        "text/plain"
    };
    kind.to_owned()
}

} // verus!
