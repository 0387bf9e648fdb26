//! The external pager: which command, and how a path is quoted for it.

use crate::text::{chars_of, is_blank, trimmed, trim, blank};
use vstd::prelude::*;

verus! {

/// The pager's command line: as set, or `less -R` where nothing is.
pub open spec fn pager_line(raw: Option<&str>) -> Seq<char> {
    match raw {
        Some(s) => if blank(s@) {
            "less -R"@
        } else {
            trim(s@)
        },
        None => "less -R"@,
    }
}

/// The pager's command line: as set, or `less -R` where nothing is.
pub fn pager_cmd(raw: Option<&str>) -> (r: String)
    ensures
        r@ == pager_line(raw),
{
    match raw {
        Some(s) => {
            if is_blank(s) {
                "less -R".to_owned()
            } else {
                trimmed(s)
            }
        },
        None => "less -R".to_owned(),
    }
}

/// `s` with each quote left out of the quotes and escaped.
pub open spec fn escaped(s: Seq<char>) -> Seq<char>
    decreases s.len(),
{
    if s.len() == 0 {
        Seq::empty()
    } else if s.last() == '\'' {
        escaped(s.drop_last()) + seq!['\'', '\\', '\'', '\'']
    } else {
        escaped(s.drop_last()).push(s.last())
    }
}

/// `s` as one word of a POSIX shell.
pub open spec fn quoted(s: Seq<char>) -> Seq<char> {
    seq!['\''] + escaped(s) + seq!['\'']
}

/// `s` as one word of a POSIX shell.
pub fn shell_quote(s: &str) -> (r: String)
    ensures
        r@ == quoted(s@),
{
    let chars = chars_of(s);
    let mut out = String::new();
    out.push('\'');
    let mut i: usize = 0;
    assert(chars@.take(0) =~= Seq::empty());
    assert(out@ =~= seq!['\''] + escaped(chars@.take(0)));
    while i < chars.len()
        invariant
            i <= chars@.len(),
            out@ == seq!['\''] + escaped(chars@.take(i as int)),
        decreases chars@.len() - i,
    {
        proof {
            assert(chars@.take(i + 1).drop_last() =~= chars@.take(i as int));
        }
        if chars[i] == '\'' {
            out.push('\'');
            out.push('\\');
            out.push('\'');
            out.push('\'');
        } else {
            out.push(chars[i]);
        }
        i += 1;
        assert(out@ =~= seq!['\''] + escaped(chars@.take(i as int)));
    }
    assert(chars@.take(i as int) =~= s@);
    out.push('\'');
    assert(out@ =~= quoted(s@));
    out
}

/// How a POSIX shell reads a word made of quoted parts and escaped characters:
/// `open` says whether the text before it ends inside quotes. Nothing where the
/// word does not end outside quotes, or something else stands between the
/// parts.
pub open spec fn unquoted(s: Seq<char>, open: bool) -> Option<Seq<char>>
    decreases s.len(),
{
    if s.len() == 0 {
        if open {
            None
        } else {
            Some(Seq::empty())
        }
    } else if open {
        if s[0] == '\'' {
            unquoted(s.drop_first(), false)
        } else {
            match unquoted(s.drop_first(), true) {
                Some(r) => Some(seq![s[0]] + r),
                None => None,
            }
        }
    } else if s[0] == '\'' {
        unquoted(s.drop_first(), true)
    } else if s[0] == '\\' && s.len() > 1 {
        match unquoted(s.skip(2), false) {
            Some(r) => Some(seq![s[1]] + r),
            None => None,
        }
    } else {
        None
    }
}

proof fn lemma_escaped_first(s: Seq<char>)
    requires
        s.len() > 0,
    ensures
        escaped(s) == (if s[0] == '\'' {
            seq!['\'', '\\', '\'', '\'']
        } else {
            seq![s[0]]
        }) + escaped(s.drop_first()),
    decreases s.len(),
{
    if s.len() == 1 {
        assert(s.drop_last() =~= Seq::empty());
        assert(s.drop_first() =~= Seq::empty());
        assert(escaped(Seq::<char>::empty()) =~= Seq::empty());
        assert(escaped(s) =~= (if s[0] == '\'' {
            seq!['\'', '\\', '\'', '\'']
        } else {
            seq![s[0]]
        }) + escaped(s.drop_first()));
    } else {
        lemma_escaped_first(s.drop_last());
        assert(s.drop_last().drop_first() =~= s.drop_first().drop_last());
        assert(escaped(s) =~= (if s[0] == '\'' {
            seq!['\'', '\\', '\'', '\'']
        } else {
            seq![s[0]]
        }) + escaped(s.drop_first()));
    }
}

proof fn lemma_unquoted_escaped(s: Seq<char>)
    ensures
        unquoted(escaped(s) + seq!['\''], true) == Some(s),
    decreases s.len(),
{
    let end = seq!['\''];
    if s.len() == 0 {
        assert(escaped(s) + end =~= end);
        assert(end.drop_first() =~= Seq::empty());
        assert(unquoted(Seq::<char>::empty(), false) == Some(Seq::<char>::empty()));
        assert(s =~= Seq::empty());
    } else {
        let rest = s.drop_first();
        lemma_escaped_first(s);
        lemma_unquoted_escaped(rest);
        let w = escaped(s) + end;
        let tail = escaped(rest) + end;
        assert(s =~= seq![s[0]] + rest);
        if s[0] == '\'' {
            assert(w.drop_first() =~= seq!['\\', '\'', '\''] + tail);
            let w1 = seq!['\\', '\'', '\''] + tail;
            assert(w1.skip(2) =~= end + tail);
            assert((end + tail).drop_first() =~= tail);
            assert(unquoted(end + tail, false) == unquoted(tail, true));
            assert(w1[0] == '\\' && w1[1] == '\'');
            assert(unquoted(w1, false) == Some(seq!['\''] + rest));
        } else {
            assert(w.drop_first() =~= tail);
        }
    }
}

/// A shell reads a quoted text back as that text.
pub proof fn law_quoting_round_trips(s: Seq<char>)
    ensures
        unquoted(quoted(s), false) == Some(s),
{
    lemma_unquoted_escaped(s);
    assert(quoted(s).drop_first() =~= escaped(s) + seq!['\'']);
}

} // verus!
