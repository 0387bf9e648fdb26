//! Commands typed after a slash.

use crate::text::{
    cat2, chars_of, has_prefix, is_white_space, opt_text, starts_with, str_eq, string_of, trim,
    trimmed, white_space,
};
use vstd::prelude::*;

verus! {

/// A command that can be completed.
#[derive(Clone, Copy, Debug)]
pub struct SlashDef {
    pub name: &'static str,
    pub description: &'static str,
}

/// How many commands can be completed.
pub const SLASH_COMMAND_COUNT: usize = 8;

/// The names of the commands, in the order they are offered.
pub open spec fn command_name(i: int) -> Seq<char> {
    if i == 0 {
        "new"@
    } else if i == 1 {
        "help"@
    } else if i == 2 {
        "sessions"@
    } else if i == 3 {
        "settings"@
    } else if i == 4 {
        "history"@
    } else if i == 5 {
        "workspace"@
    } else if i == 6 {
        "clear"@
    } else {
        "export"@
    }
}

/// The command at `i`.
pub fn slash_command(i: usize) -> (d: SlashDef)
    requires
        i < SLASH_COMMAND_COUNT,
    ensures
        d.name@ == command_name(i as int),
{
    if i == 0 {
        SlashDef { name: "new", description: "新建会话 [cwd]" }
    } else if i == 1 {
        SlashDef { name: "help", description: "快捷键帮助" }
    } else if i == 2 {
        SlashDef { name: "sessions", description: "会话列表" }
    } else if i == 3 {
        SlashDef { name: "settings", description: "设置" }
    } else if i == 4 {
        SlashDef { name: "history", description: "按回合浏览" }
    } else if i == 5 {
        SlashDef { name: "workspace", description: "工作区面板" }
    } else if i == 6 {
        SlashDef { name: "clear", description: "清空输入" }
    } else {
        SlashDef { name: "export", description: "导出 Markdown [path]" }
    }
}

/// Lower case, for ASCII letters.
pub open spec fn lower(c: char) -> char {
    if 'A' <= c <= 'Z' {
        (c as u32 + 32) as char
    } else {
        c
    }
}

/// A text in lower case, for ASCII letters.
pub open spec fn lowered(s: Seq<char>) -> Seq<char> {
    Seq::new(s.len(), |i: int| lower(s[i]))
}

fn lower_char(c: char) -> (r: char)
    ensures
        r == lower(c),
{
    if c >= 'A' && c <= 'Z' {
        (c as u8 + 32) as char
    } else {
        c
    }
}

/// A text in lower case, for ASCII letters.
pub fn ascii_lower(s: &str) -> (r: String)
    ensures
        r@ == lowered(s@),
{
    let chars = chars_of(s);
    let mut out = String::new();
    let n: usize = chars.len();
    let mut i: usize = 0;
    while i < n
        invariant
            i <= n == chars@.len(),
            chars@ == s@,
            out@ == lowered(s@).take(i as int),
        decreases n - i,
    {
        out.push(lower_char(chars[i]));
        i += 1;
        assert(out@ =~= lowered(s@).take(i as int));
    }
    assert(out@ =~= lowered(s@));
    out
}

/// A text holds white space.
pub open spec fn spaced(s: Seq<char>) -> bool {
    exists|i: int| 0 <= i < s.len() && white_space(#[trigger] s[i])
}

/// Whether a text holds white space.
pub fn has_space(s: &str) -> (r: bool)
    ensures
        r == spaced(s@),
{
    let chars = chars_of(s);
    let n: usize = chars.len();
    let mut i: usize = 0;
    while i < n
        invariant
            i <= n == chars@.len(),
            chars@ == s@,
            forall|j: int| 0 <= j < i ==> !white_space(#[trigger] s@[j]),
        decreases n - i,
    {
        if is_white_space(chars[i]) {
            assert(white_space(s@[i as int]));
            return true;
        }
        i += 1;
    }
    false
}

/// The commands that complete a typed text, from the first `n`: those whose
/// name begins as the text behind its slash.
pub open spec fn completions_to(typed: Seq<char>, n: nat) -> Seq<Seq<char>>
    decreases n,
{
    if n == 0 {
        Seq::empty()
    } else {
        let rest = completions_to(typed, (n - 1) as nat);
        if starts_with(command_name(n - 1), lowered(typed.skip(1))) {
            rest.push(command_name(n - 1))
        } else {
            rest
        }
    }
}

/// The commands that complete a typed text: none unless it begins with a
/// slash and is one word.
pub open spec fn completions(typed: Seq<char>) -> Seq<Seq<char>> {
    if typed.len() > 0 && typed[0] == '/' && !spaced(typed) {
        completions_to(typed, SLASH_COMMAND_COUNT as nat)
    } else {
        Seq::empty()
    }
}

/// Names of commands.
pub open spec fn def_names(v: Seq<SlashDef>) -> Seq<Seq<char>> {
    Seq::new(v.len(), |i: int| v[i].name@)
}

/// The commands that complete a typed text.
pub fn completions_for(typed: &str) -> (out: Vec<SlashDef>)
    ensures
        def_names(out@) == completions(typed@),
        out@.len() <= SLASH_COMMAND_COUNT,
{
    let mut out: Vec<SlashDef> = Vec::new();
    assert(def_names(out@) =~= Seq::empty());
    let chars = chars_of(typed);
    let len: usize = chars.len();
    if len == 0 || chars[0] != '/' || has_space(typed) {
        return out;
    }
    let behind = string_of(&chars, 1, len);
    assert(behind@ =~= typed@.skip(1));
    let want = ascii_lower(behind.as_str());
    let mut i: usize = 0;
    while i < SLASH_COMMAND_COUNT
        invariant
            i <= SLASH_COMMAND_COUNT,
            want@ == lowered(typed@.skip(1)),
            def_names(out@) == completions_to(typed@, i as nat),
            out@.len() <= i,
        decreases SLASH_COMMAND_COUNT - i,
    {
        let d = slash_command(i);
        let ghost before = out@;
        if has_prefix(d.name, want.as_str()) {
            out.push(d);
            assert(def_names(out@) =~= def_names(before).push(d.name@));
        }
        i += 1;
        assert(completions_to(typed@, i as nat) == {
            let rest = completions_to(typed@, (i - 1) as nat);
            if starts_with(command_name(i - 1), want@) {
                rest.push(command_name(i - 1))
            } else {
                rest
            }
        });
    }
    out
}

/// A command.
#[derive(Clone, Debug, PartialEq, Eq)]
pub enum SlashCmd {
    New { cwd: Option<String> },
    Help,
    Sessions,
    Settings,
    History,
    Workspace,
    Clear,
    Export { path: Option<String> },
    Unknown(String),
}

/// A command.
#[verifier::ext_equal]
pub enum SlashView {
    New { cwd: Option<Seq<char>> },
    Help,
    Sessions,
    Settings,
    History,
    Workspace,
    Clear,
    Export { path: Option<Seq<char>> },
    Unknown(Seq<char>),
}

impl View for SlashCmd {
    type V = SlashView;

    open spec fn view(&self) -> SlashView {
        match *self {
            SlashCmd::New { cwd } => SlashView::New { cwd: opt_text(cwd) },
            SlashCmd::Help => SlashView::Help,
            SlashCmd::Sessions => SlashView::Sessions,
            SlashCmd::Settings => SlashView::Settings,
            SlashCmd::History => SlashView::History,
            SlashCmd::Workspace => SlashView::Workspace,
            SlashCmd::Clear => SlashView::Clear,
            SlashCmd::Export { path } => SlashView::Export { path: opt_text(path) },
            SlashCmd::Unknown(s) => SlashView::Unknown(s@),
        }
    }
}

/// How many characters stand before the first white space.
pub open spec fn word_len(s: Seq<char>) -> nat
    decreases s.len(),
{
    if s.len() == 0 || white_space(s[0]) {
        0
    } else {
        1 + word_len(s.skip(1))
    }
}

/// What stands behind the command's name, without surrounding white space.
pub open spec fn argument(s: Seq<char>) -> Option<Seq<char>> {
    let rest = trim(s.skip(word_len(s) as int));
    if rest.len() == 0 {
        None
    } else {
        Some(rest)
    }
}

/// The command that a text behind its slash names.
pub open spec fn command_of(s: Seq<char>) -> SlashView {
    let name = lowered(s.take(word_len(s) as int));
    if name == "new"@ || name == "n"@ {
        SlashView::New { cwd: argument(s) }
    } else if name == "help"@ {
        SlashView::Help
    } else if name == "sessions"@ {
        SlashView::Sessions
    } else if name == "settings"@ {
        SlashView::Settings
    } else if name == "history"@ {
        SlashView::History
    } else if name == "workspace"@ {
        SlashView::Workspace
    } else if name == "clear"@ {
        SlashView::Clear
    } else if name == "export"@ {
        SlashView::Export { path: argument(s) }
    } else {
        SlashView::Unknown(name)
    }
}

/// The command a text is, if it begins with a slash.
pub open spec fn parsed(s: Seq<char>) -> Option<SlashView> {
    if s.len() > 0 && s[0] == '/' {
        Some(command_of(s.skip(1)))
    } else {
        None
    }
}

proof fn lemma_word_len(s: Seq<char>)
    ensures
        word_len(s) <= s.len(),
    decreases s.len(),
{
    if s.len() > 0 && !white_space(s[0]) {
        lemma_word_len(s.skip(1));
    }
}

fn first_word(chars: &Vec<char>, from: usize) -> (k: usize)
    requires
        from <= chars@.len(),
    ensures
        from <= k <= chars@.len(),
        k - from == word_len(chars@.skip(from as int)),
{
    let n: usize = chars.len();
    let mut k: usize = from;
    let ghost s = chars@.skip(from as int);
    while k < n && !is_white_space(chars[k])
        invariant
            from <= k <= n == chars@.len(),
            s == chars@.skip(from as int),
            word_len(s) == (k - from) + word_len(chars@.skip(k as int)),
        decreases n - k,
    {
        assert(chars@.skip(k as int)[0] == chars@[k as int]);
        assert(chars@.skip(k as int).skip(1) =~= chars@.skip(k + 1));
        k += 1;
    }
    assert(word_len(chars@.skip(k as int)) == 0) by {
        if k < n {
            assert(chars@.skip(k as int)[0] == chars@[k as int]);
        }
    }
    k
}

/// The command a text is, if it begins with a slash.
pub fn parse(text: &str) -> (r: Option<SlashCmd>)
    ensures
        match r {
            Some(c) => parsed(text@) == Some(c@),
            None => parsed(text@) is None,
        },
{
    let chars = chars_of(text);
    let n: usize = chars.len();
    if n == 0 || chars[0] != '/' {
        return None;
    }
    let ghost s = text@.skip(1);
    let k: usize = first_word(&chars, 1);
    proof {
        lemma_word_len(s);
    }
    let word = string_of(&chars, 1, k);
    let rest = string_of(&chars, k, n);
    assert(word@ =~= s.take(word_len(s) as int));
    assert(rest@ =~= s.skip(word_len(s) as int));
    let name = ascii_lower(word.as_str());
    let arg_text = trimmed(rest.as_str());
    let count: usize = arg_text.as_str().unicode_len();
    let arg: Option<String> = if count == 0 {
        None
    } else {
        Some(arg_text)
    };
    assert(opt_text(arg) == argument(s));
    let at = name.as_str();
    let cmd = if str_eq(at, "new") || str_eq(at, "n") {
        SlashCmd::New { cwd: arg }
    } else if str_eq(at, "help") {
        SlashCmd::Help
    } else if str_eq(at, "sessions") {
        SlashCmd::Sessions
    } else if str_eq(at, "settings") {
        SlashCmd::Settings
    } else if str_eq(at, "history") {
        SlashCmd::History
    } else if str_eq(at, "workspace") {
        SlashCmd::Workspace
    } else if str_eq(at, "clear") {
        SlashCmd::Clear
    } else if str_eq(at, "export") {
        SlashCmd::Export { path: arg }
    } else {
        SlashCmd::Unknown(name)
    };
    Some(cmd)
}

/// A path with a leading `~` replaced by the home directory, where that is
/// known.
pub open spec fn expanded(path: Seq<char>, home: Option<Seq<char>>) -> Seq<char> {
    match home {
        Some(h) => if path == "~"@ {
            h
        } else if starts_with(path, "~/"@) {
            h + path.skip(1)
        } else {
            path
        },
        None => path,
    }
}

/// A path with a leading `~` replaced by the home directory.
pub fn expand_tilde(path: &str, home: &Option<String>) -> (r: String)
    ensures
        r@ == expanded(path@, opt_text(*home)),
{
    match home {
        Some(h) => {
            if str_eq(path, "~") {
                h.clone()
            } else if has_prefix(path, "~/") {
                let chars = chars_of(path);
                let n: usize = chars.len();
                proof {
                    reveal_strlit("~/");
                }
                let tail = string_of(&chars, 1, n);
                assert(tail@ =~= path@.skip(1));
                cat2(h.as_str(), tail.as_str())
            } else {
                path.to_owned()
            }
        },
        None => path.to_owned(),
    }
}

/// Whether a path starts at the root.
pub fn is_absolute_path(path: &str) -> (r: bool)
    ensures
        r == starts_with(path@, "/"@),
{
    has_prefix(path, "/")
}

/// Whether a name is exactly that of a command.
pub open spec fn exact_command(name: Seq<char>) -> bool {
    name == "n"@ || exists|i: int| 0 <= i < SLASH_COMMAND_COUNT && name == #[trigger] command_name(i)
}

/// Whether a name is exactly that of a command.
pub fn is_exact_command(name: &str) -> (r: bool)
    ensures
        r == exact_command(name@),
{
    if str_eq(name, "n") {
        return true;
    }
    let mut i: usize = 0;
    while i < SLASH_COMMAND_COUNT
        invariant
            i <= SLASH_COMMAND_COUNT,
            name@ != "n"@,
            forall|j: int| 0 <= j < i ==> name@ != #[trigger] command_name(j),
        decreases SLASH_COMMAND_COUNT - i,
    {
        let d = slash_command(i);
        if str_eq(name, d.name) {
            assert(name@ == command_name(i as int));
            return true;
        }
        i += 1;
    }
    false
}

/// A completed command is one that is known.
pub proof fn law_completions_are_commands(typed: Seq<char>, k: int)
    requires
        0 <= k < completions(typed).len(),
    ensures
        exact_command(completions(typed)[k]),
        starts_with(completions(typed)[k], lowered(typed.skip(1))),
{
    lemma_completions(typed, SLASH_COMMAND_COUNT as nat, k);
}

proof fn lemma_completions(typed: Seq<char>, n: nat, k: int)
    requires
        n <= SLASH_COMMAND_COUNT,
        0 <= k < completions_to(typed, n).len(),
    ensures
        exact_command(completions_to(typed, n)[k]),
        starts_with(completions_to(typed, n)[k], lowered(typed.skip(1))),
    decreases n,
{
    if n > 0 {
        let rest = completions_to(typed, (n - 1) as nat);
        if k < rest.len() {
            lemma_completions(typed, (n - 1) as nat, k);
        } else {
            assert(completions_to(typed, n)[k] == command_name(n - 1));
        }
    }
}

} // verus!
