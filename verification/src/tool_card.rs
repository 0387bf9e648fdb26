//! Tool calls as styled lines: one-line calls, group lines and cards.

use crate::anim::{cell_text, AnimKind, AnimSink, AnimSlot};
use crate::decimal::{
    human_bytes, human_size, kilo_tenths, kilo_text, milli_tenths, milli_text, one_decimal,
};
use crate::json::{
    fields_view, json_doc, parse_json, JsonDoc, JsonDocView, JsonField, JsonFieldView,
};
use crate::render_line::{
    extend_rows, lemma_rows_add, lemma_rows_push, rows, sp, wrap_text, wrapped, RenderLine,
    SpanStyle, SpanView,
};
use crate::text::{
    blank, cat2, cat3, cat4, dec, dec_i64, dec_int, dec_usize, ellipsize, ellipsized,
    first_chars, has_prefix, is_blank, join, joined, lemma_texts_push, lines, lines_of,
    one_line, starts_with, str_eq, take_chars, texts, to_one_line, trim, trim_end, trimmed,
    trimmed_end, truncate_str, truncated,
};
use crate::timeline::{TimelineToolBody, TimelineToolHeader, TimelineToolState, ToolCard};
use crate::tool_diff::{diff_lines, diff_rows, less};
use crate::width::{str_width, text_columns};
use vstd::prelude::*;

verus! {

broadcast use {lemma_rows_push, lemma_rows_add, lemma_texts_push};

/// Tools that are always one line: their results are shown elsewhere.
pub open spec fn t1_tool(name: Seq<char>) -> bool {
    ||| name == "todo_write"@
    ||| name == "todo_update"@
    ||| name == "todo_list"@
    ||| name == "skills"@
    ||| name == "spawn_subagent"@
    ||| name == "web_search"@
}

/// Tools that are always one line.
pub fn is_t1_tool(name: &str) -> (r: bool)
    ensures
        r == t1_tool(name@),
{
    str_eq(name, "todo_write") || str_eq(name, "todo_update") || str_eq(name, "todo_list")
        || str_eq(name, "skills") || str_eq(name, "spawn_subagent") || str_eq(name, "web_search")
}

/// Tools whose result a panel of its own shows in full.
pub open spec fn panel_owned(name: Seq<char>) -> bool {
    ||| name == "todo_write"@
    ||| name == "todo_update"@
    ||| name == "todo_list"@
    ||| name == "todo"@
    ||| name == "ask"@
    ||| name == "skills"@
    ||| name == "spawn_subagent"@
}

/// Tools whose result a panel of its own shows in full.
pub fn is_panel_owned_tool(name: &str) -> (r: bool)
    ensures
        r == panel_owned(name@),
{
    str_eq(name, "todo_write") || str_eq(name, "todo_update") || str_eq(name, "todo_list")
        || str_eq(name, "todo") || str_eq(name, "ask") || str_eq(name, "skills") || str_eq(
        name,
        "spawn_subagent",
    )
}

/// What a panel-owned tool did, in a word.
pub open spec fn panel_note(name: Seq<char>) -> Seq<char> {
    if name == "ask"@ {
        "已回答"@
    } else if name == "spawn_subagent"@ {
        "已派发"@
    } else if name == "skills"@ {
        "已载入"@
    } else if name == "todo_list"@ {
        "已读取清单"@
    } else {
        "已更新面板"@
    }
}

/// What a panel-owned tool did, in a word.
pub fn panel_owned_note(name: &str) -> (r: &'static str)
    ensures
        r@ == panel_note(name@),
{
    if str_eq(name, "ask") {
        "已回答"
    } else if str_eq(name, "spawn_subagent") {
        "已派发"
    } else if str_eq(name, "skills") {
        "已载入"
    } else if str_eq(name, "todo_list") {
        "已读取清单"
    } else {
        "已更新面板"
    }
}

/// Tools that run commands.
pub open spec fn shell_tool(name: Seq<char>) -> bool {
    ||| name == "bash"@
    ||| name == "exec"@
    ||| name == "shell"@
    ||| name == "pwsh"@
    ||| name == "powershell"@
}

/// Tools that run commands.
pub fn is_shell_tool(name: &str) -> (r: bool)
    ensures
        r == shell_tool(name@),
{
    str_eq(name, "bash") || str_eq(name, "exec") || str_eq(name, "shell") || str_eq(name, "pwsh")
        || str_eq(name, "powershell")
}

/// The icon of a tool.
pub open spec fn icon_of(name: Seq<char>) -> Seq<char> {
    if shell_tool(name) {
        "$"@
    } else if name == "write"@ || name == "edit"@ {
        "←"@
    } else if name == "glob"@ || name == "grep"@ {
        "✱"@
    } else if name == "read"@ || name == "ask"@ || name == "question"@ || name == "skill"@ {
        "→"@
    } else if name == "web_fetch"@ || name == "webfetch"@ || name == "apply_patch"@ {
        "%"@
    } else if name == "web_search"@ || name == "websearch"@ {
        "◈"@
    } else if name == "task"@ {
        "│"@
    } else {
        "⚙"@
    }
}

/// The icon of a tool.
pub fn tool_icon(name: &str) -> (r: &'static str)
    ensures
        r@ == icon_of(name@),
{
    if is_shell_tool(name) {
        "$"
    } else if str_eq(name, "write") || str_eq(name, "edit") {
        "←"
    } else if str_eq(name, "glob") || str_eq(name, "grep") {
        "✱"
    } else if str_eq(name, "read") || str_eq(name, "ask") || str_eq(name, "question") || str_eq(
        name,
        "skill",
    ) {
        "→"
    } else if str_eq(name, "web_fetch") || str_eq(name, "webfetch") || str_eq(name, "apply_patch") {
        "%"
    } else if str_eq(name, "web_search") || str_eq(name, "websearch") {
        "◈"
    } else if str_eq(name, "task") {
        "│"
    } else {
        "⚙"
    }
}

/// Arguments are previewed in at most this many characters.
pub const ARG_PREVIEW: usize = 96;

/// Members that name a path, which the card's title shows already.
pub open spec fn path_key(key: Seq<char>) -> bool {
    key == "filePath"@ || key == "path"@ || key == "file_path"@
}

/// A member's part of the arguments preview.
pub open spec fn preview_part(key: Seq<char>, field: JsonFieldView) -> Option<Seq<char>> {
    if path_key(key) {
        None
    } else {
        match field {
            JsonFieldView::Text(s) => if s.len() > 0 {
                Some(key + "="@ + ellipsized(s, 40))
            } else {
                None
            },
            JsonFieldView::Number(n) => Some(key + "="@ + n),
            JsonFieldView::Bool(b) => Some(
                key + "="@ + if b {
                    "true"@
                } else {
                    "false"@
                },
            ),
            _ => None,
        }
    }
}

/// The parts of the arguments preview, at most `room`.
pub open spec fn preview_parts(fields: Seq<(Seq<char>, JsonFieldView)>, room: nat) -> Seq<Seq<char>>
    decreases fields.len(),
{
    if fields.len() == 0 || room == 0 {
        Seq::empty()
    } else {
        let rest = fields.drop_first();
        match preview_part(fields[0].0, fields[0].1) {
            Some(p) => seq![p] + preview_parts(rest, (room - 1) as nat),
            None => preview_parts(rest, room),
        }
    }
}

/// The preview of arguments that were read as `doc`: the first three plain
/// members of an object; the text itself where it is no JSON.
pub open spec fn args_preview(doc: JsonDocView, raw: Seq<char>) -> Seq<char> {
    match doc {
        JsonDocView::Invalid => ellipsized(one_line(raw), ARG_PREVIEW as nat),
        JsonDocView::Scalar => Seq::empty(),
        JsonDocView::Object(fields) => {
            let parts = preview_parts(fields, 3);
            if parts.len() == 0 {
                Seq::empty()
            } else {
                ellipsized("["@ + joined(parts, ", "@) + "]"@, ARG_PREVIEW as nat)
            }
        },
    }
}

fn part_of(key: &str, field: &JsonField) -> (r: Option<String>)
    ensures
        match r {
            Some(s) => preview_part(key@, field@) == Some(s@),
            None => preview_part(key@, field@) is None,
        },
{
    if str_eq(key, "filePath") || str_eq(key, "path") || str_eq(key, "file_path") {
        return None;
    }
    match field {
        JsonField::Text(s) => {
            if s.as_str().is_empty() {
                None
            } else {
                let short = ellipsize(s.as_str(), 40);
                Some(cat3(key, "=", short.as_str()))
            }
        },
        JsonField::Number(n) => Some(cat3(key, "=", n.as_str())),
        JsonField::Bool(b) => Some(
            cat3(
                key,
                "=",
                if *b {
                    "true"
                } else {
                    "false"
                },
            ),
        ),
        _ => None,
    }
}

/// The preview of arguments that were read as `doc`.
pub fn preview_of(doc: &JsonDoc, raw: &str) -> (r: String)
    ensures
        r@ == args_preview(doc@, raw@),
{
    match doc {
        JsonDoc::Invalid => {
            let one = to_one_line(raw);
            ellipsize(one.as_str(), ARG_PREVIEW)
        },
        JsonDoc::Scalar => String::new(),
        JsonDoc::Object(fields) => {
            let mut parts: Vec<String> = Vec::new();
            let ghost all = fields_view(fields@);
            let mut i: usize = 0;
            assert(all.skip(0) =~= all);
            assert(texts(parts@) =~= Seq::empty());
            while i < fields.len() && parts.len() < 3
                invariant
                    i <= fields@.len(),
                    all == fields_view(fields@),
                    parts@.len() <= 3,
                    texts(parts@) + preview_parts(all.skip(i as int), (3 - parts@.len()) as nat)
                        =~= preview_parts(all, 3),
                decreases fields@.len() - i,
            {
                proof {
                    assert(all.skip(i as int)[0] == (fields@[i as int].0@, fields@[i as int].1@));
                    assert(all.skip(i as int).drop_first() =~= all.skip(i + 1));
                }
                match part_of(fields[i].0.as_str(), &fields[i].1) {
                    Some(p) => {
                        parts.push(p);
                    },
                    None => {},
                }
                i += 1;
            }
            assert(texts(parts@) =~= preview_parts(all, 3));
            if parts.len() == 0 {
                return String::new();
            }
            let inner = join(&parts, ", ");
            let whole = cat3("[", inner.as_str(), "]");
            ellipsize(whole.as_str(), ARG_PREVIEW)
        },
    }
}

/// The preview of a call's arguments.
pub fn format_args_preview(args_json: &str) -> (r: String)
    ensures
        r@ == args_preview(json_doc(args_json@), args_json@),
{
    let doc = parse_json(args_json);
    preview_of(&doc, args_json)
}

/// The member `key` of an object.
pub open spec fn member(fields: Seq<(Seq<char>, JsonFieldView)>, key: Seq<char>) -> Option<
    JsonFieldView,
>
    decreases fields.len(),
{
    if fields.len() == 0 {
        None
    } else if fields[0].0 == key {
        Some(fields[0].1)
    } else {
        member(fields.drop_first(), key)
    }
}

/// The output that a command result read as `doc` carries.
pub open spec fn wrapped_output(doc: JsonDocView) -> Option<Seq<char>> {
    match doc {
        JsonDocView::Object(fields) => match member(fields, "output"@) {
            Some(JsonFieldView::Text(s)) => Some(s),
            Some(JsonFieldView::Bool(b)) => Some(
                if b {
                    "true"@
                } else {
                    "false"@
                },
            ),
            Some(JsonFieldView::Number(s)) => Some(s),
            Some(JsonFieldView::Nested(s)) => Some(s),
            _ => None,
        },
        _ => None,
    }
}

/// The output that a command result read as `doc` carries.
pub fn output_of(doc: &JsonDoc) -> (r: Option<String>)
    ensures
        match r {
            Some(s) => wrapped_output(doc@) == Some(s@),
            None => wrapped_output(doc@) is None,
        },
{
    match doc {
        JsonDoc::Object(fields) => {
            let ghost all = fields_view(fields@);
            let mut i: usize = 0;
            assert(all.skip(0) =~= all);
            while i < fields.len() && !str_eq(fields[i].0.as_str(), "output")
                invariant
                    i <= fields@.len(),
                    all == fields_view(fields@),
                    member(all.skip(i as int), "output"@) == member(all, "output"@),
                decreases fields@.len() - i,
            {
                proof {
                    assert(all.skip(i as int)[0] == (fields@[i as int].0@, fields@[i as int].1@));
                    assert(all.skip(i as int).drop_first() =~= all.skip(i + 1));
                }
                i += 1;
            }
            if i == fields.len() {
                assert(all.skip(i as int).len() == 0);
                return None;
            }
            proof {
                assert(all.skip(i as int)[0] == (fields@[i as int].0@, fields@[i as int].1@));
            }
            match &fields[i].1 {
                JsonField::Null => None,
                JsonField::Text(s) => Some(s.clone()),
                JsonField::Number(s) => Some(s.clone()),
                JsonField::Nested(s) => Some(s.clone()),
                JsonField::Bool(b) => Some(
                    if *b {
                        "true".to_owned()
                    } else {
                        "false".to_owned()
                    },
                ),
            }
        },
        _ => None,
    }
}

/// The output inside a command result, where `raw` is one.
pub open spec fn shell_output(raw: Seq<char>) -> Option<Seq<char>> {
    let s = trim(raw);
    if starts_with(s, "{"@) {
        wrapped_output(json_doc(s))
    } else {
        None
    }
}

/// The output inside a command result, where `raw` is one.
pub fn extract_shell_output_text(raw: &str) -> (r: Option<String>)
    ensures
        match r {
            Some(s) => shell_output(raw@) == Some(s@),
            None => shell_output(raw@) is None,
        },
{
    let s = trimmed(raw);
    if !has_prefix(s.as_str(), "{") {
        return None;
    }
    let doc = parse_json(s.as_str());
    output_of(&doc)
}

/// Standard output and standard error in one text, told apart where both are
/// there.
pub open spec fn streams_body(stdout: Seq<char>, stderr: Seq<char>) -> Option<Seq<char>> {
    let o = trim_end(stdout);
    let e = trim_end(stderr);
    if o.len() == 0 && e.len() == 0 {
        None
    } else if e.len() == 0 {
        Some(o)
    } else if o.len() == 0 {
        Some("stderr:\n"@ + e)
    } else {
        Some("stdout:\n"@ + o + "\nstderr:\n"@ + e)
    }
}

/// Standard output and standard error in one text.
pub fn render_streams_body(stdout: &str, stderr: &str) -> (r: Option<String>)
    ensures
        match r {
            Some(s) => streams_body(stdout@, stderr@) == Some(s@),
            None => streams_body(stdout@, stderr@) is None,
        },
{
    let o = trimmed_end(stdout);
    let e = trimmed_end(stderr);
    if o.as_str().is_empty() && e.as_str().is_empty() {
        None
    } else if e.as_str().is_empty() {
        Some(o)
    } else if o.as_str().is_empty() {
        Some(cat2("stderr:\n", e.as_str()))
    } else {
        Some(cat4("stdout:\n", o.as_str(), "\nstderr:\n", e.as_str()))
    }
}

/// Lines behind a common prefix.
pub open spec fn prefixed_rows(
    ls: Seq<Seq<char>>,
    prefix: Seq<char>,
    prefix_style: SpanStyle,
    style: SpanStyle,
) -> Seq<Seq<SpanView>> {
    Seq::new(ls.len(), |i: int| seq![sp(prefix, prefix_style), sp(ls[i], style)])
}

/// Lines behind a common prefix.
pub fn prefixed_lines(
    ls: &Vec<String>,
    prefix: &str,
    prefix_style: SpanStyle,
    style: SpanStyle,
) -> (out: Vec<RenderLine>)
    ensures
        rows(out@) == prefixed_rows(texts(ls@), prefix@, prefix_style, style),
{
    let mut out: Vec<RenderLine> = Vec::new();
    let ghost want = prefixed_rows(texts(ls@), prefix@, prefix_style, style);
    let mut i: usize = 0;
    while i < ls.len()
        invariant
            i <= ls@.len(),
            want == prefixed_rows(texts(ls@), prefix@, prefix_style, style),
            rows(out@) =~= want.take(i as int),
        decreases ls@.len() - i,
    {
        let line = RenderLine::new().span(prefix, prefix_style).span(ls[i].as_str(), style);
        assert(line@ == want[i as int]);
        out.push(line);
        i += 1;
        assert(want.take(i as int) =~= want.take(i - 1).push(want[i - 1]));
    }
    assert(want.take(i as int) =~= want);
    out
}

/// A finished card shows this many lines of either end of its body.
pub const TOOL_BODY_EDGE: usize = 3;

/// A running card shows this many of the last lines of its body.
pub const TOOL_BODY_RUNNING_TAIL: usize = 6;

/// The lines of a card's body that are shown, each with its number in the body,
/// and where how many of them are left out.
#[derive(Debug)]
pub struct ToolBodyWindow {
    pub lines: Vec<(usize, String)>,
    pub fold: Option<(usize, usize)>,
}

/// What a window shows.
pub open spec fn numbered(v: Seq<(usize, String)>) -> Seq<(usize, Seq<char>)> {
    Seq::new(v.len(), |i: int| (v[i].0, v[i].1@))
}

/// Which line of the body the `i`-th shown line is.
pub open spec fn window_line(total: nat, running: bool, i: int) -> int {
    if running {
        less(total, TOOL_BODY_RUNNING_TAIL as nat) + i
    } else if total <= 2 * TOOL_BODY_EDGE || i < TOOL_BODY_EDGE {
        i
    } else {
        total - 2 * TOOL_BODY_EDGE + i
    }
}

/// How many lines of a body are shown: never more than six.
pub open spec fn window_len(total: nat) -> nat {
    if total <= 6 {
        total
    } else {
        6
    }
}

/// How many lines of a body are left out, and before which shown line that is
/// said.
pub open spec fn window_fold(total: nat, running: bool) -> Option<(usize, usize)> {
    if running || total <= 2 * TOOL_BODY_EDGE {
        None
    } else {
        Some((TOOL_BODY_EDGE, (total - 2 * TOOL_BODY_EDGE) as usize))
    }
}

/// The window of a card's body: the last lines of a running call; both ends of
/// a finished one.
pub fn tool_body_window(text: &str, running: bool) -> (w: ToolBodyWindow)
    ensures
        ({
            let all = lines(text@);
            &&& numbered(w.lines@) == Seq::new(
                window_len(all.len()),
                |i: int|
                    (
                        window_line(all.len(), running, i) as usize,
                        all[window_line(all.len(), running, i)],
                    ),
            )
            &&& w.fold == window_fold(all.len(), running)
            &&& forall|i: int|
                0 <= i < window_len(all.len()) ==> 0 <= #[trigger] window_line(
                    all.len(),
                    running,
                    i,
                ) < all.len()
        }),
{
    let all = lines_of(text);
    let total: usize = all.len();
    let n: usize = if total <= 6 {
        total
    } else {
        6
    };
    let mut shown: Vec<(usize, String)> = Vec::new();
    let ghost want = Seq::new(
        window_len(total as nat),
        |i: int|
            (
                window_line(total as nat, running, i) as usize,
                lines(text@)[window_line(total as nat, running, i)],
            ),
    );
    let mut i: usize = 0;
    while i < n
        invariant
            i <= n,
            n == window_len(total as nat),
            total == all@.len(),
            texts(all@) == lines(text@),
            want == Seq::new(
                window_len(total as nat),
                |i: int|
                    (
                        window_line(total as nat, running, i) as usize,
                        lines(text@)[window_line(total as nat, running, i)],
                    ),
            ),
            numbered(shown@) =~= want.take(i as int),
        decreases n - i,
    {
        let at: usize = if running {
            total.saturating_sub(6) + i
        } else if total <= 6 || i < 3 {
            i
        } else {
            total - 6 + i
        };
        assert(at == window_line(total as nat, running, i as int));
        assert(lines(text@)[at as int] == all@[at as int]@);
        let line = all[at].clone();
        assert((at, line@) == want[i as int]);
        shown.push((at, line));
        i += 1;
        assert(want.take(i as int) =~= want.take(i - 1).push(want[i - 1]));
        assert(numbered(shown@) =~= want.take(i as int));
    }
    assert(want.take(i as int) =~= want);
    let fold: Option<(usize, usize)> = if running || total <= 6 {
        None
    } else {
        Some((3, total - 6))
    };
    ToolBodyWindow { lines: shown, fold }
}

/// The line that counts what a body leaves out.
pub open spec fn fold_row(prefix: Seq<char>, folded: nat) -> Seq<SpanView> {
    seq![sp(prefix, SpanStyle::Dim), sp("…折叠 "@ + dec(folded) + " 行…"@, SpanStyle::Dim)]
}

fn tool_body_fold_line(prefix: &str, folded: usize) -> (l: RenderLine)
    ensures
        l@ == fold_row(prefix@, folded as nat),
{
    let n = dec_usize(folded);
    let text = cat3("…折叠 ", n.as_str(), " 行…");
    RenderLine::new().span(prefix, SpanStyle::Dim).span(text.as_str(), SpanStyle::Dim)
}

/// The first `n` shown lines of a body, wrapped, with the fold line before the
/// line it belongs to.
pub open spec fn window_rows(
    all: Seq<Seq<char>>,
    running: bool,
    prefix: Seq<char>,
    width: nat,
    n: nat,
) -> Seq<Seq<SpanView>>
    decreases n,
{
    if n == 0 {
        Seq::empty()
    } else {
        let i = n - 1;
        let fold = match window_fold(all.len(), running) {
            Some((at, k)) => if at == i {
                seq![fold_row(prefix, k as nat)]
            } else {
                Seq::empty()
            },
            None => Seq::empty(),
        };
        window_rows(all, running, prefix, width, i as nat) + fold + prefixed_rows(
            wrapped(all[window_line(all.len(), running, i)], width),
            prefix,
            SpanStyle::Dim,
            SpanStyle::Dim,
        )
    }
}

/// A card's body.
pub open spec fn body_rows(text: Seq<char>, running: bool, prefix: Seq<char>, width: nat) -> Seq<
    Seq<SpanView>,
> {
    let all = lines(text);
    window_rows(all, running, prefix, width, window_len(all.len()))
}

fn body_lines(text: &str, running: bool, prefix: &str, width: usize) -> (out: Vec<RenderLine>)
    ensures
        rows(out@) == body_rows(text@, running, prefix@, width as nat),
{
    let w = tool_body_window(text, running);
    let ghost all = lines(text@);
    let mut out: Vec<RenderLine> = Vec::new();
    let mut i: usize = 0;
    assert(rows(out@) =~= Seq::empty());
    assert(numbered(w.lines@).len() == window_len(all.len()));
    while i < w.lines.len()
        invariant
            i <= w.lines@.len(),
            all == lines(text@),
            w.lines@.len() == window_len(all.len()),
            numbered(w.lines@) == Seq::new(
                window_len(all.len()),
                |i: int|
                    (
                        window_line(all.len(), running, i) as usize,
                        all[window_line(all.len(), running, i)],
                    ),
            ),
            w.fold == window_fold(all.len(), running),
            rows(out@) == window_rows(all, running, prefix@, width as nat, i as nat),
        decreases w.lines@.len() - i,
    {
        let ghost before_rows = rows(out@);
        match w.fold {
            Some((at, k)) => {
                if i == at {
                    out.push(tool_body_fold_line(prefix, k));
                }
            },
            None => {},
        }
        let ghost fold = match window_fold(all.len(), running) {
            Some((at, k)) => if at == i {
                seq![fold_row(prefix@, k as nat)]
            } else {
                Seq::empty()
            },
            None => Seq::empty(),
        };
        assert(rows(out@) =~= before_rows + fold);
        proof {
            assert(numbered(w.lines@)[i as int].1 == all[window_line(
                all.len(),
                running,
                i as int,
            )]);
        }
        let segs = wrap_text(w.lines[i].1.as_str(), width);
        let more = prefixed_lines(&segs, prefix, SpanStyle::Dim, SpanStyle::Dim);
        extend_rows(&mut out, more);
        i += 1;
    }
    out
}

/// A finished or running card shows at most six lines of its body, and one
/// more that counts those left out.
pub proof fn law_body_window_is_small(total: nat, running: bool)
    requires
        total <= usize::MAX,
    ensures
        window_len(total) <= 6,
        window_fold(total, running) matches Some((at, k)) ==> window_len(total) + k == total && k > 0,
        window_fold(total, running) is None ==> running || window_len(total) == total,
        forall|i: int, j: int|
            0 <= i < j < window_len(total) ==> window_line(total, running, i) < window_line(
                total,
                running,
                j,
            ),
{
}

/// The path that a projected header names.
pub open spec fn title_path(tool: ToolCard) -> Option<Seq<char>> {
    match tool.display {
        Some(d) => match d.header {
            Some(TimelineToolHeader::Path { path, .. }) => Some(path@),
            _ => None,
        },
        None => None,
    }
}

/// The command that a projected header names.
pub open spec fn title_command(tool: ToolCard) -> Option<Seq<char>> {
    match tool.display {
        Some(d) => match d.header {
            Some(TimelineToolHeader::Shell { command }) => Some(command@),
            _ => None,
        },
        None => None,
    }
}

/// The text in an option, empty where there is none.
pub open spec fn or_empty(o: Option<String>) -> Seq<char> {
    match o {
        Some(s) => s@,
        None => Seq::empty(),
    }
}

/// The projected summary, empty where there is none.
pub open spec fn projected_summary(tool: ToolCard) -> Seq<char> {
    match tool.display {
        Some(d) => or_empty(d.summary),
        None => Seq::empty(),
    }
}

/// The projected body.
pub open spec fn projected_body(tool: ToolCard) -> Option<TimelineToolBody> {
    match tool.display {
        Some(d) => d.body,
        None => None,
    }
}

fn display_path_title(tool: &ToolCard) -> (r: Option<&String>)
    ensures
        match r {
            Some(s) => title_path(*tool) == Some(s@),
            None => title_path(*tool) is None,
        },
{
    match &tool.display {
        Some(d) => match &d.header {
            Some(TimelineToolHeader::Path { path, .. }) => Some(path),
            _ => None,
        },
        None => None,
    }
}

fn display_shell_command(tool: &ToolCard) -> (r: Option<&String>)
    ensures
        match r {
            Some(s) => title_command(*tool) == Some(s@),
            None => title_command(*tool) is None,
        },
{
    match &tool.display {
        Some(d) => match &d.header {
            Some(TimelineToolHeader::Shell { command }) => Some(command),
            _ => None,
        },
        None => None,
    }
}

fn text_or_empty(o: &Option<String>) -> (r: &str)
    ensures
        r@ == or_empty(*o),
{
    match o {
        Some(s) => s.as_str(),
        None => {
            proof {
                reveal_strlit("");
                assert(""@ =~= Seq::empty());
            }
            ""
        },
    }
}

fn display_summary(tool: &ToolCard) -> (r: &str)
    ensures
        r@ == projected_summary(*tool),
{
    match &tool.display {
        Some(d) => text_or_empty(&d.summary),
        None => text_or_empty(&None),
    }
}

fn display_body(tool: &ToolCard) -> (r: Option<&TimelineToolBody>)
    ensures
        match r {
            Some(b) => projected_body(*tool) == Some(*b),
            None => projected_body(*tool) is None,
        },
{
    match &tool.display {
        Some(d) => d.body.as_ref(),
        None => None,
    }
}

/// What an inline card says behind the tool's name: the path, the command or
/// the summary, cut short.
pub open spec fn header_extra(tool: ToolCard) -> Seq<char> {
    match title_path(tool) {
        Some(p) => " "@ + truncated(p, 36),
        None => match title_command(tool) {
            Some(c) if c.len() > 0 => " "@ + first_chars(one_line(c), 64),
            _ => {
                let own = or_empty(tool.summary);
                let s = projected_summary(tool);
                if s.len() > 0 {
                    " "@ + first_chars(one_line(s), 48)
                } else if own.len() > 0 {
                    " "@ + first_chars(one_line(own), 48)
                } else {
                    Seq::empty()
                }
            },
        },
    }
}

fn short_line(s: &str, n: usize) -> (r: String)
    ensures
        r@ == " "@ + first_chars(one_line(s@), n as nat),
{
    let one = to_one_line(s);
    let cut = take_chars(one.as_str(), n);
    cat2(" ", cut.as_str())
}

fn header_extra_text(tool: &ToolCard) -> (r: String)
    ensures
        r@ == header_extra(*tool),
{
    match display_path_title(tool) {
        Some(p) => {
            let short = truncate_str(p.as_str(), 36);
            return cat2(" ", short.as_str());
        },
        None => {},
    }
    match display_shell_command(tool) {
        Some(c) => {
            if !c.as_str().is_empty() {
                return short_line(c.as_str(), 64);
            }
        },
        None => {},
    }
    let s = display_summary(tool);
    if !s.is_empty() {
        return short_line(s, 48);
    }
    let own = text_or_empty(&tool.summary);
    if !own.is_empty() {
        return short_line(own, 48);
    }
    String::new()
}

/// Whether a call is running.
pub open spec fn running(tool: ToolCard) -> bool {
    tool.state == TimelineToolState::Running
}

/// Whether a call carries a diff of its own.
pub open spec fn has_diff(tool: ToolCard) -> bool {
    match tool.diff {
        Some(d) => !blank(d@),
        None => false,
    }
}

/// How many lines of output and progress a call has.
pub open spec fn output_len(tool: ToolCard) -> nat {
    lines(or_empty(tool.output)).len() + lines(tool.progress@).len()
}

/// Whether a call is shown as a block with a left edge: it carries a diff, more
/// than a few lines, live progress or a projected body.
pub open spec fn is_block(tool: ToolCard) -> bool {
    ||| has_diff(tool)
    ||| output_len(tool) > 4
    ||| (running(tool) && tool.progress@.len() > 0)
    ||| match projected_body(tool) {
        Some(TimelineToolBody::Shell { .. }) => true,
        Some(TimelineToolBody::Streams { .. }) => true,
        Some(TimelineToolBody::Diff { .. }) => true,
        Some(TimelineToolBody::Text { .. }) => true,
        _ => false,
    }
}

fn has_diff_text(tool: &ToolCard) -> (r: bool)
    ensures
        r == has_diff(*tool),
{
    match &tool.diff {
        Some(d) => !is_blank(d.as_str()),
        None => false,
    }
}

/// How many lines of output and progress a call has, up to five.
fn output_lines(tool: &ToolCard) -> (n: usize)
    ensures
        (n == 0) == (output_len(*tool) == 0),
        (n > 4) == (output_len(*tool) > 4),
{
    let a: usize = lines_of(text_or_empty(&tool.output)).len();
    let b: usize = lines_of(tool.progress.as_str()).len();
    a.saturating_add(b)
}

fn is_block_card(tool: &ToolCard) -> (r: bool)
    ensures
        r == is_block(*tool),
{
    let diff = has_diff_text(tool);
    let n = output_lines(tool);
    let live = tool.state == TimelineToolState::Running && !tool.progress.as_str().is_empty();
    let body = match display_body(tool) {
        Some(TimelineToolBody::Shell { .. }) => true,
        Some(TimelineToolBody::Streams { .. }) => true,
        Some(TimelineToolBody::Diff { .. }) => true,
        Some(TimelineToolBody::Text { .. }) => true,
        _ => false,
    };
    diff || n > 4 || live || body
}

/// The icon of a call that is not running.
pub open spec fn state_icon(tool: ToolCard) -> Seq<char> {
    match tool.state {
        TimelineToolState::Succeeded => "●"@,
        TimelineToolState::Failed => "✗"@,
        TimelineToolState::Cancelled => "⊘"@,
        TimelineToolState::Backgrounded => "◐"@,
        _ => icon_of(tool.name@),
    }
}

fn state_icon_text(tool: &ToolCard) -> (r: &'static str)
    ensures
        r@ == state_icon(*tool),
{
    match tool.state {
        TimelineToolState::Succeeded => "●",
        TimelineToolState::Failed => "✗",
        TimelineToolState::Cancelled => "⊘",
        TimelineToolState::Backgrounded => "◐",
        _ => tool_icon(tool.name.as_str()),
    }
}

/// The style of a call's icon and state: a pending permission outranks the
/// state.
pub open spec fn state_style(tool: ToolCard) -> SpanStyle {
    if tool.permission is Some {
        SpanStyle::Warn
    } else {
        match tool.state {
            TimelineToolState::Prepared => SpanStyle::Dim,
            TimelineToolState::Running => SpanStyle::ToolRun,
            TimelineToolState::Succeeded => SpanStyle::ToolOk,
            TimelineToolState::Failed => SpanStyle::ToolFail,
            TimelineToolState::Cancelled => SpanStyle::Warn,
            TimelineToolState::Backgrounded => SpanStyle::Warn,
        }
    }
}

fn state_style_of(tool: &ToolCard) -> (r: SpanStyle)
    ensures
        r == state_style(*tool),
{
    if tool.permission.is_some() {
        SpanStyle::Warn
    } else {
        match tool.state {
            TimelineToolState::Prepared => SpanStyle::Dim,
            TimelineToolState::Running => SpanStyle::ToolRun,
            TimelineToolState::Succeeded => SpanStyle::ToolOk,
            TimelineToolState::Failed => SpanStyle::ToolFail,
            TimelineToolState::Cancelled => SpanStyle::Warn,
            TimelineToolState::Backgrounded => SpanStyle::Warn,
        }
    }
}

/// The word for a call's state.
pub open spec fn state_label(state: TimelineToolState) -> Seq<char> {
    match state {
        TimelineToolState::Running => " running"@,
        TimelineToolState::Succeeded => " completed"@,
        TimelineToolState::Failed => " failed"@,
        TimelineToolState::Prepared => " prepared"@,
        TimelineToolState::Cancelled => " cancelled"@,
        TimelineToolState::Backgrounded => " backgrounded"@,
    }
}

fn state_label_text(state: TimelineToolState) -> (r: &'static str)
    ensures
        r@ == state_label(state),
{
    match state {
        TimelineToolState::Running => " running",
        TimelineToolState::Succeeded => " completed",
        TimelineToolState::Failed => " failed",
        TimelineToolState::Prepared => " prepared",
        TimelineToolState::Cancelled => " cancelled",
        TimelineToolState::Backgrounded => " backgrounded",
    }
}

/// How much a running call has put out so far, and on which stream other than
/// standard output.
pub open spec fn bytes_note(tool: ToolCard) -> Option<Seq<char>> {
    if !running(tool) || tool.progress_bytes_total == 0 {
        None
    } else {
        let s = " ↓ "@ + human_size(tool.progress_bytes_total as nat);
        let stream = or_empty(tool.progress_stream);
        if stream.len() > 0 && stream != "stdout"@ {
            Some(s + " · "@ + stream)
        } else {
            Some(s)
        }
    }
}

/// How much a running call has put out so far.
pub fn progress_bytes_note(tool: &ToolCard) -> (r: Option<String>)
    ensures
        match r {
            Some(s) => bytes_note(*tool) == Some(s@),
            None => bytes_note(*tool) is None,
        },
{
    if tool.state != TimelineToolState::Running || tool.progress_bytes_total == 0 {
        return None;
    }
    let size = human_bytes(tool.progress_bytes_total);
    let mut s = cat2(" ↓ ", size.as_str());
    let stream = text_or_empty(&tool.progress_stream);
    if !stream.is_empty() && !str_eq(stream, "stdout") {
        s.push_str(" · ");
        s.push_str(stream);
    }
    Some(s)
}

/// The icon cell of a card's state.
pub open spec fn icon_cell(tool: ToolCard, bake: Option<u64>) -> Seq<char> {
    if running(tool) {
        cell_text(bake, AnimKind::Spinner) + " "@
    } else {
        state_icon(tool) + " "@
    }
}

/// The slot of a card that begins at line `base` of its block: the wheel of a
/// running call.
pub open spec fn card_slots(tool: ToolCard, base: nat) -> Seq<AnimSlot> {
    if running(tool) {
        if is_block(tool) {
            seq![
                AnimSlot {
                    row: (base + 1) as u16,
                    col: text_columns(" ┃ "@) as u16,
                    kind: AnimKind::Spinner,
                },
            ]
        } else {
            seq![
                AnimSlot {
                    row: base as u16,
                    col: text_columns("  "@) as u16,
                    kind: AnimKind::Spinner,
                },
            ]
        }
    } else {
        Seq::empty()
    }
}

/// A span that is there only under a condition.
pub open spec fn maybe(on: bool, text: Seq<char>, style: SpanStyle) -> Seq<SpanView> {
    if on {
        seq![sp(text, style)]
    } else {
        Seq::empty()
    }
}

/// The title of a block card.
pub open spec fn title_text(tool: ToolCard, width: nat) -> Seq<char> {
    let name = "# "@ + tool.name@;
    match title_path(tool) {
        Some(p) => name + " "@ + truncated(p, less(width, 10)),
        None => match title_command(tool) {
            Some(c) if c.len() > 0 => name + " "@ + truncated(c, less(width, 10)),
            _ => name,
        },
    }
}

fn block_title(tool: &ToolCard, width: usize) -> (r: String)
    ensures
        r@ == title_text(*tool, width as nat),
{
    let name = cat2("# ", tool.name.as_str());
    match display_path_title(tool) {
        Some(p) => {
            let cut = truncate_str(p.as_str(), width.saturating_sub(10));
            return cat3(name.as_str(), " ", cut.as_str());
        },
        None => {},
    }
    match display_shell_command(tool) {
        Some(c) => {
            if !c.as_str().is_empty() {
                let cut = truncate_str(c.as_str(), width.saturating_sub(10));
                return cat3(name.as_str(), " ", cut.as_str());
            }
        },
        None => {},
    }
    name
}

/// The two head lines of a block card: title and state.
pub open spec fn block_head(tool: ToolCard, width: nat, bake: Option<u64>) -> Seq<Seq<SpanView>> {
    let sum = projected_summary(tool);
    let note = bytes_note(tool);
    seq![
        seq![sp(" ┃ "@, SpanStyle::Dim), sp(title_text(tool, width), SpanStyle::Dim)] + maybe(
            sum.len() > 0,
            " "@ + truncated(sum, 48),
            SpanStyle::Plain,
        ),
        seq![
            sp(" ┃ "@, SpanStyle::Dim),
            sp(icon_cell(tool, bake), state_style(tool)),
            sp(tool.name@, SpanStyle::Accent),
            sp(state_label(tool.state), state_style(tool)),
        ] + maybe(note is Some, note->0, SpanStyle::Dim) + seq![
            sp(
                if running(tool) {
                    " ⋯"@
                } else {
                    ""@
                },
                SpanStyle::Dim,
            ),
        ],
    ]
}

fn icon_text(tool: &ToolCard, edge: &str, row: u16, anim: &mut AnimSink) -> (r: String)
    ensures
        r@ == icon_cell(*tool, old(anim).bake()),
        old(anim).takes(
            if running(*tool) {
                seq![
                    AnimSlot { row, col: text_columns(edge@) as u16, kind: AnimKind::Spinner },
                ]
            } else {
                Seq::empty()
            },
            final(anim),
        ),
{
    if tool.state == TimelineToolState::Running {
        let col = str_width(edge);
        let g = anim.cell(AnimKind::Spinner, row, col as u16);
        cat2(g, " ")
    } else {
        assert(anim.slots() + Seq::<AnimSlot>::empty() =~= anim.slots());
        cat2(state_icon_text(tool), " ")
    }
}

fn block_head_lines(tool: &ToolCard, width: usize, base: usize, anim: &mut AnimSink) -> (out: Vec<
    RenderLine,
>)
    requires
        is_block(*tool),
        base < usize::MAX,
    ensures
        rows(out@) == block_head(*tool, width as nat, old(anim).bake()),
        old(anim).takes(card_slots(*tool, base as nat), final(anim)),
{
    let mut out: Vec<RenderLine> = Vec::new();
    assert(rows(out@) =~= Seq::empty());
    let title = block_title(tool, width);
    let mut first = RenderLine::new().span(" ┃ ", SpanStyle::Dim).span(
        title.as_str(),
        SpanStyle::Dim,
    );
    let sum = display_summary(tool);
    if !sum.is_empty() {
        let cut = truncate_str(sum, 48);
        let text = cat2(" ", cut.as_str());
        first = first.span(text.as_str(), SpanStyle::Plain);
    }
    let ghost want = block_head(*tool, width as nat, anim.bake());
    assert(first@ =~= want[0]);
    out.push(first);
    let style = state_style_of(tool);
    let icon = icon_text(tool, " ┃ ", (base + 1) as u16, anim);
    let mut second = RenderLine::new().span(" ┃ ", SpanStyle::Dim).span(icon.as_str(), style).span(
        tool.name.as_str(),
        SpanStyle::Accent,
    ).span(state_label_text(tool.state), style);
    match progress_bytes_note(tool) {
        Some(note) => {
            second = second.span(note.as_str(), SpanStyle::Dim);
        },
        None => {},
    }
    second = second.span(
        if tool.state == TimelineToolState::Running {
            " ⋯"
        } else {
            ""
        },
        SpanStyle::Dim,
    );
    assert(second@ =~= want[1]);
    out.push(second);
    assert(rows(out@) =~= want);
    out
}

/// The one head line of an inline card.
pub open spec fn inline_head(tool: ToolCard, bake: Option<u64>) -> Seq<SpanView> {
    let extra = header_extra(tool);
    let note = bytes_note(tool);
    seq![
        sp("  "@, SpanStyle::Dim),
        sp(icon_cell(tool, bake), state_style(tool)),
        sp(
            tool.name@,
            if tool.permission is Some {
                SpanStyle::Warn
            } else {
                SpanStyle::Accent
            },
        ),
    ] + maybe(
        !blank(extra),
        extra,
        if tool.state == TimelineToolState::Succeeded {
            SpanStyle::Dim
        } else {
            SpanStyle::Plain
        },
    ) + seq![
        sp(
            if running(tool) {
                " ⋯"@
            } else {
                ""@
            },
            SpanStyle::Dim,
        ),
    ] + maybe(note is Some, note->0, SpanStyle::Dim) + maybe(
        panel_owned(tool.name@),
        " · "@ + panel_note(tool.name@),
        if tool.state == TimelineToolState::Failed {
            SpanStyle::ToolFail
        } else {
            SpanStyle::Dim
        },
    ) + inline_alert(tool)
}

/// What an inline card ends with: a pending permission, or else the failure.
pub open spec fn inline_alert(tool: ToolCard) -> Seq<SpanView> {
    if tool.permission is Some {
        seq![sp(" ⚠ 需授权"@, SpanStyle::Warn)]
    } else {
        match tool.failure {
            Some(f) => seq![sp(" ✗ "@ + truncated(f.message@, 28), SpanStyle::ToolFail)],
            None => Seq::empty(),
        }
    }
}

fn inline_head_line(tool: &ToolCard, base: usize, anim: &mut AnimSink) -> (l: RenderLine)
    requires
        !is_block(*tool),
    ensures
        l@ == inline_head(*tool, old(anim).bake()),
        old(anim).takes(card_slots(*tool, base as nat), final(anim)),
{
    let ghost bake = anim.bake();
    let style = state_style_of(tool);
    let icon = icon_text(tool, "  ", base as u16, anim);
    let mut l = RenderLine::new().span("  ", SpanStyle::Dim).span(icon.as_str(), style).span(
        tool.name.as_str(),
        if tool.permission.is_some() {
            SpanStyle::Warn
        } else {
            SpanStyle::Accent
        },
    );
    let extra = header_extra_text(tool);
    if !is_blank(extra.as_str()) {
        l = l.span(
            extra.as_str(),
            if tool.state == TimelineToolState::Succeeded {
                SpanStyle::Dim
            } else {
                SpanStyle::Plain
            },
        );
    }
    l = l.span(
        if tool.state == TimelineToolState::Running {
            " ⋯"
        } else {
            ""
        },
        SpanStyle::Dim,
    );
    match progress_bytes_note(tool) {
        Some(note) => {
            l = l.span(note.as_str(), SpanStyle::Dim);
        },
        None => {},
    }
    if is_panel_owned_tool(tool.name.as_str()) {
        let text = cat2(" · ", panel_owned_note(tool.name.as_str()));
        l = l.span(
            text.as_str(),
            if tool.state == TimelineToolState::Failed {
                SpanStyle::ToolFail
            } else {
                SpanStyle::Dim
            },
        );
    }
    if tool.permission.is_some() {
        l = l.span(" ⚠ 需授权", SpanStyle::Warn);
    } else {
        match &tool.failure {
            Some(f) => {
                let cut = truncate_str(f.message.as_str(), 28);
                let text = cat2(" ✗ ", cut.as_str());
                l = l.span(text.as_str(), SpanStyle::ToolFail);
            },
            None => {},
        }
    }
    assert(l@ =~= inline_head(*tool, bake));
    l
}

/// The arguments of a call, unless its title or a projected body shows them.
pub open spec fn args_rows(tool: ToolCard, width: nat) -> Seq<Seq<SpanView>> {
    let args = or_empty(tool.args_json);
    let preview = args_preview(json_doc(args), args);
    if title_command(tool) is Some || projected_body(tool) is Some || args.len() == 0 || args
        == "{}"@ || preview.len() == 0 {
        Seq::empty()
    } else {
        prefixed_rows(
            wrapped(one_line(preview), less(width, 6)),
            if is_block(tool) {
                " ┃ ⌗ "@
            } else {
                "    ⌗ "@
            },
            SpanStyle::Dim,
            SpanStyle::Dim,
        )
    }
}

fn args_lines(tool: &ToolCard, block: bool, width: usize) -> (out: Vec<RenderLine>)
    requires
        block == is_block(*tool),
    ensures
        rows(out@) == args_rows(*tool, width as nat),
{
    let args = text_or_empty(&tool.args_json);
    if display_shell_command(tool).is_some() || display_body(tool).is_some() || args.is_empty()
        || str_eq(args, "{}") {
        let out: Vec<RenderLine> = Vec::new();
        assert(rows(out@) =~= Seq::empty());
        return out;
    }
    let preview = format_args_preview(args);
    if preview.as_str().is_empty() {
        let out: Vec<RenderLine> = Vec::new();
        assert(rows(out@) =~= Seq::empty());
        return out;
    }
    let one = to_one_line(preview.as_str());
    let segs = wrap_text(one.as_str(), width.saturating_sub(6));
    prefixed_lines(
        &segs,
        if block {
            " ┃ ⌗ "
        } else {
            "    ⌗ "
        },
        SpanStyle::Dim,
        SpanStyle::Dim,
    )
}

/// The diff that a card shows: the projected one, or else the call's own.
pub open spec fn diff_source(tool: ToolCard) -> Option<Seq<char>> {
    match projected_body(tool) {
        Some(TimelineToolBody::Diff { unified, .. }) => Some(unified@),
        _ => match tool.diff {
            Some(d) => Some(d@),
            None => None,
        },
    }
}

/// The diff part of a card.
pub open spec fn card_diff_rows(tool: ToolCard, width: nat) -> Seq<Seq<SpanView>> {
    match diff_source(tool) {
        Some(d) => diff_rows(d, is_block(tool), width),
        None => Seq::empty(),
    }
}

fn card_diff_lines(tool: &ToolCard, block: bool, width: usize) -> (out: Vec<RenderLine>)
    requires
        block == is_block(*tool),
    ensures
        rows(out@) == card_diff_rows(*tool, width as nat),
{
    match display_body(tool) {
        Some(TimelineToolBody::Diff { unified, .. }) => {
            return diff_lines(unified.as_str(), block, width);
        },
        _ => {},
    }
    match &tool.diff {
        Some(d) => diff_lines(d.as_str(), block, width),
        None => {
            let out: Vec<RenderLine> = Vec::new();
            assert(rows(out@) =~= Seq::empty());
            out
        },
    }
}

/// The edge of a card's body lines.
pub open spec fn body_edge(block: bool) -> Seq<char> {
    if block {
        " ┃ │ "@
    } else {
        "    │ "@
    }
}

fn body_edge_text(block: bool) -> (r: &'static str)
    ensures
        r@ == body_edge(block),
{
    if block {
        " ┃ │ "
    } else {
        "    │ "
    }
}

/// Says that the beginning of the progress is gone.
pub const PROGRESS_TRUNCATED_MARK: &'static str = "进度前段已丢弃（仅保留末尾）";

/// The line that says that the beginning of the progress is gone.
pub open spec fn progress_truncated_row(block: bool) -> Seq<SpanView> {
    seq![
        sp(
            if block {
                " ┃ ◌ "@
            } else {
                "    ◌ "@
            },
            SpanStyle::Warn,
        ),
        sp("进度前段已丢弃（仅保留末尾）"@, SpanStyle::Warn),
    ]
}

fn progress_truncated_line(block: bool) -> (l: RenderLine)
    ensures
        l@ == progress_truncated_row(block),
{
    RenderLine::new().span(
        if block {
            " ┃ ◌ "
        } else {
            "    ◌ "
        },
        SpanStyle::Warn,
    ).span(PROGRESS_TRUNCATED_MARK, SpanStyle::Warn)
}

/// Lines with the live cursor behind the last one.
pub open spec fn with_cursor(r: Seq<Seq<SpanView>>) -> Seq<Seq<SpanView>> {
    if r.len() == 0 || r.last().len() == 0 {
        r
    } else {
        let last = r.last();
        let end = last.last();
        r.drop_last().push(
            last.drop_last().push(SpanView { text: end.text.push('▌'), style: end.style }),
        )
    }
}

fn add_cursor(lines: &mut Vec<RenderLine>)
    ensures
        rows(final(lines)@) == with_cursor(rows(old(lines)@)),
{
    if lines.len() == 0 {
        return;
    }
    let ghost before = lines@;
    let last = lines.pop();
    match last {
        Some(l) => {
            let mut l = l;
            let ghost shown = l@;
            assert(rows(before).last() == shown);
            assert(rows(lines@) =~= rows(before).drop_last());
            if l.spans.len() > 0 {
                let end = l.spans.pop();
                match end {
                    Some(s) => {
                        let mut s = s;
                        assert(shown.last() == s@);
                        s.text.push('▌');
                        assert(l@ =~= shown.drop_last());
                        l.push_span(s);
                    },
                    None => {},
                }
            } else {
                assert(rows(before) =~= rows(before).drop_last().push(shown));
            }
            lines.push(l);
        },
        None => {},
    }
}

/// The projected output of a command.
pub open spec fn projected_output(tool: ToolCard) -> Seq<char> {
    match projected_body(tool) {
        Some(TimelineToolBody::Shell { output, .. }) => output@,
        Some(TimelineToolBody::Streams { stdout, stderr, .. }) => match streams_body(
            stdout@,
            stderr@,
        ) {
            Some(s) => s,
            None => Seq::empty(),
        },
        _ => Seq::empty(),
    }
}

/// What a command's card shows as its body, and whether that is the progress:
/// the projected output; while it runs, the progress; afterwards the output
/// inside the result, the progress, or the result as it is.
pub open spec fn shell_source(tool: ToolCard) -> (Seq<char>, bool) {
    let raw = or_empty(tool.output);
    let inner = shell_output(raw);
    let progress = tool.progress@;
    let shown = projected_output(tool);
    if !blank(shown) {
        (shown, false)
    } else if running(tool) {
        if !blank(progress) {
            (progress, true)
        } else {
            (
                match inner {
                    Some(s) => s,
                    None => Seq::empty(),
                },
                false,
            )
        }
    } else {
        match inner {
            Some(s) => if !blank(s) {
                (s, false)
            } else if !blank(progress) {
                (progress, true)
            } else {
                (Seq::empty(), false)
            },
            None => if !blank(progress) {
                (progress, true)
            } else if !blank(raw) {
                (raw, false)
            } else {
                (Seq::empty(), false)
            },
        }
    }
}

fn projected_output_text(tool: &ToolCard) -> (r: String)
    ensures
        r@ == projected_output(*tool),
{
    match display_body(tool) {
        Some(TimelineToolBody::Shell { output, .. }) => output.clone(),
        Some(TimelineToolBody::Streams { stdout, stderr, .. }) => {
            match render_streams_body(stdout.as_str(), stderr.as_str()) {
                Some(s) => s,
                None => String::new(),
            }
        },
        _ => String::new(),
    }
}

fn shell_source_text(tool: &ToolCard) -> (r: (String, bool))
    ensures
        (r.0@, r.1) == shell_source(*tool),
{
    let raw = text_or_empty(&tool.output);
    let inner = extract_shell_output_text(raw);
    let shown = projected_output_text(tool);
    if !is_blank(shown.as_str()) {
        return (shown, false);
    }
    let live = !is_blank(tool.progress.as_str());
    if tool.state == TimelineToolState::Running {
        if live {
            return (tool.progress.clone(), true);
        }
        return match inner {
            Some(s) => (s, false),
            None => (String::new(), false),
        };
    }
    match inner {
        Some(s) => {
            if !is_blank(s.as_str()) {
                (s, false)
            } else if live {
                (tool.progress.clone(), true)
            } else {
                (String::new(), false)
            }
        },
        None => {
            if live {
                (tool.progress.clone(), true)
            } else if !is_blank(raw) {
                (raw.to_owned(), false)
            } else {
                (String::new(), false)
            }
        },
    }
}

/// The footer of a finished command: a failing exit code, and that its output
/// was cut.
pub open spec fn shell_foot(tool: ToolCard) -> Option<Seq<char>> {
    let (exit, cut) = match projected_body(tool) {
        Some(TimelineToolBody::Shell { exit_code, truncated, .. }) => (exit_code, truncated),
        Some(TimelineToolBody::Streams { exit_code, truncated, .. }) => (exit_code, truncated),
        _ => (None, false),
    };
    let code = match exit {
        Some(c) => c as int,
        None => 0,
    };
    if running(tool) {
        None
    } else if code != 0 && cut {
        Some("exit "@ + dec_int(code) + " · "@ + "截断"@)
    } else if code != 0 {
        Some("exit "@ + dec_int(code))
    } else if cut {
        Some("截断"@)
    } else {
        None
    }
}

fn shell_foot_text(tool: &ToolCard) -> (r: Option<String>)
    ensures
        match r {
            Some(s) => shell_foot(*tool) == Some(s@),
            None => shell_foot(*tool) is None,
        },
{
    let (exit, cut): (Option<i32>, bool) = match display_body(tool) {
        Some(TimelineToolBody::Shell { exit_code, truncated, .. }) => (*exit_code, *truncated),
        Some(TimelineToolBody::Streams { exit_code, truncated, .. }) => (*exit_code, *truncated),
        _ => (None, false),
    };
    let code: i32 = match exit {
        Some(c) => c,
        None => 0,
    };
    if tool.state == TimelineToolState::Running {
        None
    } else if code != 0 {
        let n = dec_i64(code as i64);
        if cut {
            Some(cat4("exit ", n.as_str(), " · ", "截断"))
        } else {
            Some(cat2("exit ", n.as_str()))
        }
    } else if cut {
        Some("截断".to_owned())
    } else {
        None
    }
}

/// The body of a command's card.
pub open spec fn shell_rows(tool: ToolCard, width: nat) -> Seq<Seq<SpanView>> {
    let (src, from_progress) = shell_source(tool);
    let block = is_block(tool);
    if blank(src) {
        Seq::empty()
    } else {
        let body = body_rows(src, running(tool), body_edge(block), less(width, 6));
        let shown = if running(tool) {
            with_cursor(body)
        } else {
            body
        };
        let foot = match shell_foot(tool) {
            Some(f) => seq![
                seq![sp(body_edge(block) + "  "@, SpanStyle::Dim), sp(f, SpanStyle::Dim)],
            ],
            None => Seq::empty(),
        };
        let mark = if from_progress && tool.progress_truncated {
            seq![progress_truncated_row(block)]
        } else {
            Seq::empty()
        };
        shown + foot + mark
    }
}

fn shell_lines(tool: &ToolCard, block: bool, width: usize) -> (out: Vec<RenderLine>)
    requires
        block == is_block(*tool),
    ensures
        rows(out@) == shell_rows(*tool, width as nat),
{
    let (src, from_progress) = shell_source_text(tool);
    if is_blank(src.as_str()) {
        let out: Vec<RenderLine> = Vec::new();
        assert(rows(out@) =~= Seq::empty());
        return out;
    }
    let live = tool.state == TimelineToolState::Running;
    let mut out = body_lines(src.as_str(), live, body_edge_text(block), width.saturating_sub(6));
    if live {
        add_cursor(&mut out);
    }
    let ghost shown = rows(out@);
    let ghost foot = match shell_foot(*tool) {
        Some(f) => seq![seq![sp(body_edge(block) + "  "@, SpanStyle::Dim), sp(f, SpanStyle::Dim)]],
        None => Seq::empty(),
    };
    match shell_foot_text(tool) {
        Some(f) => {
            let lead = cat2(body_edge_text(block), "  ");
            let line = RenderLine::new().span(lead.as_str(), SpanStyle::Dim).span(
                f.as_str(),
                SpanStyle::Dim,
            );
            assert(line@ =~= foot[0]);
            out.push(line);
        },
        None => {},
    }
    assert(rows(out@) =~= shown + foot);
    let ghost footed = rows(out@);
    if from_progress && tool.progress_truncated {
        out.push(progress_truncated_line(block));
        assert(rows(out@) =~= footed + seq![progress_truncated_row(block)]);
    }
    assert(rows(out@) =~= shell_rows(*tool, width as nat));
    out
}

/// What the card of a tool that runs no command shows as its body: the
/// projected text or the output, and then the progress.
pub open spec fn text_source(tool: ToolCard) -> Seq<char> {
    let progress = tool.progress@;
    let output = or_empty(tool.output);
    match projected_body(tool) {
        Some(TimelineToolBody::Text { text, .. }) => text@ + progress,
        _ => if output.len() > 0 {
            if progress.len() > 0 {
                output + "\n"@ + progress
            } else {
                output
            }
        } else {
            progress
        },
    }
}

fn text_source_text(tool: &ToolCard) -> (r: String)
    ensures
        r@ == text_source(*tool),
{
    match display_body(tool) {
        Some(TimelineToolBody::Text { text, .. }) => {
            return cat2(text.as_str(), tool.progress.as_str());
        },
        _ => {},
    }
    let output = text_or_empty(&tool.output);
    if output.is_empty() {
        tool.progress.clone()
    } else if tool.progress.as_str().is_empty() {
        output.to_owned()
    } else {
        cat3(output, "\n", tool.progress.as_str())
    }
}

/// Whether the projected body was cut.
pub open spec fn body_cut(tool: ToolCard) -> bool {
    match projected_body(tool) {
        Some(TimelineToolBody::Text { truncated, .. }) => truncated,
        Some(TimelineToolBody::Shell { truncated, .. }) => truncated,
        Some(TimelineToolBody::Streams { truncated, .. }) => truncated,
        _ => false,
    }
}

fn is_body_cut(tool: &ToolCard) -> (r: bool)
    ensures
        r == body_cut(*tool),
{
    match display_body(tool) {
        Some(TimelineToolBody::Text { truncated, .. }) => *truncated,
        Some(TimelineToolBody::Shell { truncated, .. }) => *truncated,
        Some(TimelineToolBody::Streams { truncated, .. }) => *truncated,
        _ => false,
    }
}

/// The body of the card of a tool that runs no command. The progress ends the
/// body, so where there is any, its last line is in the window.
pub open spec fn text_rows(tool: ToolCard, width: nat) -> Seq<Seq<SpanView>> {
    let src = text_source(tool);
    let block = is_block(tool);
    if blank(src) {
        Seq::empty()
    } else {
        let body = body_rows(src, running(tool), body_edge(block), less(width, 6));
        let shown = if running(tool) {
            with_cursor(body)
        } else {
            body
        };
        let mark = if tool.progress_truncated && tool.progress@.len() > 0 {
            seq![progress_truncated_row(block)]
        } else {
            Seq::empty()
        };
        let cut = if body_cut(tool) {
            seq![
                seq![
                    sp("    ◌ "@, SpanStyle::Warn),
                    sp("正文已截断（output_bytes 见 metrics）"@, SpanStyle::Warn),
                ],
            ]
        } else {
            Seq::empty()
        };
        shown + mark + cut
    }
}

fn text_lines(tool: &ToolCard, block: bool, width: usize) -> (out: Vec<RenderLine>)
    requires
        block == is_block(*tool),
    ensures
        rows(out@) == text_rows(*tool, width as nat),
{
    let src = text_source_text(tool);
    if is_blank(src.as_str()) {
        let out: Vec<RenderLine> = Vec::new();
        assert(rows(out@) =~= Seq::empty());
        return out;
    }
    let live = tool.state == TimelineToolState::Running;
    let mut out = body_lines(src.as_str(), live, body_edge_text(block), width.saturating_sub(6));
    if live {
        add_cursor(&mut out);
    }
    let ghost shown = rows(out@);
    if tool.progress_truncated && !tool.progress.as_str().is_empty() {
        out.push(progress_truncated_line(block));
        assert(rows(out@) =~= shown + seq![progress_truncated_row(block)]);
    }
    let ghost marked = rows(out@);
    if is_body_cut(tool) {
        let line = RenderLine::new().span("    ◌ ", SpanStyle::Warn).span(
            "正文已截断（output_bytes 见 metrics）",
            SpanStyle::Warn,
        );
        let ghost said = seq![
            sp("    ◌ "@, SpanStyle::Warn),
            sp("正文已截断（output_bytes 见 metrics）"@, SpanStyle::Warn),
        ];
        assert(line@ =~= said);
        out.push(line);
        assert(rows(out@) =~= marked + seq![said]);
    }
    assert(rows(out@) =~= text_rows(*tool, width as nat));
    out
}

/// The body of a card. A panel-owned tool shows none unless it failed.
pub open spec fn card_body_rows(tool: ToolCard, width: nat) -> Seq<Seq<SpanView>> {
    if panel_owned(tool.name@) && tool.failure is None {
        Seq::empty()
    } else if shell_tool(tool.name@) {
        shell_rows(tool, width)
    } else {
        text_rows(tool, width)
    }
}

/// The end of a card: failure, pending permission, the closing edge of a
/// block, and how long and how much.
pub open spec fn card_tail_rows(tool: ToolCard, width: nat) -> Seq<Seq<SpanView>> {
    let block = is_block(tool);
    failure_rows(tool, width) + permission_rows(tool) + (if block {
        seq![seq![sp(" ┃"@, SpanStyle::Dim)]]
    } else {
        Seq::empty()
    }) + metrics_rows(tool)
}

/// Why a call failed.
pub open spec fn failure_rows(tool: ToolCard, width: nat) -> Seq<Seq<SpanView>> {
    match tool.failure {
        Some(f) => prefixed_rows(
            wrapped(f.code@ + ": "@ + f.message@, less(width, 6)),
            if is_block(tool) {
                " ┃ ✗ "@
            } else {
                "    ✗ "@
            },
            SpanStyle::Error,
            SpanStyle::Error,
        ),
        None => Seq::empty(),
    }
}

/// The permission that a call waits for.
pub open spec fn permission_rows(tool: ToolCard) -> Seq<Seq<SpanView>> {
    match tool.permission {
        Some(p) => seq![
            seq![
                sp(
                    if is_block(tool) {
                        " ┃ ⚠ "@
                    } else {
                        "    ⚠ "@
                    },
                    SpanStyle::Warn,
                ),
                sp(
                    "等待权限："@ + p.category@ + "（risk "@ + p.risk@ + "）"@,
                    SpanStyle::Warn,
                ),
            ],
        ],
        None => Seq::empty(),
    }
}

/// How long a call took and how much it put out.
pub open spec fn metrics_rows(tool: ToolCard) -> Seq<Seq<SpanView>> {
    match tool.display {
        Some(d) => match d.metrics {
            Some(m) => if m.elapsed_ms > 0 {
                let time = "  ◷ "@ + one_decimal(milli_tenths(m.elapsed_ms as nat)) + "s"@;
                let text = if m.output_bytes > 0 {
                    time + " · "@ + one_decimal(kilo_tenths(m.output_bytes as nat)) + " KB"@
                } else {
                    time
                };
                seq![seq![sp(text, SpanStyle::Dim)]]
            } else {
                Seq::empty()
            },
            None => Seq::empty(),
        },
        None => Seq::empty(),
    }
}

fn card_body_lines(tool: &ToolCard, block: bool, width: usize) -> (out: Vec<RenderLine>)
    requires
        block == is_block(*tool),
    ensures
        rows(out@) == card_body_rows(*tool, width as nat),
{
    if is_panel_owned_tool(tool.name.as_str()) && tool.failure.is_none() {
        let out: Vec<RenderLine> = Vec::new();
        assert(rows(out@) =~= Seq::empty());
        out
    } else if is_shell_tool(tool.name.as_str()) {
        shell_lines(tool, block, width)
    } else {
        text_lines(tool, block, width)
    }
}

fn card_tail_lines(tool: &ToolCard, block: bool, width: usize) -> (out: Vec<RenderLine>)
    requires
        block == is_block(*tool),
    ensures
        rows(out@) == card_tail_rows(*tool, width as nat),
{
    let mut out: Vec<RenderLine> = Vec::new();
    assert(rows(out@) =~= Seq::empty());
    match &tool.failure {
        Some(f) => {
            let text = cat3(f.code.as_str(), ": ", f.message.as_str());
            let segs = wrap_text(text.as_str(), width.saturating_sub(6));
            let more = prefixed_lines(
                &segs,
                if block {
                    " ┃ ✗ "
                } else {
                    "    ✗ "
                },
                SpanStyle::Error,
                SpanStyle::Error,
            );
            extend_rows(&mut out, more);
        },
        None => {},
    }
    assert(rows(out@) =~= failure_rows(*tool, width as nat));
    let ghost r1 = rows(out@);
    match &tool.permission {
        Some(p) => {
            let mut text = cat4("等待权限：", p.category.as_str(), "（risk ", p.risk.as_str());
            text.push_str("）");
            let line = RenderLine::new().span(
                if block {
                    " ┃ ⚠ "
                } else {
                    "    ⚠ "
                },
                SpanStyle::Warn,
            ).span(text.as_str(), SpanStyle::Warn);
            assert(line@ =~= permission_rows(*tool)[0]);
            out.push(line);
        },
        None => {},
    }
    assert(rows(out@) =~= r1 + permission_rows(*tool));
    let ghost r2 = rows(out@);
    if block {
        out.push(RenderLine::new().span(" ┃", SpanStyle::Dim));
    }
    let ghost r3 = rows(out@);
    match &tool.display {
        Some(d) => match &d.metrics {
            Some(m) => {
                if m.elapsed_ms > 0 {
                    let secs = milli_text(m.elapsed_ms);
                    let mut text = cat3("  ◷ ", secs.as_str(), "s");
                    if m.output_bytes > 0 {
                        let size = kilo_text(m.output_bytes);
                        text.push_str(" · ");
                        text.push_str(size.as_str());
                        text.push_str(" KB");
                    }
                    out.push(RenderLine::new().span(text.as_str(), SpanStyle::Dim));
                }
            },
            None => {},
        },
        None => {},
    }
    assert(rows(out@) =~= r3 + metrics_rows(*tool));
    assert(rows(out@) =~= card_tail_rows(*tool, width as nat));
    out
}

/// Whether an inline card is its head line alone.
pub open spec fn bare(tool: ToolCard) -> bool {
    !is_block(tool) && !has_diff(tool) && output_len(tool) == 0 && tool.args_json is None
}

/// The head of a card.
pub open spec fn card_head(tool: ToolCard, width: nat, bake: Option<u64>) -> Seq<Seq<SpanView>> {
    if is_block(tool) {
        block_head(tool, width, bake)
    } else {
        seq![inline_head(tool, bake)]
    }
}

/// A tool call as a card.
pub open spec fn card_rows(tool: ToolCard, width: nat, bake: Option<u64>) -> Seq<Seq<SpanView>> {
    if bare(tool) {
        card_head(tool, width, bake)
    } else {
        card_head(tool, width, bake) + card_rest(tool, width)
    }
}

/// What follows the head of a card.
pub open spec fn card_rest(tool: ToolCard, width: nat) -> Seq<Seq<SpanView>> {
    args_rows(tool, width) + card_diff_rows(tool, width) + card_body_rows(tool, width)
        + card_tail_rows(tool, width)
}

/// Adds a tool call as a card.
pub fn push_tool_card_anim(
    lines: &mut Vec<RenderLine>,
    tool: &ToolCard,
    width: usize,
    anim: &mut AnimSink,
)
    requires
        old(lines)@.len() < usize::MAX,
    ensures
        rows(final(lines)@) == rows(old(lines)@) + card_rows(
            *tool,
            width as nat,
            old(anim).bake(),
        ),
        old(anim).takes(card_slots(*tool, old(lines)@.len()), final(anim)),
{
    let ghost bake = anim.bake();
    let ghost r0 = rows(lines@);
    let block = is_block_card(tool);
    let base: usize = lines.len();
    if block {
        let head = block_head_lines(tool, width, base, anim);
        extend_rows(lines, head);
    } else {
        let head = inline_head_line(tool, base, anim);
        lines.push(head);
        assert(rows(lines@) =~= r0 + seq![inline_head(*tool, bake)]);
        if !has_diff_text(tool) && output_lines(tool) == 0 && tool.args_json.is_none() {
            return;
        }
    }
    push_card_rest(lines, tool, block, width);
    proof {
        lemma_add_assoc(
            r0,
            card_head(*tool, width as nat, bake),
            card_rest(*tool, width as nat),
        );
    }
}

fn push_card_rest(lines: &mut Vec<RenderLine>, tool: &ToolCard, block: bool, width: usize)
    requires
        block == is_block(*tool),
    ensures
        rows(final(lines)@) == rows(old(lines)@) + card_rest(*tool, width as nat),
{
    let ghost r0 = rows(lines@);
    let mut more = args_lines(tool, block, width);
    let diff = card_diff_lines(tool, block, width);
    extend_rows(&mut more, diff);
    let body = card_body_lines(tool, block, width);
    extend_rows(&mut more, body);
    let tail = card_tail_lines(tool, block, width);
    extend_rows(&mut more, tail);
    extend_rows(lines, more);
}

proof fn lemma_add_assoc(a: Seq<Seq<SpanView>>, b: Seq<Seq<SpanView>>, c: Seq<Seq<SpanView>>)
    ensures
        a + b + c == a + (b + c),
{
    assert(a + b + c =~= a + (b + c));
}

/// Adds a tool call as a card with the glyphs of one animation frame.
pub fn push_tool_card(lines: &mut Vec<RenderLine>, tool: &ToolCard, width: usize, frame: u64)
    requires
        old(lines)@.len() < usize::MAX,
    ensures
        rows(final(lines)@) == rows(old(lines)@) + card_rows(*tool, width as nat, Some(frame)),
{
    let mut anim = AnimSink::Bake(frame);
    push_tool_card_anim(lines, tool, width, &mut anim);
}

/// Whatever the frame, a card has the same lines and differs at most in the
/// icon of its state line.
pub proof fn law_card_geometry_ignores_frame(
    tool: ToolCard,
    width: nat,
    a: Option<u64>,
    b: Option<u64>,
)
    ensures
        card_rows(tool, width, a).len() == card_rows(tool, width, b).len(),
        !running(tool) ==> card_rows(tool, width, a) == card_rows(tool, width, b),
        forall|i: int|
            0 <= i < card_rows(tool, width, a).len() && i != (if is_block(tool) {
                1int
            } else {
                0
            }) ==> #[trigger] card_rows(tool, width, a)[i] == card_rows(tool, width, b)[i],
{
    let x = card_rows(tool, width, a);
    let y = card_rows(tool, width, b);
    let at = if is_block(tool) {
        1int
    } else {
        0
    };
    assert forall|i: int| 0 <= i < x.len() && i != at implies #[trigger] x[i] == y[i] by {}
    if !running(tool) {
        assert(x =~= y);
    }
}

/// A running card keeps a space free for its wheel: the slot's line holds, in
/// the span behind the edge, a space where the wheel will be drawn, and the
/// line with the wheel baked in differs from it in that cell alone.
pub proof fn law_card_slot_is_free(tool: ToolCard, width: nat, frame: u64)
    requires
        running(tool),
    ensures
        ({
            let at = if is_block(tool) {
                1int
            } else {
                0
            };
            let free = card_rows(tool, width, None);
            let baked = card_rows(tool, width, Some(frame));
            &&& card_slots(tool, 0).len() == 1
            &&& card_slots(tool, 0)[0].row == at
            &&& card_slots(tool, 0)[0].col == text_columns(free[at][0].text) as u16
            &&& free[at][1].text == " "@ + " "@
            &&& baked[at] == free[at].update(
                1,
                SpanView {
                    text: cell_text(Some(frame), AnimKind::Spinner) + " "@,
                    style: free[at][1].style,
                },
            )
        }),
{
    lemma_card_starts_with_head(tool, width, None);
    lemma_card_starts_with_head(tool, width, Some(frame));
    lemma_head_slot(tool, width, frame);
}

/// A card starts with its head, which is never empty.
pub proof fn lemma_card_starts_with_head(tool: ToolCard, width: nat, bake: Option<u64>)
    ensures
        card_head(tool, width, bake).len() == (if is_block(tool) {
            2nat
        } else {
            1
        }),
        card_rows(tool, width, bake).len() >= card_head(tool, width, bake).len(),
        forall|i: int|
            0 <= i < card_head(tool, width, bake).len() ==> #[trigger] card_rows(
                tool,
                width,
                bake,
            )[i] == card_head(tool, width, bake)[i],
{
}

proof fn lemma_head_slot(tool: ToolCard, width: nat, frame: u64)
    requires
        running(tool),
    ensures
        ({
            let at = if is_block(tool) {
                1int
            } else {
                0
            };
            let free = card_head(tool, width, None);
            let baked = card_head(tool, width, Some(frame));
            &&& card_slots(tool, 0).len() == 1
            &&& card_slots(tool, 0)[0].row == at
            &&& card_slots(tool, 0)[0].col == text_columns(free[at][0].text) as u16
            &&& free[at][1].text == " "@ + " "@
            &&& baked[at] == free[at].update(
                1,
                SpanView {
                    text: cell_text(Some(frame), AnimKind::Spinner) + " "@,
                    style: free[at][1].style,
                },
            )
        }),
{
    let at = if is_block(tool) {
        1int
    } else {
        0
    };
    let free = card_head(tool, width, None)[at];
    let baked = card_head(tool, width, Some(frame))[at];
    let cell = SpanView {
        text: cell_text(Some(frame), AnimKind::Spinner) + " "@,
        style: free[1].style,
    };
    assert(free.len() == baked.len());
    assert(baked[1] == cell);
    assert forall|i: int| 0 <= i < free.len() && i != 1 implies free[i] == baked[i] by {}
    assert(baked =~= free.update(1, cell));
}

/// A one-line tool call: its name, and its summary or else its arguments.
pub open spec fn t1_row(
    name: Seq<char>,
    args: Option<Seq<char>>,
    summary: Option<Seq<char>>,
) -> Seq<SpanView> {
    let head = "  "@ + icon_of(name) + " "@ + name;
    let text = match summary {
        Some(s) if s.len() > 0 => head + " · "@ + one_line(s),
        _ => match args {
            Some(a) => {
                let preview = args_preview(json_doc(a), a);
                if preview.len() > 0 {
                    head + " · "@ + preview
                } else {
                    head
                }
            },
            None => head,
        },
    };
    seq![sp(text, SpanStyle::Dim)]
}

/// What an optional string holds.
pub open spec fn opt_chars(o: Option<&str>) -> Option<Seq<char>> {
    match o {
        Some(s) => Some(s@),
        None => None,
    }
}

/// A one-line tool call; it is cut at the edge of the screen, not wrapped.
pub fn render_t1_line(
    name: &str,
    args_json: Option<&str>,
    display_summary: Option<&str>,
    _width: usize,
) -> (l: RenderLine)
    ensures
        l@ == t1_row(name@, opt_chars(args_json), opt_chars(display_summary)),
{
    let mut text = cat4("  ", tool_icon(name), " ", name);
    let mut said: bool = false;
    match display_summary {
        Some(s) => {
            if !s.is_empty() {
                let one = to_one_line(s);
                text.push_str(" · ");
                text.push_str(one.as_str());
                said = true;
            }
        },
        None => {},
    }
    if !said {
        match args_json {
            Some(a) => {
                let preview = format_args_preview(a);
                if !preview.as_str().is_empty() {
                    text.push_str(" · ");
                    text.push_str(preview.as_str());
                }
            },
            None => {},
        }
    }
    RenderLine::new().span(text.as_str(), SpanStyle::Dim)
}

/// How many of `states` are `want`.
pub open spec fn count_state(states: Seq<TimelineToolState>, want: TimelineToolState) -> nat
    decreases states.len(),
{
    if states.len() == 0 {
        0
    } else {
        count_state(states.drop_last(), want) + if states.last() == want {
            1nat
        } else {
            0
        }
    }
}

fn count_of_state(states: &Vec<TimelineToolState>, want: TimelineToolState) -> (n: usize)
    ensures
        n == count_state(states@, want),
{
    let mut n: usize = 0;
    let mut i: usize = 0;
    assert(states@.take(0) =~= Seq::empty());
    while i < states.len()
        invariant
            i <= states@.len(),
            n <= i,
            n == count_state(states@.take(i as int), want),
        decreases states@.len() - i,
    {
        proof {
            assert(states@.take(i + 1).drop_last() =~= states@.take(i as int));
        }
        if states[i] == want {
            n += 1;
        }
        i += 1;
    }
    assert(states@.take(i as int) =~= states@);
    n
}

/// A count with its mark, where it is not zero.
pub open spec fn counted(n: nat, mark: Seq<char>) -> Seq<char> {
    if n > 0 {
        " · "@ + dec(n) + mark
    } else {
        Seq::empty()
    }
}

/// The line of a run of tool calls: how many there are and how they ended.
pub open spec fn group_row(states: Seq<TimelineToolState>, expanded: bool) -> Seq<SpanView> {
    let text = "  ┃ ⚙ "@ + dec(states.len()) + " tool calls"@ + counted(
        count_state(states, TimelineToolState::Succeeded),
        "✓"@,
    ) + counted(count_state(states, TimelineToolState::Failed), "✗"@) + counted(
        count_state(states, TimelineToolState::Cancelled),
        "⊘"@,
    ) + counted(count_state(states, TimelineToolState::Running), " 运行中"@) + " · "@ + if expanded {
        "F7 收起"@
    } else {
        "F7 展开"@
    };
    seq![sp(text, SpanStyle::Dim)]
}

fn counted_text(n: usize, mark: &str) -> (s: String)
    ensures
        s@ == counted(n as nat, mark@),
{
    if n > 0 {
        let d = dec_usize(n);
        cat3(" · ", d.as_str(), mark)
    } else {
        String::new()
    }
}

/// The line of a run of tool calls; it is cut at the edge of the screen, not
/// wrapped.
pub fn render_group_line(states: &Vec<TimelineToolState>, expanded: bool, _width: usize) -> (l:
    RenderLine)
    ensures
        l@ == group_row(states@, expanded),
{
    let n = dec_usize(states.len());
    let mut text = cat3("  ┃ ⚙ ", n.as_str(), " tool calls");
    let ok = counted_text(count_of_state(states, TimelineToolState::Succeeded), "✓");
    let failed = counted_text(count_of_state(states, TimelineToolState::Failed), "✗");
    let cancelled = counted_text(count_of_state(states, TimelineToolState::Cancelled), "⊘");
    let live = counted_text(count_of_state(states, TimelineToolState::Running), " 运行中");
    text.push_str(ok.as_str());
    text.push_str(failed.as_str());
    text.push_str(cancelled.as_str());
    text.push_str(live.as_str());
    text.push_str(" · ");
    text.push_str(
        if expanded {
            "F7 收起"
        } else {
            "F7 展开"
        },
    );
    RenderLine::new().span(text.as_str(), SpanStyle::Dim)
}

} // verus!
