//! What a tool call tells of itself.

use crate::decimal::human_size;
use crate::json::{JsonDocView, JsonFieldView};
use crate::text::{blank, first_chars, lines, occurs, one_line, trim_end, truncated};
use crate::text_laws::law_finding_text;
use crate::timeline::{TimelineToolHeader, TimelineToolState, ToolCard};
use crate::tool_card::{
    bytes_note, header_extra, icon_of, is_block, member, panel_owned, shell_tool, streams_body,
    t1_tool, wrapped_output,
};
use vstd::prelude::*;

verus! {

proof fn lemma_parts(a: Seq<char>, b: Seq<char>, c: Seq<char>, d: Seq<char>)
    ensures
        occurs(a + b, b),
        occurs(a + b + c + d, a),
        occurs(a + b + c + d, b),
        occurs(a + b + c + d, c),
        occurs(a + b + c + d, d),
{
    let none = Seq::<char>::empty();
    let all = a + b + c + d;
    assert(a + b =~= a + b + none);
    law_finding_text(a + b, b);
    assert(all =~= none + a + (b + c + d));
    law_finding_text(all, a);
    assert(all =~= a + b + (c + d));
    law_finding_text(all, b);
    assert(all =~= (a + b) + c + d);
    law_finding_text(all, c);
    assert(all =~= (a + b + c) + d + none);
    law_finding_text(all, d);
}

proof fn lemma_front(a: Seq<char>, b: Seq<char>)
    ensures
        occurs(a + b, a),
{
    law_finding_text(a + b, a);
    assert(a + b =~= Seq::<char>::empty() + a + b);
}

proof fn lemma_inner(a: Seq<char>, p: Seq<char>, x: Seq<char>, b: Seq<char>)
    ensures
        occurs(a + (p + x) + b, x),
{
    law_finding_text(a + (p + x) + b, x);
    assert(a + (p + x) + b =~= (a + p) + x + b);
}

proof fn lemma_title()
    ensures
        "\nstderr:\n"@ == seq!['\n'] + "stderr:\n"@,
{
    reveal_strlit("\nstderr:\n");
    reveal_strlit("stderr:\n");
    assert("\nstderr:\n"@ =~= seq!['\n'] + "stderr:\n"@);
}

/// What a command wrote is shown, its errors too, and the two are told apart.
pub proof fn law_streams_are_told_apart(stdout: Seq<char>, stderr: Seq<char>)
    ensures
        ({
            let o = trim_end(stdout);
            let e = trim_end(stderr);
            let all = streams_body(stdout, stderr);
            &&& (o.len() == 0 && e.len() == 0) <==> all is None
            &&& (o.len() > 0 && e.len() == 0) ==> all == Some(o)
            &&& e.len() > 0 ==> occurs(all->0, "stderr:\n"@) && occurs(all->0, e)
            &&& (o.len() > 0 && e.len() > 0) ==> occurs(all->0, "stdout:\n"@) && occurs(all->0, o)
        }),
{
    let o = trim_end(stdout);
    let e = trim_end(stderr);
    if o.len() > 0 && e.len() > 0 {
        lemma_parts("stdout:\n"@, o, "\nstderr:\n"@, e);
        lemma_title();
        lemma_inner("stdout:\n"@ + o, seq!['\n'], "stderr:\n"@, e);
    } else if e.len() > 0 {
        lemma_parts("stderr:\n"@, e, Seq::empty(), Seq::empty());
        lemma_front("stderr:\n"@, e);
    }
}

proof fn lemma_member(fields: Seq<(Seq<char>, JsonFieldView)>, key: Seq<char>, k: int)
    requires
        0 <= k < fields.len(),
        fields[k].0 == key,
        forall|j: int| 0 <= j < k ==> (#[trigger] fields[j]).0 != key,
    ensures
        member(fields, key) == Some(fields[k].1),
    decreases fields.len(),
{
    if k > 0 {
        assert(fields[0].0 != key);
        let r = fields.drop_first();
        assert forall|j: int| 0 <= j < k - 1 implies (#[trigger] r[j]).0 != key by {
            assert(r[j] == fields[j + 1]);
        }
        lemma_member(r, key, k - 1);
    }
}

/// The output of a command is the member of that name in its result.
pub proof fn law_output_is_read(fields: Seq<(Seq<char>, JsonFieldView)>, k: int, s: Seq<char>)
    requires
        0 <= k < fields.len(),
        fields[k].0 == seq!['o', 'u', 't', 'p', 'u', 't'],
        fields[k].1 == JsonFieldView::Text(s),
        forall|j: int| 0 <= j < k ==> (#[trigger] fields[j]).0 != fields[k].0,
    ensures
        wrapped_output(JsonDocView::Object(fields)) == Some(s),
        wrapped_output(JsonDocView::Scalar) is None,
        wrapped_output(JsonDocView::Invalid) is None,
{
    reveal_strlit("output");
    assert("output"@ =~= seq!['o', 'u', 't', 'p', 'u', 't']);
    lemma_member(fields, "output"@, k);
}

/// What an inline card says behind the tool's name: the path it works on, else
/// the command it runs, else what it did, on one line and cut short.
pub proof fn law_inline_card_tells_the_subject(tool: ToolCard)
    ensures
        ({
            let header = match tool.display {
                Some(d) => d.header,
                None => None,
            };
            let told = match tool.display {
                Some(d) => d.summary,
                None => None,
            };
            &&& (header matches Some(TimelineToolHeader::Path { path, .. }) ==> header_extra(tool)
                == seq![' '] + truncated(path@, 36))
            &&& (header matches Some(TimelineToolHeader::Shell { command }) ==> (command@.len() > 0
                ==> header_extra(tool) == seq![' '] + first_chars(one_line(command@), 64)))
            &&& (header is None && (told matches Some(s) && s@.len() > 0)) ==> header_extra(tool)
                == seq![' '] + first_chars(one_line(told->0@), 48)
            &&& (header is None && told is None && (tool.summary matches Some(s) && s@.len() > 0))
                ==> header_extra(tool) == seq![' '] + first_chars(one_line(tool.summary->0@), 48)
            &&& (header is None && told is None && tool.summary is None) ==> header_extra(tool).len()
                == 0
        }),
{
    reveal_strlit(" ");
    assert(" "@ =~= seq![' ']);
}

/// A call is drawn as a block exactly where it has something to show below its
/// head: a diff, more than four lines of output, progress while it runs, or a
/// projected body.
pub proof fn law_block_has_something_to_show(tool: ToolCard)
    ensures
        is_block(tool) <==> ({
            ||| tool.diff is Some && !blank(tool.diff->0@)
            ||| lines(
                if tool.output is Some {
                    tool.output->0@
                } else {
                    Seq::empty()
                },
            ).len() + lines(tool.progress@).len() > 4
            ||| tool.state == TimelineToolState::Running && tool.progress@.len() > 0
            ||| tool.display is Some && (tool.display->0.body matches Some(b) && (
            b is Shell || b is Streams || b is Diff || b is Text))
        }),
{
}

/// How much a running call wrote is told while it runs, with the stream where
/// that is not the usual one.
pub proof fn law_written_bytes_are_told(tool: ToolCard)
    ensures
        (tool.state != TimelineToolState::Running || tool.progress_bytes_total == 0)
            ==> bytes_note(tool) is None,
        (tool.state == TimelineToolState::Running && tool.progress_bytes_total > 0) ==> {
            &&& bytes_note(tool) is Some
            &&& occurs(
                bytes_note(tool)->0,
                human_size(tool.progress_bytes_total as nat),
            )
            &&& (tool.progress_stream matches Some(s) && s@.len() > 0 && s@ != "stdout"@)
                ==> occurs(bytes_note(tool)->0, tool.progress_stream->0@)
        },
{
    let size = human_size(tool.progress_bytes_total as nat);
    lemma_parts(" ↓ "@, size, Seq::empty(), Seq::empty());
    if tool.progress_stream is Some {
        lemma_parts(" ↓ "@, size, " · "@, tool.progress_stream->0@);
    }
}

/// The icons of the tools, and which are drawn how.
pub proof fn law_tools_have_their_icons()
    ensures
        icon_of("bash"@) == seq!['$'],
        icon_of("exec"@) == seq!['$'],
        icon_of("write"@) == seq!['←'],
        icon_of("edit"@) == seq!['←'],
        icon_of("grep"@) == seq!['✱'],
        icon_of("glob"@) == seq!['✱'],
        icon_of("read"@) == seq!['→'],
        shell_tool("bash"@) && shell_tool("shell"@) && shell_tool("powershell"@),
        t1_tool("todo_write"@) && t1_tool("web_search"@) && t1_tool("spawn_subagent"@),
        panel_owned("todo_write"@) && panel_owned("ask"@),
        !shell_tool("read"@) && !t1_tool("bash"@) && !panel_owned("bash"@),
{
    reveal_strlit("bash");
    reveal_strlit("exec");
    reveal_strlit("shell");
    reveal_strlit("pwsh");
    reveal_strlit("powershell");
    reveal_strlit("write");
    reveal_strlit("edit");
    reveal_strlit("glob");
    reveal_strlit("grep");
    reveal_strlit("read");
    reveal_strlit("todo");
    reveal_strlit("ask");
    reveal_strlit("skills");
    reveal_strlit("todo_write");
    reveal_strlit("todo_update");
    reveal_strlit("todo_list");
    reveal_strlit("spawn_subagent");
    reveal_strlit("web_search");
    reveal_strlit("$");
    reveal_strlit("←");
    reveal_strlit("✱");
    reveal_strlit("→");
    assert("$"@ =~= seq!['$']);
    assert("←"@ =~= seq!['←']);
    assert("✱"@ =~= seq!['✱']);
    assert("→"@ =~= seq!['→']);
    assert("bash"@[0] == 'b' && "exec"@[0] == 'e' && "exec"@[1] == 'x' && "pwsh"@[0] == 'p');
    assert("edit"@[0] == 'e' && "edit"@[1] == 'd' && "read"@[0] == 'r' && "todo"@[0] == 't');
    assert("glob"@[0] == 'g' && "glob"@[1] == 'l' && "grep"@[0] == 'g' && "grep"@[1] == 'r');
    assert("write"@[0] == 'w' && "shell"@[0] == 's');
}

} // verus!
