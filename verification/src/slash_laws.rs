//! What the commands typed behind a slash do.

use crate::app::{index_from, AppView};
use crate::dialog_laws::shows_session;
use crate::export::{session_text, turn_text};
use crate::keymap::KeyEvent;
use crate::message::{EffectView, NoticeLevel};
use crate::overlay::OverlayView;
use crate::paste_guard::is_flood;
use crate::session::SessionView;
use crate::slash::{
    command_name, completions, completions_to, exact_command, expanded, law_completions_are_commands,
    lowered, parsed, spaced, word_len, SlashView, SLASH_COMMAND_COUNT,
};
use crate::text::{blank, lemma_trim_blank, occurs, starts_with, trim, white_space};
use crate::text_laws::law_finding_text;
use vstd::prelude::*;

verus! {

proof fn lemma_words(w: Seq<char>, rest: Seq<char>)
    requires
        !spaced(w),
        rest.len() == 0 || white_space(rest[0]),
    ensures
        word_len(w + rest) == w.len(),
        (w + rest).take(w.len() as int) == w,
        (w + rest).skip(w.len() as int) == rest,
    decreases w.len(),
{
    assert((w + rest).take(w.len() as int) =~= w);
    assert((w + rest).skip(w.len() as int) =~= rest);
    if w.len() > 0 {
        let t = w.skip(1);
        assert(!spaced(t)) by {
            if spaced(t) {
                let i = choose|i: int| 0 <= i < t.len() && white_space(#[trigger] t[i]);
                assert(t[i] == w[i + 1]);
            }
        }
        assert(!white_space(w[0]));
        lemma_words(t, rest);
        assert((w + rest).skip(1) =~= t + rest);
        assert((w + rest)[0] == w[0]);
    } else {
        assert(w + rest =~= rest);
    }
}

/// A text behind a slash is the command its first word names, however that is
/// cased; the rest, trimmed, is its argument. A text without a slash is no
/// command, and a word that names none is handed back.
#[verifier::spinoff_prover]
pub proof fn law_first_word_names_the_command(w: Seq<char>, rest: Seq<char>)
    requires
        !spaced(w),
        rest.len() == 0 || white_space(rest[0]),
    ensures
        ({
            let cmd = parsed(seq!['/'] + w + rest);
            let arg = if blank(rest) {
                None
            } else {
                Some(trim(rest))
            };
            let name = lowered(w);
            &&& cmd is Some
            &&& (name == seq!['n', 'e', 'w'] || name == seq!['n']) ==> cmd == Some(
                SlashView::New { cwd: arg },
            )
            &&& name == seq!['h', 'e', 'l', 'p'] ==> cmd == Some(SlashView::Help)
            &&& name == seq!['s', 'e', 's', 's', 'i', 'o', 'n', 's'] ==> cmd == Some(
                SlashView::Sessions,
            )
            &&& name == seq!['s', 'e', 't', 't', 'i', 'n', 'g', 's'] ==> cmd == Some(
                SlashView::Settings,
            )
            &&& name == seq!['h', 'i', 's', 't', 'o', 'r', 'y'] ==> cmd == Some(SlashView::History)
            &&& name == seq!['w', 'o', 'r', 'k', 's', 'p', 'a', 'c', 'e'] ==> cmd == Some(
                SlashView::Workspace,
            )
            &&& name == seq!['c', 'l', 'e', 'a', 'r'] ==> cmd == Some(SlashView::Clear)
            &&& name == seq!['e', 'x', 'p', 'o', 'r', 't'] ==> cmd == Some(
                SlashView::Export { path: arg },
            )
            &&& !exact_command(name) ==> cmd == Some(SlashView::Unknown(name))
        }),
{
    let s = seq!['/'] + w + rest;
    assert(s.skip(1) =~= w + rest);
    lemma_words(w, rest);
    lemma_trim_blank(rest);
    let name = lowered(w);
    lemma_names();
    if !exact_command(name) {
        assert(name != command_name(0) && name != command_name(1) && name != command_name(2)
            && name != command_name(3) && name != command_name(4) && name != command_name(5)
            && name != command_name(6) && name != command_name(7));
    }
}

proof fn lemma_names()
    ensures
        "n"@ == seq!['n'],
        "new"@ == seq!['n', 'e', 'w'],
        "help"@ == seq!['h', 'e', 'l', 'p'],
        "sessions"@ == seq!['s', 'e', 's', 's', 'i', 'o', 'n', 's'],
        "settings"@ == seq!['s', 'e', 't', 't', 'i', 'n', 'g', 's'],
        "history"@ == seq!['h', 'i', 's', 't', 'o', 'r', 'y'],
        "workspace"@ == seq!['w', 'o', 'r', 'k', 's', 'p', 'a', 'c', 'e'],
        "clear"@ == seq!['c', 'l', 'e', 'a', 'r'],
        "export"@ == seq!['e', 'x', 'p', 'o', 'r', 't'],
        "new"@ != "settings"@ && "new"@ != "sessions"@,
        "sessions"@ != "settings"@,
        "sessions"@[2] == 's' && "settings"@[2] == 't',
{
    reveal_strlit("n");
    reveal_strlit("new");
    reveal_strlit("help");
    reveal_strlit("sessions");
    reveal_strlit("settings");
    reveal_strlit("history");
    reveal_strlit("workspace");
    reveal_strlit("clear");
    reveal_strlit("export");
    assert("n"@ =~= seq!['n']);
    assert("new"@ =~= seq!['n', 'e', 'w']);
    assert("help"@ =~= seq!['h', 'e', 'l', 'p']);
    assert("sessions"@ =~= seq!['s', 'e', 's', 's', 'i', 'o', 'n', 's']);
    assert("settings"@ =~= seq!['s', 'e', 't', 't', 'i', 'n', 'g', 's']);
    assert("history"@ =~= seq!['h', 'i', 's', 't', 'o', 'r', 'y']);
    assert("workspace"@ =~= seq!['w', 'o', 'r', 'k', 's', 'p', 'a', 'c', 'e']);
    assert("clear"@ =~= seq!['c', 'l', 'e', 'a', 'r']);
    assert("export"@ =~= seq!['e', 'x', 'p', 'o', 'r', 't']);
    assert("sessions"@[2] == 's' && "settings"@[2] == 't');
}

/// What does not begin with a slash is no command.
#[verifier::rlimit(50)]
pub proof fn law_no_slash_no_command(v: AppView, s: Seq<char>)
    ensures
        (s.len() == 0 || s[0] != '/') ==> parsed(s) is None,
        (trim(s).len() == 0 || trim(s)[0] != '/') ==> v.text_run(s) == (v, false),
{
}

/// Lower case keeps every character but the ASCII capitals.
pub proof fn law_lower_case(s: Seq<char>, i: int)
    requires
        0 <= i < s.len(),
    ensures
        lowered(s).len() == s.len(),
        lowered(s)[i] == (if 'A' <= s[i] <= 'Z' {
            (s[i] as u32 + 32) as char
        } else {
            s[i]
        }),
{
}

/// The commands offered for a word behind a slash are those that begin with
/// it: all of them, and no others.
pub proof fn law_offered_commands_begin_as_typed(typed: Seq<char>, name: Seq<char>)
    requires
        typed.len() > 0,
        typed[0] == '/',
        !spaced(typed),
    ensures
        completions(typed).contains(name) <==> (name != seq!['n'] && exact_command(name)
            && starts_with(name, lowered(typed.skip(1)))),
{
    lemma_names();
    let n = SLASH_COMMAND_COUNT as nat;
    lemma_completions_all(typed, n, name);
    if name == seq!['n'] {
        assert forall|i: int| 0 <= i < n implies #[trigger] command_name(i) != name by {
            assert(command_name(i).len() > 1);
        }
    }
    if exact_command(name) && name != seq!['n'] {
        let i = choose|i: int| 0 <= i < SLASH_COMMAND_COUNT && name == #[trigger] command_name(i);
        assert(0 <= i < n && command_name(i) == name);
    }
}

proof fn lemma_completions_all(typed: Seq<char>, n: nat, name: Seq<char>)
    requires
        n <= SLASH_COMMAND_COUNT,
    ensures
        completions_to(typed, n).contains(name) <==> (starts_with(name, lowered(typed.skip(1)))
            && exists|i: int| 0 <= i < n && #[trigger] command_name(i) == name),
    decreases n,
{
    if n > 0 {
        let m = (n - 1) as nat;
        lemma_completions_all(typed, m, name);
        let rest = completions_to(typed, m);
        let all = completions_to(typed, n);
        if rest.contains(name) {
            let k = choose|k: int| 0 <= k < rest.len() && rest[k] == name;
            assert(all[k] == name);
        }
        if starts_with(command_name(n - 1), lowered(typed.skip(1))) {
            assert(all.last() == command_name(n - 1));
            if all.contains(name) && !rest.contains(name) {
                let k = choose|k: int| 0 <= k < all.len() && all[k] == name;
                assert(k == rest.len());
            }
        }
        if exists|i: int| 0 <= i < n && #[trigger] command_name(i) == name {
            let i = choose|i: int| 0 <= i < n && #[trigger] command_name(i) == name;
            if i < m {
                assert(exists|i: int| 0 <= i < m && #[trigger] command_name(i) == name);
            } else {
                assert(all.last() == name || !starts_with(name, lowered(typed.skip(1))));
            }
        }
    }
}

/// What a command does, once it is run on a session's input line. Each empties
/// the line.
#[verifier::rlimit(50)]
pub proof fn law_commands_do_what_they_say(v: AppView, i: int, path: Option<Seq<char>>)
    requires
        shows_session(v, i),
        v.overlays.len() == 0,
    ensures
        ({
            let (w, run) = v.command_run(SlashView::Help);
            &&& run
            &&& w.overlays == seq![OverlayView::Help]
            &&& w.effects == v.effects
            &&& w.sessions[i].composer.input.len() == 0
        }),
        ({
            let (w, run) = v.command_run(SlashView::Sessions);
            &&& run
            &&& w.overlays == seq![OverlayView::SessionList { selected: 0, show_archived: false }]
            &&& w.sessions[i].composer.input.len() == 0
        }),
        ({
            let (w, run) = v.command_run(SlashView::Settings);
            &&& run
            &&& w.overlays == v.overlays
            &&& w.effects == v.effects.push(EffectView::ToggleSettings)
            &&& w.sessions[i].composer.input.len() == 0
        }),
        ({
            let (w, run) = v.command_run(SlashView::History);
            &&& run
            &&& w.overlays == seq![OverlayView::History { selected: 0, detail: false, scroll: 0 }]
            &&& w.effects == v.effects
            &&& w.sessions[i].composer.input.len() == 0
        }),
        ({
            let (w, run) = v.command_run(SlashView::Workspace);
            &&& run
            &&& w.flags.show_workspace
            &&& w.overlays == v.overlays
            &&& w.sessions[i].composer.input.len() == 0
        }),
        ({
            let (w, run) = v.command_run(SlashView::Clear);
            &&& run
            &&& w.sessions[i].composer.input.len() == 0
            &&& w.sessions[i].timeline == v.sessions[i].timeline
            &&& w.sessions[i].composer.history == v.sessions[i].composer.history
            &&& w.effects == v.effects
            &&& w.overlays == v.overlays
            &&& w.toasts == v.toasts
        }),
        ({
            let (w, run) = v.command_run(SlashView::Export { path });
            &&& run
            &&& w.sessions[i].composer.input.len() == 0
            &&& w.effects.len() == v.effects.len() + 1
            &&& w.effects.last() is WriteFile
            &&& !(w.effects.last()->turn)
            &&& w.effects.last()->WriteFile_text == session_text(
                v.sessions[i].seed,
                v.sessions[i].timeline,
                v.stamp,
            )
            &&& (path is Some && !blank(path->0)) ==> w.effects.last()->WriteFile_path == expanded(
                trim(path->0),
                v.home_dir,
            )
        }),
{
    let c = v.line_done();
    assert(c.overlays == v.overlays);
    assert(v.overlays =~= Seq::empty());
    assert(Seq::empty().push(OverlayView::Help) =~= seq![OverlayView::Help]);
    lemma_same_place(v, i);
}

proof fn lemma_same_place(v: AppView, i: int)
    requires
        shows_session(v, i),
    ensures
        v.line_done().active_at() == Some(i),
        v.line_done().sessions.len() == v.sessions.len(),
        v.line_done().sessions[i].composer.input.len() == 0,
{
    let w = v.line_done();
    lemma_index_same(v.sessions, w.sessions, v.tabs[v.flags.active as int], 0);
}

proof fn lemma_index_same(
    a: Seq<SessionView>,
    b: Seq<SessionView>,
    seed: Seq<char>,
    k: int,
)
    requires
        a.len() == b.len(),
        forall|j: int| 0 <= j < a.len() ==> (#[trigger] a[j]).seed == b[j].seed,
        0 <= k,
    ensures
        index_from(a, seed, k) == index_from(b, seed, k),
    decreases a.len() - k,
{
    if k < a.len() {
        assert(a[k].seed == b[k].seed);
        lemma_index_same(a, b, seed, k + 1);
    }
}

/// Exporting one turn of the session shown writes that turn, and only one
/// that is there.
#[verifier::rlimit(50)]
pub proof fn law_one_turn_is_exported(v: AppView, i: int, index: usize)
    requires
        shows_session(v, i),
    ensures
        ({
            let m = v.sessions[i].timeline;
            let w = v.turn_exported(index);
            &&& index >= m.turns.len() ==> {
                &&& w.effects == v.effects
                &&& w.toasts.last().level == NoticeLevel::Error
            }
            &&& (index < m.turns.len() && m.dropped_turns + index < usize::MAX) ==> {
                &&& w.effects.len() == v.effects.len() + 1
                &&& w.effects.drop_last() == v.effects
                &&& w.effects.last() is WriteFile
                &&& w.effects.last()->turn
                &&& w.effects.last()->WriteFile_text == turn_text(
                    m.turns[index as int],
                    (m.dropped_turns + index + 1) as nat,
                )
            }
            &&& w.sessions == v.sessions
        }),
{
    let w = v.turn_exported(index);
    if w.effects.len() == v.effects.len() + 1 {
        assert(w.effects.drop_last() =~= v.effects);
    }
}

/// A new session is asked for in the directory named, if that is absolute; it
/// is where the session shown works if none is named. A relative directory is
/// refused, and asking to edit puts up a line for one.
#[verifier::rlimit(50)]
pub proof fn law_new_asks_for_a_session(v: AppView, i: int, cwd: Option<Seq<char>>)
    requires
        shows_session(v, i),
    ensures
        ({
            let (w, run) = v.command_run(SlashView::New { cwd });
            let editing = cwd is Some && (cwd->0 == seq!['?'] || lowered(cwd->0) == seq![
                'e',
                'd',
                'i',
                't',
            ]);
            let dir = expanded(cwd->0, v.home_dir);
            &&& run
            &&& cwd is None ==> w.effects == v.effects.push(
                EffectView::CreateSession { command_id: v.fresh_id, cwd: v.default_cwd() },
            )
            &&& (cwd is Some && !editing && dir.len() > 0 && dir[0] == '/') ==> w.effects
                == v.effects.push(
                EffectView::CreateSession { command_id: v.fresh_id, cwd: Some(dir) },
            )
            &&& (cwd is Some && !editing && (dir.len() == 0 || dir[0] != '/')) ==> {
                &&& w.effects == v.effects
                &&& w.sessions == v.sessions
                &&& w.toasts.last().level == NoticeLevel::Error
                &&& occurs(w.toasts.last().text, cwd->0)
            }
            &&& editing ==> {
                &&& w.effects == v.effects
                &&& w.overlays.len() == v.overlays.len() + 1
                &&& w.overlays.last() is CwdInput
                &&& (v.default_cwd() is Some ==> w.overlays.last()->CwdInput_line.input
                    == v.default_cwd()->0)
            }
        }),
{
    lemma_same_place(v, i);
    reveal_strlit("?");
    reveal_strlit("edit");
    reveal_strlit("/");
    assert("?"@ =~= seq!['?']);
    assert("edit"@ =~= seq!['e', 'd', 'i', 't']);
    assert("/"@ =~= seq!['/']);
    if cwd is Some {
        let dir = expanded(cwd->0, v.home_dir);
        if dir.len() > 0 {
            assert(dir.take(1) =~= seq![dir[0]]);
            assert(seq![dir[0]][0] == dir[0]);
            assert(seq!['/'][0] == '/');
        }
        let note = "cwd 需为绝对路径："@ + cwd->0;
        law_finding_text(note, cwd->0);
        assert(note =~= "cwd 需为绝对路径："@ + cwd->0 + Seq::<char>::empty());
    }
    let c = v.line_done();
    assert(c.tabs == v.tabs && c.list == v.list && c.initial_cwd == v.initial_cwd);
    lemma_listed_same(v, c, v.tabs[v.flags.active as int], 0);
}

proof fn lemma_listed_same(v: AppView, w: AppView, seed: Seq<char>, k: int)
    requires
        v.list == w.list,
        0 <= k,
    ensures
        v.listed_cwd(seed, k) == w.listed_cwd(seed, k),
    decreases v.list.len() - k,
{
    if k < v.list.len() {
        lemma_listed_same(v, w, seed, k + 1);
    }
}

/// A path beginning with a tilde lies in the home directory; any other is
/// left as it is.
pub proof fn law_tilde_is_home(rest: Seq<char>, path: Seq<char>, home: Seq<char>)
    ensures
        expanded(seq!['~'], Some(home)) == home,
        expanded(seq!['~', '/'] + rest, Some(home)) == home + seq!['/'] + rest,
        (path.len() == 0 || path[0] != '~') ==> expanded(path, Some(home)) == path,
        expanded(path, None) == path,
{
    reveal_strlit("~");
    reveal_strlit("~/");
    assert("~"@ =~= seq!['~']);
    assert("~/"@ =~= seq!['~', '/']);
    let p = seq!['~', '/'] + rest;
    assert(p.take(2) =~= seq!['~', '/']);
    assert(p.len() > 1);
    assert(p.skip(1) =~= seq!['/'] + rest);
    assert(home + seq!['/'] + rest =~= home + (seq!['/'] + rest));
    if path.len() > 0 {
        assert(seq!['~'][0] == '~');
        if path.len() > 1 && path.take(2) == seq!['~', '/'] {
            assert(path.take(2)[0] == path[0]);
            assert(seq!['~', '/'][0] == '~');
        }
    }
}

/// A word that is no command is named in a complaint, and the line is
/// emptied: nothing is sent.
#[verifier::rlimit(50)]
pub proof fn law_unknown_command_is_named(v: AppView, i: int, s: Seq<char>)
    requires
        shows_session(v, i),
        s.len() > 0,
    ensures
        ({
            let (w, run) = v.command_run(SlashView::Unknown(s));
            &&& run
            &&& w.effects == v.effects
            &&& w.toasts.last().level == NoticeLevel::Error
            &&& occurs(w.toasts.last().text, seq!['/'] + s)
            &&& w.sessions[i].composer.input.len() == 0
        }),
{
    let note = "未知命令：/"@ + s;
    reveal_strlit("未知命令：/");
    let a = "未知命令：/"@.drop_last();
    assert("未知命令：/"@ =~= a + seq!['/']);
    assert(note =~= a + (seq!['/'] + s) + Seq::<char>::empty());
    law_finding_text(note, seq!['/'] + s);
}

/// The enter key runs the command typed, whole; typed in part, it is
/// completed, and nothing is sent.
#[verifier::rlimit(50)]
pub proof fn law_enter_runs_the_command(v: AppView, i: int, key: KeyEvent)
    requires
        shows_session(v, i),
        v.overlays.len() == 0,
        !v.sessions[i].read_only,
        !is_flood(v.guard),
        key.code is Enter,
        !key.modifiers.alt,
        v.sessions[i].composer.input.len() > 1,
        v.sessions[i].composer.input[0] == '/',
        !spaced(v.sessions[i].composer.input),
    ensures
        ({
            let typed = v.sessions[i].composer.input;
            let word = lowered(typed.skip(1));
            let w = v.composer_keyed(key);
            &&& completions(typed).contains(word) ==> w == v.command_run(parsed(typed)->0).0
            &&& (!exact_command(word) && completions(typed).len() > 0) ==> {
                &&& w.effects == v.effects
                &&& exists|k: int|
                    0 <= k < completions(typed).len() && w.sessions[i].composer.input == seq!['/']
                        + #[trigger] completions(typed)[k] + seq![' ']
            }
        }),
{
    let typed = v.sessions[i].composer.input;
    let word = lowered(typed.skip(1));
    lemma_trim_word(typed);
    reveal_strlit("/");
    reveal_strlit(" ");
    reveal_strlit("\n");
    assert("/"@ =~= seq!['/']);
    assert(" "@ =~= seq![' ']);
    assert(typed.take(1) =~= seq!['/']);
    assert(v.typed() == typed);
    assert(v.offered() == completions(typed));
    if completions(typed).contains(word) {
        let k = choose|k: int| 0 <= k < completions(typed).len() && completions(typed)[k] == word;
        law_completions_are_commands(typed, k);
        assert(exact_command(word));
        assert(v.text_run(typed) == v.command_run(parsed(typed)->0));
        lemma_known_runs(v, typed);
    }
    if !exact_command(word) && completions(typed).len() > 0 {
        let n = completions(typed).len();
        let at = if v.flags.slash_selected < n {
            v.flags.slash_selected as int
        } else {
            n - 1
        };
        assert(v.completed().sessions[i].composer.input == seq!['/'] + completions(typed)[at]
            + seq![' ']);
    }
}

proof fn lemma_known_runs(v: AppView, typed: Seq<char>)
    requires
        typed.len() > 1,
        typed[0] == '/',
        exact_command(lowered(typed.skip(1))),
        !spaced(typed),
    ensures
        v.command_run(parsed(typed)->0).1,
{
    let w = typed.skip(1);
    assert(!spaced(w)) by {
        if spaced(w) {
            let i = choose|i: int| 0 <= i < w.len() && white_space(#[trigger] w[i]);
            assert(w[i] == typed[i + 1]);
        }
    }
    law_first_word_names_the_command(w, Seq::empty());
    assert(seq!['/'] + w + Seq::<char>::empty() =~= typed);
    lemma_names();
    let name = lowered(w);
    let i = choose|i: int| 0 <= i < SLASH_COMMAND_COUNT && name == #[trigger] command_name(i);
    assert(name == "n"@ || (0 <= i < SLASH_COMMAND_COUNT && name == command_name(i)));
}

proof fn lemma_trim_word(s: Seq<char>)
    requires
        !spaced(s),
    ensures
        trim(s) == s,
{
    if s.len() > 0 {
        assert(!white_space(s[0]));
        assert(!white_space(s[s.len() - 1]));
    }
}

/// The tab key types out the marked command.
#[verifier::rlimit(50)]
pub proof fn law_tab_completes(v: AppView, i: int, key: KeyEvent)
    requires
        shows_session(v, i),
        v.overlays.len() == 0,
        key.code is Tab,
        v.flags.slash_selected < completions(v.sessions[i].composer.input).len(),
    ensures
        ({
            let c = v.sessions[i].composer;
            let w = v.composer_keyed(key);
            let d = w.sessions[i].composer;
            &&& d.input == seq!['/'] + completions(c.input)[v.flags.slash_selected as int] + seq![' ']
            &&& d.cursor == d.input.len()
            &&& w.effects == v.effects
        }),
{
    reveal_strlit("/");
    reveal_strlit(" ");
    assert("/"@ =~= seq!['/']);
    assert(" "@ =~= seq![' ']);
    assert(v.offered() == completions(v.sessions[i].composer.input));
}

/// The arrows move the mark among the commands offered, round the ends.
#[verifier::rlimit(50)]
pub proof fn law_arrows_move_among_commands(v: AppView, i: int, up: KeyEvent, down: KeyEvent)
    requires
        shows_session(v, i),
        v.overlays.len() == 0,
        up.code is Up,
        down.code is Down,
        v.flags.slash_selected < completions(v.sessions[i].composer.input).len(),
    ensures
        ({
            let n = completions(v.sessions[i].composer.input).len();
            let at = v.flags.slash_selected;
            let d = v.composer_keyed(down).flags.slash_selected;
            let u = v.composer_keyed(up).flags.slash_selected;
            &&& d == (if at + 1 == n {
                0
            } else {
                at + 1
            })
            &&& u == (if at == 0 {
                n - 1
            } else {
                at - 1
            })
            &&& v.composer_keyed(down).sessions == v.sessions
            &&& v.composer_keyed(up).sessions == v.sessions
        }),
{
    let n = completions(v.sessions[i].composer.input).len();
    assert(v.offered() == completions(v.sessions[i].composer.input));
    lemma_few(v.sessions[i].composer.input, SLASH_COMMAND_COUNT as nat);
    let at = v.flags.slash_selected as int;
    if at + 1 == n {
        assert((at + 1) % (n as int) == 0) by (nonlinear_arith)
            requires
                at + 1 == n,
                n > 0,
        ;
    } else {
        assert((at + 1) % (n as int) == at + 1) by (nonlinear_arith)
            requires
                0 <= at + 1 < n,
        ;
    }
}

proof fn lemma_few(typed: Seq<char>, n: nat)
    ensures
        completions_to(typed, n).len() <= n,
    decreases n,
{
    if n > 0 {
        lemma_few(typed, (n - 1) as nat);
    }
}

} // verus!
