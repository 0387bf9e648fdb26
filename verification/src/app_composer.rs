//! Keys for the input lines, and the commands typed there.

use crate::app::{App, AppView, Flags};
use crate::app_modal::lemma_put_ok;
use crate::composer::{Composer, ComposerView};
use crate::export::{
    default_export_path, export_markdown, export_name, export_turn_markdown, session_text,
    turn_text,
};
use crate::keymap::{KeyCode, KeyEvent};
use crate::message::{Effect, EffectView, NoticeLevel};
use crate::overlay::{Line, Overlay, OverlayView};
use crate::paste_guard::{is_flood, GuardView};
use crate::session::{session_ok, SessionView};
use crate::slash::{
    ascii_lower, completions, completions_for, exact_command, expand_tilde, expanded, has_space,
    is_absolute_path, is_exact_command, lowered, parse, parsed, spaced, SlashCmd, SlashDef,
    SlashView,
};
use crate::text::{
    blank, cat2, cat3, chars_of, contains_str, dec, dec_u64, first_chars, has_prefix, is_blank,
    occurs, opt_text, starts_with, str_eq, take_chars, trim, trim_start, trimmed,
};
use vstd::prelude::*;
use vstd::utf8::encode_utf8;

verus! {

/// A change of an input line.
#[derive(Clone, Copy, Debug, PartialEq, Eq, Structural)]
pub enum ComposerOp {
    Insert(char),
    Backspace,
    /// Back one word, and everything behind the cursor deleted.
    CutWord,
    Delete,
    Left,
    WordLeft,
    Right,
    WordRight,
    Home,
    End,
    HistoryUp,
    HistoryDown,
    Clear,
    Cut,
}

/// An input line after a change.
pub open spec fn composed(c: ComposerView, op: ComposerOp) -> ComposerView {
    match op {
        ComposerOp::Insert(ch) => c.inserted(ch),
        ComposerOp::Backspace => c.backspaced(),
        ComposerOp::CutWord => c.word_lefted().cut(),
        ComposerOp::Delete => c.deleted(),
        ComposerOp::Left => c.lefted(),
        ComposerOp::WordLeft => c.word_lefted(),
        ComposerOp::Right => c.righted(),
        ComposerOp::WordRight => c.word_righted(),
        ComposerOp::Home => c.at(0),
        ComposerOp::End => c.at(c.input.len() as int),
        ComposerOp::HistoryUp => c.history_upped(),
        ComposerOp::HistoryDown => c.history_downed(),
        ComposerOp::Clear => c.cleared(),
        ComposerOp::Cut => c.cut(),
    }
}

fn compose(c: &mut Composer, op: ComposerOp)
    requires
        old(c).wf(),
    ensures
        final(c).wf(),
        final(c)@ == composed(old(c)@, op),
{
    match op {
        ComposerOp::Insert(ch) => {
            c.insert(ch);
        },
        ComposerOp::Backspace => {
            c.backspace();
        },
        ComposerOp::CutWord => {
            c.word_left();
            c.cut();
        },
        ComposerOp::Delete => {
            c.delete();
        },
        ComposerOp::Left => {
            c.left();
        },
        ComposerOp::WordLeft => {
            c.word_left();
        },
        ComposerOp::Right => {
            c.right();
        },
        ComposerOp::WordRight => {
            c.word_right();
        },
        ComposerOp::Home => {
            c.home();
        },
        ComposerOp::End => {
            c.end();
        },
        ComposerOp::HistoryUp => {
            c.history_up();
        },
        ComposerOp::HistoryDown => {
            c.history_down();
        },
        ComposerOp::Clear => {
            c.clear();
        },
        ComposerOp::Cut => {
            c.cut();
        },
    }
}

/// How a key edits a line, where it does so on the home screen and in a
/// session alike.
pub open spec fn edit_op(key: KeyEvent) -> Option<ComposerOp> {
    let ctrl = key.modifiers.control;
    let alt = key.modifiers.alt;
    match key.code {
        KeyCode::Backspace => Some(
            if ctrl {
                ComposerOp::CutWord
            } else {
                ComposerOp::Backspace
            },
        ),
        KeyCode::Delete => Some(ComposerOp::Delete),
        KeyCode::Left => Some(
            if ctrl {
                ComposerOp::WordLeft
            } else {
                ComposerOp::Left
            },
        ),
        KeyCode::Right => Some(
            if ctrl {
                ComposerOp::WordRight
            } else {
                ComposerOp::Right
            },
        ),
        KeyCode::Home => Some(ComposerOp::Home),
        KeyCode::End => Some(ComposerOp::End),
        KeyCode::Char(c) => if ctrl {
            if c == 'u' {
                Some(ComposerOp::Clear)
            } else if c == 'k' {
                Some(ComposerOp::Cut)
            } else if c == 'w' {
                Some(ComposerOp::CutWord)
            } else {
                None
            }
        } else if !alt {
            Some(ComposerOp::Insert(c))
        } else {
            None
        },
        _ => None,
    }
}

fn edit_for(key: KeyEvent) -> (r: Option<ComposerOp>)
    ensures
        r == edit_op(key),
{
    let ctrl = key.modifiers.control;
    match key.code {
        KeyCode::Backspace => Some(
            if ctrl {
                ComposerOp::CutWord
            } else {
                ComposerOp::Backspace
            },
        ),
        KeyCode::Delete => Some(ComposerOp::Delete),
        KeyCode::Left => Some(
            if ctrl {
                ComposerOp::WordLeft
            } else {
                ComposerOp::Left
            },
        ),
        KeyCode::Right => Some(
            if ctrl {
                ComposerOp::WordRight
            } else {
                ComposerOp::Right
            },
        ),
        KeyCode::Home => Some(ComposerOp::Home),
        KeyCode::End => Some(ComposerOp::End),
        KeyCode::Char(c) => if ctrl {
            if c == 'u' {
                Some(ComposerOp::Clear)
            } else if c == 'k' {
                Some(ComposerOp::Cut)
            } else if c == 'w' {
                Some(ComposerOp::CutWord)
            } else {
                None
            }
        } else if !key.modifiers.alt {
            Some(ComposerOp::Insert(c))
        } else {
            None
        },
        _ => None,
    }
}

/// How a key edits the line on the home screen.
pub open spec fn draft_op(key: KeyEvent) -> Option<ComposerOp> {
    if key.code is Enter && key.modifiers.alt {
        Some(ComposerOp::Insert('\n'))
    } else if key.code == KeyCode::Char('j') && key.modifiers.control {
        Some(ComposerOp::Insert('\n'))
    } else if key.code is Esc {
        Some(ComposerOp::Clear)
    } else {
        edit_op(key)
    }
}

/// The text typed after which commands are offered in place of being run.
pub open spec fn is_command_line(s: Seq<char>) -> bool {
    !occurs(s, "\n"@) && starts_with(trim_start(s), "/"@)
}

impl AppView {
    /// The input line of the session shown changed.
    pub open spec fn edited(self, op: ComposerOp) -> AppView {
        match self.active_at() {
            Some(i) => self.put_composer(i, composed(self.sessions[i].composer, op)),
            None => self,
        }
    }

    /// The text typed in the session shown.
    pub open spec fn typed(self) -> Seq<char> {
        match self.active_at() {
            Some(i) => self.sessions[i].composer.input,
            None => Seq::empty(),
        }
    }

    /// The command marked.
    pub open spec fn marking(self, n: usize) -> AppView {
        self.flagged(Flags { slash_selected: n, ..self.flags })
    }

    /// The commands offered for the text typed.
    pub open spec fn offered(self) -> Seq<Seq<char>> {
        match self.active_at() {
            Some(_) => completions(self.typed()),
            None => Seq::empty(),
        }
    }

    /// The commands offered are shown.
    pub open spec fn offering(self) -> bool {
        self.overlays.len() == 0 && self.offered().len() > 0
    }

    /// The mark moved onto a command that is offered.
    pub open spec fn clamped(self) -> AppView {
        let n = self.offered().len();
        if n == 0 {
            self.marking(0)
        } else if self.flags.slash_selected >= n {
            self.marking((n - 1) as usize)
        } else {
            self
        }
    }

    /// The marked command typed out.
    pub open spec fn completed(self) -> AppView {
        let offered = self.offered();
        if offered.len() == 0 {
            self
        } else {
            let at = if self.flags.slash_selected < offered.len() {
                self.flags.slash_selected as int
            } else {
                offered.len() - 1
            };
            let i = self.active_at()->0;
            self.put_composer(
                i,
                self.sessions[i].composer.replaced("/"@ + offered[at] + " "@),
            ).marking(0)
        }
    }

    /// The line cleared and the mark set back.
    pub open spec fn line_done(self) -> AppView {
        self.edited(ComposerOp::Clear).marking(0)
    }

    /// The default directory put up for editing, the cursor at as many characters
    /// as it has bytes.
    pub open spec fn cwd_asked(self) -> AppView {
        let dir = match self.default_cwd() {
            Some(d) => d,
            None => Seq::empty(),
        };
        self.covered(
            OverlayView::CwdInput {
                line: Line { input: dir, cursor: encode_utf8(dir).len() as int },
            },
        ).line_done()
    }

    /// An export of the session shown asked for.
    pub open spec fn exported(self, path: Option<Seq<char>>) -> AppView {
        match self.active_at() {
            Some(i) => {
                let s = self.sessions[i];
                let target = if path is Some && !blank(path->0) {
                    expanded(trim(path->0), self.home_dir)
                } else {
                    export_name(s.seed, self.file_stamp)
                };
                self.asking(
                    EffectView::WriteFile {
                        path: target,
                        text: session_text(s.seed, s.timeline, self.stamp),
                        turn: false,
                    },
                )
            },
            None => self.noticed(NoticeLevel::Error, "无活动会话，无法导出"@),
        }
    }

    /// An export of one turn of the session shown asked for.
    pub open spec fn turn_exported(self, index: usize) -> AppView {
        match self.active_at() {
            Some(i) => {
                let s = self.sessions[i];
                let n = s.timeline.dropped_turns + index + 1;
                let number = if n <= u64::MAX {
                    n as nat
                } else {
                    u64::MAX as nat
                };
                let shown = if number <= usize::MAX {
                    number
                } else {
                    usize::MAX as nat
                };
                if index < s.timeline.turns.len() {
                    self.asking(
                        EffectView::WriteFile {
                            path: "qaqh-turn-"@ + first_chars(s.seed, 8) + "-"@ + dec(number)
                                + "-"@ + self.file_stamp + ".md"@,
                            text: turn_text(s.timeline.turns[index as int], shown),
                            turn: true,
                        },
                    )
                } else {
                    self.noticed(NoticeLevel::Error, "该回合不在当前窗口内"@)
                }
            },
            None => self.noticed(NoticeLevel::Error, "无活动会话，无法导出"@),
        }
    }

    /// The command for a new session run.
    pub open spec fn new_run(self, cwd: Option<Seq<char>>) -> AppView {
        match cwd {
            Some(p) => {
                let dir = expanded(p, self.home_dir);
                if p == "?"@ || lowered(p) == "edit"@ {
                    self.cwd_asked()
                } else if !starts_with(dir, "/"@) {
                    self.noticed(NoticeLevel::Error, "cwd 需为绝对路径："@ + p)
                } else {
                    self.line_done().creating_in(Some(dir))
                }
            },
            None => self.line_done().creating_in(None),
        }
    }

    /// A command run, and whether it was one.
    pub open spec fn command_run(self, cmd: SlashView) -> (AppView, bool) {
        match cmd {
            SlashView::New { cwd } => (self.new_run(cwd), true),
            SlashView::Help => (self.line_done().layer_toggled(OverlayView::Help), true),
            SlashView::Sessions => (self.line_done().list_toggled(), true),
            SlashView::Settings => (self.line_done().asking(EffectView::ToggleSettings), true),
            SlashView::History => (
                self.line_done().covered(
                    OverlayView::History { selected: 0, detail: false, scroll: 0 },
                ),
                true,
            ),
            SlashView::Workspace => {
                let v = self.line_done();
                let w = v.flagged(Flags { show_workspace: true, ..v.flags });
                (
                    match w.active_seed() {
                        Some(seed) => w.dashboard_asked(seed),
                        None => w,
                    },
                    true,
                )
            },
            SlashView::Clear => (self.line_done(), true),
            SlashView::Export { path } => (self.line_done().exported(path), true),
            SlashView::Unknown(s) => if s.len() == 0 {
                (self, false)
            } else {
                (
                    self.noticed(NoticeLevel::Error, "未知命令：/"@ + s).edited(ComposerOp::Clear),
                    true,
                )
            },
        }
    }

    /// A text run as a command, and whether it is one. A lone slash is none.
    pub open spec fn text_run(self, raw: Seq<char>) -> (AppView, bool) {
        let t = trim(raw);
        match parsed(t) {
            Some(cmd) => if t == "/"@ {
                (self, false)
            } else {
                self.command_run(cmd)
            },
            None => (self, false),
        }
    }

    /// The enter key on a line that looks like a command.
    pub open spec fn command_entered(self) -> AppView {
        let t = trim(self.typed());
        let sent = self.asking(EffectView::SendMessage);
        if !starts_with(t, "/"@) {
            sent
        } else if t == "/"@ {
            self.completed()
        } else if self.offering() && !spaced(t) {
            if exact_command(lowered(t.skip(1))) {
                let (v, run) = self.text_run(t);
                if run {
                    v
                } else {
                    v.asking(EffectView::SendMessage)
                }
            } else {
                self.completed()
            }
        } else {
            let (v, run) = self.text_run(t);
            if run {
                v
            } else if self.offering() {
                v.completed()
            } else {
                v.asking(EffectView::SendMessage)
            }
        }
    }

    /// The mark moved up or down among the commands offered, around the ends.
    pub open spec fn mark_moved(self, down: bool) -> AppView {
        let n = self.offered().len();
        let at = self.flags.slash_selected;
        if n == 0 {
            self
        } else if down {
            self.marking(((at + 1) % (n as int)) as usize)
        } else if at == 0 {
            self.marking((n - 1) as usize)
        } else {
            self.marking((at - 1) as usize)
        }
    }

    /// The session shown is driven by another client.
    pub open spec fn is_read_only(self) -> bool {
        self.active_at() is Some && self.sessions[self.active_at()->0].read_only
    }

    /// The enter key while keys come as fast as pasted text: a space.
    pub open spec fn flood_entered(self) -> AppView {
        let v = self.edited(ComposerOp::Insert(' '));
        if v.guard.toasted {
            v
        } else {
            AppView { guard: GuardView { toasted: true, ..v.guard }, ..v }.noticed(
                NoticeLevel::Warn,
                "检测到粘贴洪流：已抑制 Enter 自动发送（当前终端不支持括号粘贴）"@,
            )
        }
    }

    /// The enter key in the input line.
    pub open spec fn line_entered(self, alt: bool) -> AppView {
        if alt {
            self.edited(ComposerOp::Insert('\n'))
        } else if self.offering() || (self.active_at() is Some && is_command_line(self.typed())) {
            self.command_entered()
        } else {
            self.asking(EffectView::SendMessage)
        }
    }

    /// The tab key in the input line.
    pub open spec fn line_tabbed(self) -> AppView {
        let t = trim(self.typed());
        if self.offering() {
            self.completed()
        } else if t == "/new"@ || t == "/n"@ {
            self.cwd_asked()
        } else {
            self
        }
    }

    /// A character typed in the input line.
    pub open spec fn line_typed(self, c: char, key: KeyEvent) -> AppView {
        if key.modifiers.control && c == 'a' {
            match self.active_seed() {
                Some(seed) => self.covered(
                    OverlayView::AttachPath { line: Line { input: Seq::empty(), cursor: 0 }, seed },
                ),
                None => self,
            }
        } else if key.modifiers.control && c == 'p' {
            self.asking(EffectView::ToggleMode)
        } else if key.modifiers.control && c == 'y' {
            self.asking(EffectView::UndoLast)
        } else if key.modifiers.control && c == 'e' {
            self.asking(EffectView::Compact)
        } else if key.modifiers.control && c == 'j' {
            self.edited(ComposerOp::Insert('\n'))
        } else {
            match edit_op(key) {
                Some(op) => if op is Insert {
                    self.line_changed(op)
                } else {
                    self.edited(op)
                },
                None => self,
            }
        }
    }

    /// The input line of the session shown changed, and the mark moved onto
    /// a command that is offered.
    pub open spec fn line_changed(self, op: ComposerOp) -> AppView {
        if self.active_at() is Some {
            self.edited(op).clamped()
        } else {
            self
        }
    }

    /// A key in the input line that does not flood.
    pub open spec fn line_keyed(self, key: KeyEvent) -> AppView {
        let ctrl = key.modifiers.control;
        match key.code {
            KeyCode::Esc => if self.offering() {
                self.marking(0)
            } else {
                self.asking(EffectView::CancelTurn)
            },
            KeyCode::Tab => self.line_tabbed(),
            KeyCode::Enter => self.line_entered(key.modifiers.alt),
            KeyCode::Backspace | KeyCode::Delete => self.line_changed(edit_op(key)->0),
            KeyCode::Left | KeyCode::Right => self.edited(edit_op(key)->0),
            KeyCode::Home => if ctrl {
                self.asking(EffectView::ScrollTop)
            } else {
                self.edited(ComposerOp::Home)
            },
            KeyCode::End => if ctrl {
                self.asking(EffectView::ScrollBottom)
            } else {
                self.edited(ComposerOp::End)
            },
            KeyCode::Up => if self.offering() {
                self.mark_moved(false)
            } else {
                self.edited(ComposerOp::HistoryUp)
            },
            KeyCode::Down => if self.offering() {
                self.mark_moved(true)
            } else {
                self.edited(ComposerOp::HistoryDown)
            },
            KeyCode::PageUp => self.asking(EffectView::ScrollUp(20)),
            KeyCode::PageDown => self.asking(EffectView::ScrollDown(20)),
            KeyCode::Char(c) => self.line_typed(c, key),
            _ => self,
        }
    }

    /// A key in the input line of the session shown.
    pub open spec fn composer_keyed(self, key: KeyEvent) -> AppView {
        if self.is_read_only() && key.code is Enter {
            self.noticed(NoticeLevel::Warn, "只读会话，无法发送"@)
        } else if self.is_read_only() && key.code is Esc {
            self.noticed(NoticeLevel::Warn, "只读会话，无法中止"@)
        } else if key.code is Enter && is_flood(self.guard) {
            self.flood_entered()
        } else {
            self.line_keyed(key)
        }
    }

    /// A key in the input line of the home screen; none while a session is
    /// being made.
    pub open spec fn draft_keyed(self, key: KeyEvent) -> AppView {
        if self.creates.len() > 0 {
            self
        } else {
            match draft_op(key) {
                Some(op) => AppView { draft: composed(self.draft, op), ..self },
                None => if key.code is Enter {
                    self.draft_started()
                } else {
                    self
                },
            }
        }
    }
}

impl App {
    /// Changes the input line of the session shown.
    fn edit(&mut self, op: ComposerOp)
        requires
            old(self).wf(),
        ensures
            final(self).wf(),
            final(self)@ == old(self)@.edited(op),
    {
        let ghost v = self@;
        if let Some(i) = self.active_index() {
            let ghost s0 = v.sessions[i as int];
            assert(s0 == self.sessions@[i as int]@);
            assert(session_ok(s0));
            compose(&mut self.sessions[i].composer, op);
            proof {
                let s = SessionView { composer: composed(s0.composer, op), ..s0 };
                assert(self.sessions@[i as int]@ =~= s);
                assert(self@.sessions =~= v.sessions.update(i as int, s));
                assert(self@ =~= v.put(i as int, s));
                lemma_put_ok(v, i as int, s);
            }
        }
    }

    fn mark(&mut self, n: usize)
        requires
            old(self).wf(),
        ensures
            final(self).wf(),
            final(self)@ == old(self)@.marking(n),
    {
        let ghost v = self@;
        self.slash_selected = n;
        assert(self@ =~= v.marking(n));
    }

    /// The text typed in the session shown.
    fn typed_text(&self) -> (r: String)
        ensures
            r@ == self@.typed(),
    {
        match self.active_index() {
            Some(i) => {
                assert(self@.sessions[i as int] == self.sessions@[i as int]@);
                self.sessions[i].composer.value()
            },
            None => {
                let none = String::new();
                assert(none@ =~= Seq::empty());
                none
            },
        }
    }

    /// The commands offered for the text typed.
    pub fn slash_candidates(&self) -> (out: Vec<SlashDef>)
        ensures
            crate::slash::def_names(out@) == self@.offered(),
            out@.len() == self@.offered().len(),
    {
        let out = match self.active_index() {
            Some(_) => {
                let text = self.typed_text();
                completions_for(text.as_str())
            },
            None => {
                let none: Vec<SlashDef> = Vec::new();
                assert(crate::slash::def_names(none@) =~= Seq::empty());
                none
            },
        };
        assert(crate::slash::def_names(out@).len() == out@.len());
        out
    }

    /// Whether the commands offered are shown.
    pub fn slash_visible(&self) -> (r: bool)
        ensures
            r == self@.offering(),
    {
        assert(self@.overlays.len() == self.overlays@.len());
        self.overlays.len() == 0 && self.slash_candidates().len() > 0
    }

    /// Moves the mark onto a command that is offered.
    pub fn clamp_slash_selected(&mut self)
        requires
            old(self).wf(),
        ensures
            final(self).wf(),
            final(self)@ == old(self)@.clamped(),
    {
        let n: usize = self.slash_candidates().len();
        if n == 0 {
            self.mark(0);
        } else if self.slash_selected >= n {
            self.mark(n - 1);
        }
    }

    fn replace_line(&mut self, i: usize, text: &str)
        requires
            old(self).wf(),
            i < old(self).sessions@.len(),
        ensures
            final(self).wf(),
            final(self)@ == old(self)@.put_composer(
                i as int,
                old(self)@.sessions[i as int].composer.replaced(text@),
            ),
    {
        let ghost v = self@;
        let ghost s0 = v.sessions[i as int];
        assert(s0 == self.sessions@[i as int]@);
        assert(session_ok(s0));
        self.sessions[i].composer.replace(text);
        proof {
            let s = SessionView { composer: s0.composer.replaced(text@), ..s0 };
            assert(self.sessions@[i as int]@ =~= s);
            assert(self@.sessions =~= v.sessions.update(i as int, s));
            assert(self@ =~= v.put(i as int, s));
            lemma_put_ok(v, i as int, s);
        }
    }

    /// Types the marked command out.
    pub fn autocomplete_slash(&mut self)
        requires
            old(self).wf(),
        ensures
            final(self).wf(),
            final(self)@ == old(self)@.completed(),
    {
        let candidates = self.slash_candidates();
        let n: usize = candidates.len();
        if n == 0 {
            return;
        }
        let at: usize = if self.slash_selected < n {
            self.slash_selected
        } else {
            n - 1
        };
        let name = candidates[at].name;
        assert(crate::slash::def_names(candidates@)[at as int] == name@);
        let text = cat3("/", name, " ");
        if let Some(i) = self.active_index() {
            self.replace_line(i, text.as_str());
        }
        self.mark(0);
    }

    fn finish_line(&mut self)
        requires
            old(self).wf(),
        ensures
            final(self).wf(),
            final(self)@ == old(self)@.line_done(),
    {
        self.edit(ComposerOp::Clear);
        self.mark(0);
    }

    fn ask_cwd(&mut self)
        requires
            old(self).wf(),
        ensures
            final(self).wf(),
            final(self)@ == old(self)@.cwd_asked(),
    {
        let dir = match self.effective_cwd() {
            Some(d) => d,
            None => {
                let none = String::new();
                assert(none@ =~= Seq::empty());
                none
            },
        };
        let input = chars_of(dir.as_str());
        let cursor: usize = dir.as_str().as_bytes().len();
        self.push_overlay(Overlay::CwdInput { input, cursor });
        self.finish_line();
    }

    /// Asks for an export of the session shown.
    pub fn export_active_session(&mut self, path: Option<String>)
        requires
            old(self).wf(),
        ensures
            final(self).wf(),
            final(self)@ == old(self)@.exported(opt_text(path)),
    {
        let i = match self.active_index() {
            Some(i) => i,
            None => {
                self.toast(NoticeLevel::Error, "无活动会话，无法导出".to_owned());
                return;
            },
        };
        assert(self@.sessions[i as int] == self.sessions@[i as int]@);
        let text = export_markdown(&self.sessions[i], self.stamp.as_str());
        let typed = match &path {
            Some(p) => !is_blank(p.as_str()),
            None => false,
        };
        let target = match path {
            Some(p) if typed => {
                let t = trimmed(p.as_str());
                expand_tilde(t.as_str(), &self.home_dir)
            },
            _ => default_export_path(self.sessions[i].seed.as_str(), self.file_stamp.as_str()),
        };
        self.emit(Effect::WriteFile { path: target, text, turn: false });
    }

    /// Asks for an export of one turn of the session shown.
    pub fn export_history_turn(&mut self, index: usize)
        requires
            old(self).wf(),
        ensures
            final(self).wf(),
            final(self)@ == old(self)@.turn_exported(index),
    {
        let i = match self.active_index() {
            Some(i) => i,
            None => {
                self.toast(NoticeLevel::Error, "无活动会话，无法导出".to_owned());
                return;
            },
        };
        assert(self@.sessions[i as int] == self.sessions@[i as int]@);
        if index >= self.sessions[i].timeline.turns.len() {
            self.toast(NoticeLevel::Error, "该回合不在当前窗口内".to_owned());
            return;
        }
        let number: u64 = self.sessions[i].timeline.turn_number(index);
        let shown: usize = if number <= usize::MAX as u64 {
            number as usize
        } else {
            usize::MAX
        };
        let text = export_turn_markdown(&self.sessions[i].timeline.turns[index], shown);
        let short = take_chars(self.sessions[i].seed.as_str(), 8);
        let mut path = cat3("qaqh-turn-", short.as_str(), "-");
        let n = dec_u64(number);
        path.push_str(n.as_str());
        path.push_str("-");
        path.push_str(self.file_stamp.as_str());
        path.push_str(".md");
        self.emit(Effect::WriteFile { path, text, turn: true });
    }

    fn run_new(&mut self, cwd: Option<String>)
        requires
            old(self).wf(),
        ensures
            final(self).wf(),
            final(self)@ == old(self)@.new_run(opt_text(cwd)),
    {
        match cwd {
            Some(p) => {
                let low = ascii_lower(p.as_str());
                if str_eq(p.as_str(), "?") || str_eq(low.as_str(), "edit") {
                    self.ask_cwd();
                    return;
                }
                let dir = expand_tilde(p.as_str(), &self.home_dir);
                if !is_absolute_path(dir.as_str()) {
                    let note = cat2("cwd 需为绝对路径：", p.as_str());
                    self.toast(NoticeLevel::Error, note);
                    return;
                }
                self.finish_line();
                self.new_session_with_cwd(Some(dir));
            },
            None => {
                self.finish_line();
                self.new_session_with_cwd(None);
            },
        }
    }

    fn show_side_panel(&mut self)
        requires
            old(self).wf(),
        ensures
            final(self).wf(),
            final(self)@ == old(self)@.command_run(SlashView::Workspace).0,
    {
        self.finish_line();
        let ghost v = self@;
        self.show_workspace = true;
        assert(self@ =~= v.flagged(Flags { show_workspace: true, ..v.flags }));
        if let Some(seed) = self.active_seed() {
            self.fetch_dashboard(seed.as_str());
        }
    }

    fn run_command(&mut self, cmd: SlashCmd) -> (run: bool)
        requires
            old(self).wf(),
        ensures
            final(self).wf(),
            (final(self)@, run) == old(self)@.command_run(cmd@),
    {
        match cmd {
            SlashCmd::New { cwd } => {
                self.run_new(cwd);
                true
            },
            SlashCmd::Help => {
                self.finish_line();
                self.toggle_overlay(Overlay::Help);
                true
            },
            SlashCmd::Sessions => {
                self.finish_line();
                self.open_session_list();
                true
            },
            SlashCmd::Settings => {
                self.finish_line();
                self.emit(Effect::ToggleSettings);
                true
            },
            SlashCmd::History => {
                self.finish_line();
                self.push_overlay(Overlay::History { selected: 0, detail: false, scroll: 0 });
                true
            },
            SlashCmd::Workspace => {
                self.show_side_panel();
                true
            },
            SlashCmd::Clear => {
                self.finish_line();
                true
            },
            SlashCmd::Export { path } => {
                self.finish_line();
                self.export_active_session(path);
                true
            },
            SlashCmd::Unknown(s) => {
                let n: usize = s.as_str().unicode_len();
                if n == 0 {
                    return false;
                }
                let note = cat2("未知命令：/", s.as_str());
                self.toast(NoticeLevel::Error, note);
                self.edit(ComposerOp::Clear);
                true
            },
        }
    }

    /// Runs a text as a command; the result says whether it is one.
    pub fn execute_slash_text(&mut self, raw: &str) -> (run: bool)
        requires
            old(self).wf(),
        ensures
            final(self).wf(),
            (final(self)@, run) == old(self)@.text_run(raw@),
    {
        let t = trimmed(raw);
        match parse(t.as_str()) {
            Some(cmd) => {
                if str_eq(t.as_str(), "/") {
                    return false;
                }
                self.run_command(cmd)
            },
            None => false,
        }
    }

    fn enter_command(&mut self)
        requires
            old(self).wf(),
        ensures
            final(self).wf(),
            final(self)@ == old(self)@.command_entered(),
    {
        let text = self.typed_text();
        let t = trimmed(text.as_str());
        let offering = self.slash_visible();
        if !has_prefix(t.as_str(), "/") {
            self.emit(Effect::SendMessage);
            return;
        }
        if str_eq(t.as_str(), "/") {
            self.autocomplete_slash();
            return;
        }
        if offering && !has_space(t.as_str()) {
            let chars = chars_of(t.as_str());
            let n: usize = chars.len();
            proof {
                reveal_strlit("/");
            }
            let behind = crate::text::string_of(&chars, 1, n);
            assert(behind@ =~= t@.skip(1));
            let name = ascii_lower(behind.as_str());
            if is_exact_command(name.as_str()) {
                if !self.execute_slash_text(t.as_str()) {
                    self.emit(Effect::SendMessage);
                }
            } else {
                self.autocomplete_slash();
            }
            return;
        }
        if !self.execute_slash_text(t.as_str()) {
            if offering {
                self.autocomplete_slash();
            } else {
                self.emit(Effect::SendMessage);
            }
        }
    }

    fn move_mark(&mut self, down: bool)
        requires
            old(self).wf(),
        ensures
            final(self).wf(),
            final(self)@ == old(self)@.mark_moved(down),
    {
        let n: usize = self.slash_candidates().len();
        let at: usize = self.slash_selected;
        if n == 0 {
            return;
        }
        if down {
            self.mark(((at as u128 + 1) % (n as u128)) as usize);
        } else if at == 0 {
            self.mark(n - 1);
        } else {
            self.mark(at - 1);
        }
    }

    /// Whether the session shown is driven by another client.
    pub fn active_v2_read_only(&self) -> (r: bool)
        ensures
            r == self@.is_read_only(),
    {
        match self.active_index() {
            Some(i) => {
                assert(self@.sessions[i as int] == self.sessions@[i as int]@);
                self.sessions[i].read_only
            },
            None => false,
        }
    }

    fn enter_flood(&mut self)
        requires
            old(self).wf(),
            is_flood(old(self)@.guard),
        ensures
            final(self).wf(),
            final(self)@ == old(self)@.flood_entered(),
    {
        self.edit(ComposerOp::Insert(' '));
        let ghost v = self@;
        let first = self.paste_guard.take_toast();
        assert(self@ =~= AppView {
            guard: GuardView { toasted: v.guard.toasted || first, ..v.guard },
            ..v
        });
        if first {
            self.toast(
                NoticeLevel::Warn,
                "检测到粘贴洪流：已抑制 Enter 自动发送（当前终端不支持括号粘贴）".to_owned(),
            );
        } else {
            assert(self@ =~= v);
        }
    }

    fn enter_line(&mut self, alt: bool)
        requires
            old(self).wf(),
        ensures
            final(self).wf(),
            final(self)@ == old(self)@.line_entered(alt),
    {
        if alt {
            self.edit(ComposerOp::Insert('\n'));
            return;
        }
        let text = self.typed_text();
        let offering = self.slash_visible();
        let open = self.active_index().is_some();
        let front = crate::text::trimmed_start(text.as_str());
        if offering || (open && !contains_str(text.as_str(), "\n") && has_prefix(
            front.as_str(),
            "/",
        )) {
            self.enter_command();
        } else {
            self.emit(Effect::SendMessage);
        }
    }

    fn tab_line(&mut self)
        requires
            old(self).wf(),
        ensures
            final(self).wf(),
            final(self)@ == old(self)@.line_tabbed(),
    {
        if self.slash_visible() {
            self.autocomplete_slash();
            return;
        }
        let text = self.typed_text();
        let t = trimmed(text.as_str());
        if str_eq(t.as_str(), "/new") || str_eq(t.as_str(), "/n") {
            self.ask_cwd();
        }
    }

    fn change_line(&mut self, op: ComposerOp)
        requires
            old(self).wf(),
        ensures
            final(self).wf(),
            final(self)@ == old(self)@.line_changed(op),
    {
        if self.active_index().is_some() {
            self.edit(op);
            self.clamp_slash_selected();
        }
    }

    fn type_char(&mut self, c: char, key: KeyEvent)
        requires
            old(self).wf(),
        ensures
            final(self).wf(),
            final(self)@ == old(self)@.line_typed(c, key),
    {
        let ctrl = key.modifiers.control;
        if ctrl && c == 'a' {
            if let Some(seed) = self.active_seed() {
                let input: Vec<char> = Vec::new();
                assert(input@ =~= Seq::empty());
                self.push_overlay(Overlay::AttachPath { input, cursor: 0, seed });
            }
        } else if ctrl && c == 'p' {
            self.emit(Effect::ToggleMode);
        } else if ctrl && c == 'y' {
            self.emit(Effect::UndoLast);
        } else if ctrl && c == 'e' {
            self.emit(Effect::Compact);
        } else if ctrl && c == 'j' {
            self.edit(ComposerOp::Insert('\n'));
        } else {
            match edit_for(key) {
                Some(op) => match op {
                    ComposerOp::Insert(_) => {
                        self.change_line(op);
                    },
                    _ => {
                        self.edit(op);
                    },
                },
                None => {},
            }
        }
    }

    fn line_key(&mut self, key: KeyEvent)
        requires
            old(self).wf(),
        ensures
            final(self).wf(),
            final(self)@ == old(self)@.line_keyed(key),
    {
        let ctrl = key.modifiers.control;
        match key.code {
            KeyCode::Esc => {
                if self.slash_visible() {
                    self.mark(0);
                } else {
                    self.emit(Effect::CancelTurn);
                }
            },
            KeyCode::Tab => {
                self.tab_line();
            },
            KeyCode::Enter => {
                self.enter_line(key.modifiers.alt);
            },
            KeyCode::Backspace => {
                self.change_line(
                    if ctrl {
                        ComposerOp::CutWord
                    } else {
                        ComposerOp::Backspace
                    },
                );
            },
            KeyCode::Delete => {
                self.change_line(ComposerOp::Delete);
            },
            KeyCode::Left => {
                self.edit(
                    if ctrl {
                        ComposerOp::WordLeft
                    } else {
                        ComposerOp::Left
                    },
                );
            },
            KeyCode::Right => {
                self.edit(
                    if ctrl {
                        ComposerOp::WordRight
                    } else {
                        ComposerOp::Right
                    },
                );
            },
            KeyCode::Home => {
                if ctrl {
                    self.emit(Effect::ScrollTop);
                } else {
                    self.edit(ComposerOp::Home);
                }
            },
            KeyCode::End => {
                if ctrl {
                    self.emit(Effect::ScrollBottom);
                } else {
                    self.edit(ComposerOp::End);
                }
            },
            KeyCode::Up => {
                if self.slash_visible() {
                    self.move_mark(false);
                } else {
                    self.edit(ComposerOp::HistoryUp);
                }
            },
            KeyCode::Down => {
                if self.slash_visible() {
                    self.move_mark(true);
                } else {
                    self.edit(ComposerOp::HistoryDown);
                }
            },
            KeyCode::PageUp => {
                self.emit(Effect::ScrollUp(20));
            },
            KeyCode::PageDown => {
                self.emit(Effect::ScrollDown(20));
            },
            KeyCode::Char(c) => {
                self.type_char(c, key);
            },
            _ => {},
        }
    }

    /// A key in the input line of the session shown.
    pub fn composer_key(&mut self, key: KeyEvent)
        requires
            old(self).wf(),
        ensures
            final(self).wf(),
            final(self)@ == old(self)@.composer_keyed(key),
    {
        let enter = key.code == KeyCode::Enter;
        if self.active_v2_read_only() {
            if enter {
                self.toast(NoticeLevel::Warn, "只读会话，无法发送".to_owned());
                return;
            }
            if key.code == KeyCode::Esc {
                self.toast(NoticeLevel::Warn, "只读会话，无法中止".to_owned());
                return;
            }
        }
        if enter && self.paste_guard.flooding() {
            self.enter_flood();
        } else {
            self.line_key(key);
        }
    }

    /// A key in the input line of the home screen.
    pub fn draft_key(&mut self, key: KeyEvent)
        requires
            old(self).wf(),
        ensures
            final(self).wf(),
            final(self)@ == old(self)@.draft_keyed(key),
    {
        let ghost v = self@;
        assert(v.creates.len() == self.pending_creates@.len());
        if self.pending_creates.len() > 0 {
            return;
        }
        let op = if key.code == KeyCode::Enter && key.modifiers.alt {
            Some(ComposerOp::Insert('\n'))
        } else if key.code == KeyCode::Char('j') && key.modifiers.control {
            Some(ComposerOp::Insert('\n'))
        } else if key.code == KeyCode::Esc {
            Some(ComposerOp::Clear)
        } else {
            edit_for(key)
        };
        match op {
            Some(op) => {
                compose(&mut self.draft_composer, op);
                assert(self@ =~= AppView { draft: composed(v.draft, op), ..v });
            },
            None => {
                if key.code == KeyCode::Enter {
                    self.start_draft_conversation();
                }
            },
        }
    }
}

} // verus!
