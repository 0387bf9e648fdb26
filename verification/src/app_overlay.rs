//! Keys for the layers over the transcript and for the home screen.

use crate::app::{App, AppView, Flags};
use crate::keymap::{KeyCode, KeyEvent};
use crate::message::{Effect, EffectView, NoticeLevel, SettingsOp, SettingsOpView};
use crate::overlay::{
    edit_line, line_after, line_ok, line_takes, ConfirmAction, ConfirmView, FieldKind, Line, Overlay,
    OverlayView, SettingsState, SettingsView, AttachSubmit,
};
use crate::path::{extension, guess_media_type, media_type};
use crate::session::{running, running_turn};
use crate::slash::{expand_tilde, expanded, is_absolute_path, lowered};
use crate::text::{
    blank, cat2, is_blank, join, joined, lines, lines_of, opt_text, starts_with, string_of,
    texts, trim, trimmed,
};
use crate::timeline::{Block, Round, TimelineBlockKind};
use vstd::prelude::*;

verus! {

/// The texts of the first `n` blocks that are thinking.
pub open spec fn thinking_in_blocks(blocks: Seq<Block>, n: nat) -> Seq<Seq<char>>
    decreases n,
{
    if n == 0 {
        Seq::empty()
    } else {
        let rest = thinking_in_blocks(blocks, (n - 1) as nat);
        let b = blocks[n - 1];
        if b.kind == TimelineBlockKind::Reasoning && b.text@.len() > 0 {
            rest.push(b.text@)
        } else {
            rest
        }
    }
}

/// The texts of thinking in the first `n` rounds.
pub open spec fn thinking_in_rounds(rounds: Seq<Round>, n: nat) -> Seq<Seq<char>>
    decreases n,
{
    if n == 0 {
        Seq::empty()
    } else {
        thinking_in_rounds(rounds, (n - 1) as nat) + thinking_in_blocks(
            rounds[n - 1].blocks@,
            rounds[n - 1].blocks@.len(),
        )
    }
}

fn thinking_of(rounds: &Vec<Round>) -> (out: Vec<String>)
    ensures
        texts(out@) == thinking_in_rounds(rounds@, rounds@.len()),
{
    broadcast use crate::text::lemma_texts_push;

    let mut out: Vec<String> = Vec::new();
    let n: usize = rounds.len();
    let mut i: usize = 0;
    assert(texts(out@) =~= thinking_in_rounds(rounds@, 0));
    while i < n
        invariant
            i <= n == rounds@.len(),
            texts(out@) == thinking_in_rounds(rounds@, i as nat),
        decreases n - i,
    {
        let blocks = &rounds[i].blocks;
        let m: usize = blocks.len();
        let mut k: usize = 0;
        let ghost base = texts(out@);
        assert(base =~= base + thinking_in_blocks(blocks@, 0));
        while k < m
            invariant
                k <= m == blocks@.len(),
                texts(out@) == base + thinking_in_blocks(blocks@, k as nat),
            decreases m - k,
        {
            let len: usize = blocks[k].text.as_str().unicode_len();
            let ghost sofar = thinking_in_blocks(blocks@, k as nat);
            if blocks[k].kind == TimelineBlockKind::Reasoning && len > 0 {
                out.push(blocks[k].text.clone());
                assert((base + sofar).push(blocks@[k as int].text@) =~= base + sofar.push(
                    blocks@[k as int].text@,
                ));
            }
            k += 1;
        }
        i += 1;
    }
    out
}

/// How far text can be scrolled.
pub open spec fn scroll_end(body: Seq<char>) -> int {
    if lines(body).len() > 1 {
        lines(body).len() - 1
    } else {
        0
    }
}

/// Scrolled down by `n` lines.
pub open spec fn scrolled_down(scroll: usize, n: int, body: Seq<char>) -> usize {
    if scroll + n <= scroll_end(body) {
        (scroll + n) as usize
    } else {
        scroll_end(body) as usize
    }
}

/// Scrolled up by `n` lines.
pub open spec fn scrolled_up(scroll: usize, n: int) -> usize {
    if scroll >= n {
        (scroll - n) as usize
    } else {
        0
    }
}

/// Which kind of layer.
pub open spec fn layer_kind(o: OverlayView) -> int {
    match o {
        OverlayView::SessionList { .. } => 0,
        OverlayView::Settings(_) => 1,
        OverlayView::Help => 2,
        OverlayView::AttachPath { .. } => 3,
        OverlayView::Confirm { .. } => 4,
        OverlayView::CwdInput { .. } => 5,
        OverlayView::History { .. } => 6,
        OverlayView::Thinking { .. } => 7,
    }
}

fn kind_of_layer(o: &Overlay) -> (r: u8)
    ensures
        r == layer_kind(o@),
{
    match o {
        Overlay::SessionList { .. } => 0,
        Overlay::Settings(_) => 1,
        Overlay::Help => 2,
        Overlay::AttachPath { .. } => 3,
        Overlay::Confirm { .. } => 4,
        Overlay::CwdInput { .. } => 5,
        Overlay::History { .. } => 6,
        Overlay::Thinking { .. } => 7,
    }
}

/// What a key on the settings page asks for, while nothing is typed.
pub open spec fn settings_effect(st: SettingsView, code: KeyCode) -> Option<EffectView> {
    match code {
        KeyCode::Up => Some(EffectView::Settings(SettingsOpView::MoveUp(1))),
        KeyCode::Down => Some(EffectView::Settings(SettingsOpView::MoveDown(1))),
        KeyCode::PageUp => Some(EffectView::Settings(SettingsOpView::MoveUp(8))),
        KeyCode::PageDown => Some(EffectView::Settings(SettingsOpView::MoveDown(8))),
        KeyCode::Enter => Some(
            EffectView::Settings(
                match st.kind {
                    FieldKind::Enum => SettingsOpView::CycleOn,
                    FieldKind::Toggle => SettingsOpView::Flip,
                    FieldKind::Port => SettingsOpView::PortActivate,
                    _ => SettingsOpView::StartEdit,
                },
            ),
        ),
        KeyCode::Left => Some(
            EffectView::Settings(
                if st.kind is Port {
                    SettingsOpView::PortBack
                } else {
                    SettingsOpView::CycleBack
                },
            ),
        ),
        KeyCode::Right => Some(
            EffectView::Settings(
                if st.kind is Port {
                    SettingsOpView::PortOn
                } else {
                    SettingsOpView::CycleOn
                },
            ),
        ),
        KeyCode::Char(c) => if c == 'k' {
            Some(EffectView::Settings(SettingsOpView::MoveUp(1)))
        } else if c == 'j' {
            Some(EffectView::Settings(SettingsOpView::MoveDown(1)))
        } else if c == 's' || c == 'S' {
            Some(EffectView::Settings(SettingsOpView::Save))
        } else if c == 'r' {
            Some(EffectView::FetchConfig)
        } else if '1' <= c <= '4' && st.on_permission_level {
            Some(EffectView::Settings(SettingsOpView::PermissionLevel((c as u32 - 48) as u8)))
        } else {
            None
        },
        _ => None,
    }
}

fn settings_request(kind: FieldKind, on_permission_level: bool, code: KeyCode) -> (r: Option<Effect>)
    ensures
        forall|st: SettingsView|
            st.kind == kind && st.on_permission_level == on_permission_level ==> #[trigger] settings_effect(
                st,
                code,
            ) == match r {
                Some(e) => Some(e@),
                None => None,
            },
{
    let op = match code {
        KeyCode::Up => SettingsOp::MoveUp(1),
        KeyCode::Down => SettingsOp::MoveDown(1),
        KeyCode::PageUp => SettingsOp::MoveUp(8),
        KeyCode::PageDown => SettingsOp::MoveDown(8),
        KeyCode::Enter => match kind {
            FieldKind::Enum => SettingsOp::CycleOn,
            FieldKind::Toggle => SettingsOp::Flip,
            FieldKind::Port => SettingsOp::PortActivate,
            _ => SettingsOp::StartEdit,
        },
        KeyCode::Left => if kind == FieldKind::Port {
            SettingsOp::PortBack
        } else {
            SettingsOp::CycleBack
        },
        KeyCode::Right => if kind == FieldKind::Port {
            SettingsOp::PortOn
        } else {
            SettingsOp::CycleOn
        },
        KeyCode::Char(c) => if c == 'k' {
            SettingsOp::MoveUp(1)
        } else if c == 'j' {
            SettingsOp::MoveDown(1)
        } else if c == 's' || c == 'S' {
            SettingsOp::Save
        } else if c == 'r' {
            return Some(Effect::FetchConfig);
        } else if c >= '1' && c <= '4' && on_permission_level {
            SettingsOp::PermissionLevel((c as u32 - 48) as u8)
        } else {
            return None;
        },
        _ => {
            return None;
        },
    };
    Some(Effect::Settings(op))
}

impl AppView {
    /// The seed of a listed session, by its place among those shown.
    pub open spec fn chosen(self, show_archived: bool, selected: usize) -> Option<Seq<char>> {
        let items = self.shown_list(show_archived);
        if selected < items.len() {
            Some(self.list[items[selected as int] as int].seed)
        } else {
            None
        }
    }

    /// The list of sessions is to be fetched again.
    pub open spec fn stale_list(self) -> bool {
        match self.flags.list_at {
            Some(t) => self.flags.now - t > 3000,
            None => true,
        }
    }

    /// The list of sessions opened, or closed where it is on top.
    pub open spec fn list_toggled(self) -> AppView {
        if self.overlays.len() > 0 && self.overlays.last() is SessionList {
            self.uncovered()
        } else {
            let v = if self.stale_list() {
                self.asking(EffectView::FetchSessionList)
            } else {
                self
            };
            v.covered(OverlayView::SessionList { selected: 0, show_archived: false })
        }
    }

    /// A layer put on top, or the top one taken off where it is of that kind.
    pub open spec fn layer_toggled(self, o: OverlayView) -> AppView {
        if self.overlays.len() > 0 && layer_kind(self.overlays.last()) == layer_kind(o) {
            self.uncovered()
        } else {
            self.covered(o)
        }
    }

    /// The thinking of the running turn of the session shown, on top.
    pub open spec fn thinking_opened(self) -> AppView {
        match self.view_seed() {
            Some(seed) => match self.session_at(seed) {
                Some(i) => {
                    let m = self.sessions[i].timeline;
                    let parts = match running(m) {
                        Some(t) => thinking_in_rounds(
                            m.turns[t].rounds@,
                            m.turns[t].rounds@.len(),
                        ),
                        None => Seq::empty(),
                    };
                    if parts.len() == 0 {
                        self.noticed(NoticeLevel::Info, "当前回合没有进行中的思考"@)
                    } else {
                        self.covered(
                            OverlayView::Thinking { seed, scroll: 0, body: joined(parts, "\n\n"@) },
                        )
                    }
                },
                None => self,
            },
            None => self,
        }
    }

    /// A key for the thinking layer, taken off already.
    pub open spec fn thinking_keyed(
        self,
        seed: Seq<char>,
        scroll: usize,
        body: Seq<char>,
        key: KeyEvent,
    ) -> AppView {
        let at = |n: usize| self.covered(OverlayView::Thinking { seed, scroll: n, body });
        match key.code {
            KeyCode::Esc => self,
            KeyCode::Up => at(scrolled_up(scroll, 1)),
            KeyCode::Down => at(scrolled_down(scroll, 1, body)),
            KeyCode::PageUp => at(scrolled_up(scroll, 20)),
            KeyCode::PageDown => at(scrolled_down(scroll, 20, body)),
            KeyCode::Char(c) => if c == 'k' {
                at(scrolled_up(scroll, 1))
            } else if c == 'j' {
                at(scrolled_down(scroll, 1, body))
            } else if c == 'e' {
                AppView { pager: Some(body), ..at(scroll) }
            } else {
                at(scroll)
            },
            _ => at(scroll),
        }
    }

    /// A key for the settings page, taken off already.
    pub open spec fn settings_keyed(self, st: SettingsView, key: KeyEvent) -> AppView {
        match st.editing {
            Some(l) => match key.code {
                KeyCode::Esc => self.covered(
                    OverlayView::Settings(SettingsView { editing: None, ..st }),
                ),
                KeyCode::Enter => self.covered(
                    OverlayView::Settings(SettingsView { editing: None, ..st }),
                ).asking(EffectView::Settings(SettingsOpView::Commit(l.input))),
                _ => self.covered(
                    OverlayView::Settings(SettingsView { editing: Some(line_after(l, key)), ..st }),
                ),
            },
            None => if key.code is Esc || key.code == KeyCode::Char('q') {
                self
            } else {
                let v = self.covered(OverlayView::Settings(st));
                match settings_effect(st, key.code) {
                    Some(e) => v.asking(e),
                    None => v,
                }
            },
        }
    }

    /// A file asked to be attached.
    pub open spec fn upload_asked(self, seed: Seq<char>, path: Seq<char>) -> AppView {
        if self.session_at(seed) is None {
            self.noticed(NoticeLevel::Error, "附件目标会话已关闭："@ + seed)
        } else {
            self.asking(
                EffectView::Upload { seed, path, media_type: media_type(lowered(extension(path))) },
            )
        }
    }

    /// A key for the path being typed, its layer taken off already.
    pub open spec fn attach_keyed(self, l: Line, seed: Seq<char>, key: KeyEvent) -> AppView {
        match key.code {
            KeyCode::Esc => self,
            KeyCode::Enter => if blank(l.input) {
                self
            } else {
                self.upload_asked(seed, trim(l.input))
            },
            _ => self.covered(OverlayView::AttachPath { line: line_after(l, key), seed }),
        }
    }

    /// A directory typed for a new session.
    pub open spec fn cwd_confirmed(self, raw: Seq<char>) -> AppView {
        let cwd = expanded(trim(raw), self.home_dir);
        if blank(raw) {
            self.creating_in(None)
        } else if !starts_with(cwd, "/"@) {
            self.noticed(NoticeLevel::Error, "cwd 需为绝对路径："@ + cwd)
        } else {
            self.creating_in(Some(cwd))
        }
    }

    /// A key for the directory being typed, its layer taken off already.
    pub open spec fn cwd_keyed(self, l: Line, key: KeyEvent) -> AppView {
        match key.code {
            KeyCode::Esc => self,
            KeyCode::Enter => self.cwd_confirmed(l.input),
            _ => self.covered(OverlayView::CwdInput { line: line_after(l, key) }),
        }
    }

    /// A key for a confirmation, its layer taken off already.
    pub open spec fn confirm_keyed(self, action: ConfirmView, key: KeyEvent) -> AppView {
        if key.code == KeyCode::Char('y') || key.code == KeyCode::Char('Y') {
            match action {
                ConfirmView::DeleteSession(s) => self.asking(EffectView::DeleteSession(s)),
                ConfirmView::ArchiveSession(s) => self.asking(EffectView::ArchiveSession(s)),
                ConfirmView::CloseTab(s) => self.closed(s),
                ConfirmView::UndoTurn { seed, turn_id } => self.asking(
                    EffectView::UndoTurn { seed, turn_id },
                ),
            }
        } else {
            self
        }
    }

    /// A confirmation put on top.
    pub open spec fn confirming(self, action: ConfirmView) -> AppView {
        self.covered(OverlayView::Confirm { action })
    }

    /// A key for the list of sessions, its layer taken off already.
    pub open spec fn list_keyed(self, selected: usize, show_archived: bool, key: KeyEvent) -> AppView {
        let count = self.shown_list(show_archived).len();
        let at = |n: usize, a: bool|
            self.covered(OverlayView::SessionList { selected: n, show_archived: a });
        let same = at(selected, show_archived);
        let up = at(scrolled_up(selected, 1), show_archived);
        let down = at(
            if selected + 1 < count {
                (selected + 1) as usize
            } else if count > 0 {
                (count - 1) as usize
            } else {
                0
            },
            show_archived,
        );
        match key.code {
            KeyCode::Esc => self,
            KeyCode::Up => up,
            KeyCode::Down => down,
            KeyCode::Enter => match self.chosen(show_archived, selected) {
                Some(seed) => self.opened(seed),
                None => same,
            },
            KeyCode::Char(c) => if c == 'q' {
                self
            } else if c == 'k' {
                up
            } else if c == 'j' {
                down
            } else if c == 'a' {
                at(selected, !show_archived)
            } else if c == 'r' {
                same.asking(EffectView::FetchSessionList)
            } else if c == 'n' {
                self.creating_in(None)
            } else {
                same.list_acted(self.chosen(show_archived, selected), c)
            },
            _ => same,
        }
    }

    /// The session before the marked one marked on the home screen.
    pub open spec fn home_up(self) -> AppView {
        let f = self.flags;
        let count = self.shown_list(f.home_show_archived).len();
        if count == 0 {
            self
        } else if f.home_selected == 0 {
            self.flagged(Flags { home_selected: (count - 1) as usize, ..f })
        } else {
            self.flagged(Flags { home_selected: (f.home_selected - 1) as usize, ..f })
        }
    }

    /// The session behind the marked one marked on the home screen.
    pub open spec fn home_down(self) -> AppView {
        let f = self.flags;
        let count = self.shown_list(f.home_show_archived).len();
        if count == 0 {
            self
        } else {
            self.flagged(
                Flags { home_selected: ((f.home_selected + 1) % (count as int)) as usize, ..f },
            )
        }
    }

    /// What a letter does to a listed session.
    pub open spec fn list_acted(self, seed: Option<Seq<char>>, c: char) -> AppView {
        match seed {
            Some(seed) => if c == 'x' {
                self.confirming(ConfirmView::ArchiveSession(seed))
            } else if c == 'u' {
                self.asking(EffectView::UnarchiveSession(seed))
            } else if c == 'D' {
                self.confirming(ConfirmView::DeleteSession(seed))
            } else {
                self
            },
            None => self,
        }
    }

    /// A letter on the home screen.
    pub open spec fn home_typed(self, c: char, control: bool) -> AppView {
        let f = self.flags;
        if c == 'k' {
            self.home_up()
        } else if c == 'j' {
            self.home_down()
        } else if c == 'n' && !control {
            self.creating_in(None)
        } else if c == 'r' {
            self.asking(EffectView::FetchSessionList)
        } else if c == 'a' {
            self.flagged(
                Flags { home_show_archived: !f.home_show_archived, home_selected: 0, ..f },
            )
        } else {
            self.list_acted(self.chosen(f.home_show_archived, f.home_selected), c)
        }
    }

    /// A key on the home screen.
    pub open spec fn home_keyed(self, key: KeyEvent) -> AppView {
        match key.code {
            KeyCode::Up => self.home_up(),
            KeyCode::Down => self.home_down(),
            KeyCode::Enter => match self.chosen(
                self.flags.home_show_archived,
                self.flags.home_selected,
            ) {
                Some(seed) => self.opened(seed),
                None => self,
            },
            KeyCode::Char(c) => self.home_typed(c, key.modifiers.control),
            _ => self,
        }
    }

    /// A key for the history, its layer taken off already.
    pub open spec fn history_keyed(
        self,
        selected: usize,
        detail: bool,
        scroll: usize,
        key: KeyEvent,
    ) -> AppView {
        let at = |d: bool| self.covered(OverlayView::History { selected, detail: d, scroll });
        match key.code {
            KeyCode::Esc => if detail {
                at(false)
            } else {
                self
            },
            KeyCode::Enter => at(true),
            _ => at(detail),
        }
    }

    /// Whether the top layer can take a key: every key but the one that deletes
    /// backwards, where a directory is typed with the cursor past its end.
    pub open spec fn layer_takes(self, key: KeyEvent) -> bool {
        self.overlays.len() > 0 ==> match self.overlays.last() {
            OverlayView::CwdInput { line } => line_takes(line, key),
            _ => true,
        }
    }

    /// A key for the top layer.
    pub open spec fn overlay_keyed(self, key: KeyEvent) -> AppView {
        let b = self.uncovered();
        if self.overlays.len() == 0 {
            self
        } else {
            match self.overlays.last() {
                OverlayView::Thinking { seed, scroll, body } => b.thinking_keyed(
                    seed,
                    scroll,
                    body,
                    key,
                ),
                OverlayView::Help => b,
                OverlayView::Settings(st) => b.settings_keyed(st, key),
                OverlayView::AttachPath { line, seed } => b.attach_keyed(line, seed, key),
                OverlayView::Confirm { action } => b.confirm_keyed(action, key),
                OverlayView::SessionList { selected, show_archived } => b.list_keyed(
                    selected,
                    show_archived,
                    key,
                ),
                OverlayView::CwdInput { line } => b.cwd_keyed(line, key),
                OverlayView::History { selected, detail, scroll } => b.history_keyed(
                    selected,
                    detail,
                    scroll,
                    key,
                ),
            }
        }
    }
}

/// A key that the home screen takes.
pub open spec fn home_takes(code: KeyCode) -> bool {
    match code {
        KeyCode::Up | KeyCode::Down | KeyCode::Enter => true,
        KeyCode::Char(c) => c == 'j' || c == 'k' || c == 'n' || c == 'r' || c == 'a' || c == 'x' || c
            == 'u' || c == 'D',
        _ => false,
    }
}

impl App {
    /// Opens the list of sessions, or closes it where it is on top.
    pub fn open_session_list(&mut self)
        requires
            old(self).wf(),
        ensures
            final(self).wf(),
            final(self)@ == old(self)@.list_toggled(),
    {
        let n: usize = self.overlays.len();
        if n > 0 {
            assert(self@.overlays.last() == self.overlays@[n - 1]@);
            if kind_of_layer(&self.overlays[n - 1]) == 0 {
                self.pop_overlay();
                return;
            }
        }
        if self.list_is_stale() {
            self.emit(Effect::FetchSessionList);
        }
        self.push_overlay(Overlay::SessionList { selected: 0, show_archived: false });
    }

    /// Whether the list of sessions is to be fetched again.
    pub fn list_is_stale(&self) -> (r: bool)
        ensures
            r == self@.stale_list(),
    {
        match self.session_list_at {
            Some(t) => self.now > t && self.now - t > 3000,
            None => true,
        }
    }

    /// Puts a layer on top, or takes the top one off where it is of that kind.
    pub fn toggle_overlay(&mut self, overlay: Overlay)
        requires
            old(self).wf(),
            crate::overlay::overlay_ok(overlay@),
        ensures
            final(self).wf(),
            final(self)@ == old(self)@.layer_toggled(overlay@),
    {
        let n: usize = self.overlays.len();
        if n > 0 {
            assert(self@.overlays.last() == self.overlays@[n - 1]@);
            if kind_of_layer(&self.overlays[n - 1]) == kind_of_layer(&overlay) {
                self.pop_overlay();
                return;
            }
        }
        self.push_overlay(overlay);
    }

    /// Shows the thinking of the running turn of the session shown.
    pub fn open_thinking_overlay(&mut self)
        requires
            old(self).wf(),
        ensures
            final(self).wf(),
            final(self)@ == old(self)@.thinking_opened(),
    {
        let seed = match self.view_seed() {
            Some(s) => s,
            None => {
                return;
            },
        };
        let i = match self.find_session(seed.as_str()) {
            Some(i) => i,
            None => {
                return;
            },
        };
        assert(self@.sessions[i as int] == self.sessions@[i as int]@);
        let parts = match running_turn(&self.sessions[i].timeline) {
            Some(t) => thinking_of(&self.sessions[i].timeline.turns[t].rounds),
            None => {
                let none: Vec<String> = Vec::new();
                assert(texts(none@) =~= Seq::empty());
                none
            },
        };
        assert(texts(parts@).len() == parts@.len());
        if parts.len() == 0 {
            self.toast(NoticeLevel::Info, "当前回合没有进行中的思考".to_owned());
        } else {
            let body = join(&parts, "\n\n");
            self.push_overlay(Overlay::Thinking { seed, scroll: 0, body });
        }
    }

    fn thinking_key(&mut self, seed: String, scroll: usize, body: String, key: KeyEvent)
        requires
            old(self).wf(),
        ensures
            final(self).wf(),
            final(self)@ == old(self)@.thinking_keyed(seed@, scroll, body@, key),
    {
        let ghost v = self@;
        let count: usize = lines_of(body.as_str()).len();
        let end: usize = count.saturating_sub(1);
        assert(end == scroll_end(body@)) by {
            assert(count == lines(body@).len());
        }
        let up1: usize = scroll.saturating_sub(1);
        let up20: usize = scroll.saturating_sub(20);
        let down1: usize = if scroll < end {
            scroll + 1
        } else {
            end
        };
        let down20: usize = if end >= 20 && scroll <= end - 20 {
            scroll + 20
        } else {
            end
        };
        assert(down1 == scrolled_down(scroll, 1, body@));
        assert(down20 == scrolled_down(scroll, 20, body@));
        let next: usize = match key.code {
            KeyCode::Esc => {
                return;
            },
            KeyCode::Up => up1,
            KeyCode::Down => down1,
            KeyCode::PageUp => up20,
            KeyCode::PageDown => down20,
            KeyCode::Char(c) => if c == 'k' {
                up1
            } else if c == 'j' {
                down1
            } else {
                scroll
            },
            _ => scroll,
        };
        let ask_pager = key.code == KeyCode::Char('e');
        let copy = body.clone();
        self.push_overlay(Overlay::Thinking { seed, scroll: next, body });
        if ask_pager {
            let ghost w = self@;
            self.pending_pager = Some(copy);
            assert(self@ =~= AppView { pager: Some(copy@), ..w });
        }
        assert(self@ == v.thinking_keyed(seed@, scroll, body@, key));
    }

    fn settings_key(&mut self, st: SettingsState, key: KeyEvent)
        requires
            old(self).wf(),
            st@.editing matches Some(l) ==> line_ok(l),
        ensures
            final(self).wf(),
            final(self)@ == old(self)@.settings_keyed(st@, key),
    {
        let ghost sv = st@;
        let SettingsState { kind, on_permission_level, editing } = st;
        match editing {
            Some(b) => {
                let mut buf = b.buf;
                let mut cursor: usize = b.cursor;
                let ghost l = Line { input: buf@, cursor: cursor as int };
                match key.code {
                    KeyCode::Esc => {
                        let next = SettingsState { kind, on_permission_level, editing: None };
                        assert(next@ =~= SettingsView { editing: None, ..sv });
                        self.push_overlay(Overlay::Settings(next));
                    },
                    KeyCode::Enter => {
                        let next = SettingsState { kind, on_permission_level, editing: None };
                        assert(next@ =~= SettingsView { editing: None, ..sv });
                        self.push_overlay(Overlay::Settings(next));
                        self.emit(Effect::Settings(SettingsOp::Commit(buf)));
                    },
                    _ => {
                        edit_line(&mut buf, &mut cursor, key);
                        let next = SettingsState {
                            kind,
                            on_permission_level,
                            editing: Some(crate::overlay::EditBuf { buf, cursor }),
                        };
                        assert(next@ =~= SettingsView { editing: Some(line_after(l, key)), ..sv });
                        self.push_overlay(Overlay::Settings(next));
                    },
                }
            },
            None => {
                if key.code == KeyCode::Esc || key.code == KeyCode::Char('q') {
                    return;
                }
                let next = SettingsState { kind, on_permission_level, editing: None };
                assert(next@ =~= sv);
                self.push_overlay(Overlay::Settings(next));
                let ghost e = settings_effect(sv, key.code);
                if let Some(e) = settings_request(kind, on_permission_level, key.code) {
                    self.emit(e);
                }
            },
        }
    }

    /// Asks for a file to be attached to the session it was typed for.
    pub fn upload_attachment(&mut self, submit: AttachSubmit)
        requires
            old(self).wf(),
        ensures
            final(self).wf(),
            final(self)@ == old(self)@.upload_asked(submit@.0, submit@.1),
    {
        let (seed, path) = submit.into_parts();
        if self.find_session(seed.as_str()).is_none() {
            let note = cat2("附件目标会话已关闭：", seed.as_str());
            self.toast(NoticeLevel::Error, note);
            return;
        }
        let media_type = guess_media_type(path.as_str());
        self.emit(Effect::Upload { seed, path, media_type });
    }

    fn attach_key(&mut self, input: Vec<char>, cursor: usize, seed: String, key: KeyEvent)
        requires
            old(self).wf(),
            cursor <= input@.len(),
        ensures
            final(self).wf(),
            final(self)@ == old(self)@.attach_keyed(
                Line { input: input@, cursor: cursor as int },
                seed@,
                key,
            ),
    {
        match key.code {
            KeyCode::Esc => {},
            KeyCode::Enter => {
                if let Some(submit) = Overlay::attach_submit(&input, seed.as_str()) {
                    self.upload_attachment(submit);
                }
            },
            _ => {
                let mut input = input;
                let mut cursor = cursor;
                edit_line(&mut input, &mut cursor, key);
                self.push_overlay(Overlay::AttachPath { input, cursor, seed });
            },
        }
    }

    /// A directory was typed for a new session.
    pub fn confirm_cwd_input(&mut self, raw: &str)
        requires
            old(self).wf(),
        ensures
            final(self).wf(),
            final(self)@ == old(self)@.cwd_confirmed(raw@),
    {
        if is_blank(raw) {
            self.new_session_with_cwd(None);
            return;
        }
        let typed = trimmed(raw);
        let cwd = expand_tilde(typed.as_str(), &self.home_dir);
        if !is_absolute_path(cwd.as_str()) {
            let note = cat2("cwd 需为绝对路径：", cwd.as_str());
            self.toast(NoticeLevel::Error, note);
            return;
        }
        self.new_session_with_cwd(Some(cwd));
    }

    fn cwd_key(&mut self, input: Vec<char>, cursor: usize, key: KeyEvent)
        requires
            old(self).wf(),
            line_takes(Line { input: input@, cursor: cursor as int }, key),
        ensures
            final(self).wf(),
            final(self)@ == old(self)@.cwd_keyed(
                Line { input: input@, cursor: cursor as int },
                key,
            ),
    {
        match key.code {
            KeyCode::Esc => {},
            KeyCode::Enter => {
                let n: usize = input.len();
                let raw = string_of(&input, 0, n);
                assert(raw@ =~= input@);
                self.confirm_cwd_input(raw.as_str());
            },
            _ => {
                let mut input = input;
                let mut cursor = cursor;
                edit_line(&mut input, &mut cursor, key);
                self.push_overlay(Overlay::CwdInput { input, cursor });
            },
        }
    }

    fn confirm_key(&mut self, action: ConfirmAction, key: KeyEvent)
        requires
            old(self).wf(),
        ensures
            final(self).wf(),
            final(self)@ == old(self)@.confirm_keyed(action@, key),
    {
        if key.code == KeyCode::Char('y') || key.code == KeyCode::Char('Y') {
            match action {
                ConfirmAction::DeleteSession(s) => {
                    self.emit(Effect::DeleteSession(s));
                },
                ConfirmAction::ArchiveSession(s) => {
                    self.emit(Effect::ArchiveSession(s));
                },
                ConfirmAction::CloseTab(s) => {
                    self.close_tab_by_seed(s.as_str());
                },
                ConfirmAction::UndoTurn { seed, turn_id } => {
                    self.emit(Effect::UndoTurn { seed, turn_id });
                },
            }
        }
    }

    fn picked(&self, show_archived: bool, selected: usize) -> (r: (Option<String>, usize))
        ensures
            opt_text(r.0) == self@.chosen(show_archived, selected),
            r.1 == self@.shown_list(show_archived).len(),
    {
        let items = self.filtered_sessions(show_archived);
        let n: usize = items.len();
        if selected < n {
            let at: usize = items[selected];
            assert(self@.list[at as int] == self.session_list_cache@[at as int]@);
            (Some(self.session_list_cache[at].seed.clone()), n)
        } else {
            (None, n)
        }
    }

    fn push_list(&mut self, selected: usize, show_archived: bool)
        requires
            old(self).wf(),
        ensures
            final(self).wf(),
            final(self)@ == old(self)@.covered(
                OverlayView::SessionList { selected, show_archived },
            ),
    {
        self.push_overlay(Overlay::SessionList { selected, show_archived });
    }

    fn list_key(&mut self, selected: usize, show_archived: bool, key: KeyEvent)
        requires
            old(self).wf(),
        ensures
            final(self).wf(),
            final(self)@ == old(self)@.list_keyed(selected, show_archived, key),
    {
        let (chosen, count) = self.picked(show_archived, selected);
        let up: usize = selected.saturating_sub(1);
        let down: usize = if count > 0 && selected < count - 1 {
            selected + 1
        } else {
            count.saturating_sub(1)
        };
        match key.code {
            KeyCode::Esc => {},
            KeyCode::Up => {
                self.push_list(up, show_archived);
            },
            KeyCode::Down => {
                self.push_list(down, show_archived);
            },
            KeyCode::Enter => match chosen {
                Some(seed) => {
                    self.open_session_tab(seed.as_str());
                },
                None => {
                    self.push_list(selected, show_archived);
                },
            },
            KeyCode::Char(c) => {
                if c == 'q' {
                    return;
                }
                if c == 'k' {
                    self.push_list(up, show_archived);
                } else if c == 'j' {
                    self.push_list(down, show_archived);
                } else if c == 'a' {
                    self.push_list(selected, !show_archived);
                } else if c == 'r' {
                    self.push_list(selected, show_archived);
                    self.emit(Effect::FetchSessionList);
                } else if c == 'n' {
                    self.new_session();
                } else {
                    self.push_list(selected, show_archived);
                    self.list_action(chosen, c);
                }
            },
            _ => {
                self.push_list(selected, show_archived);
            },
        }
    }

    /// What a letter does to a listed session.
    fn list_action(&mut self, chosen: Option<String>, c: char)
        requires
            old(self).wf(),
        ensures
            final(self).wf(),
            final(self)@ == old(self)@.list_acted(opt_text(chosen), c),
    {
        let seed = match chosen {
            Some(s) => s,
            None => {
                return;
            },
        };
        if c == 'x' {
            self.push_overlay(Overlay::Confirm { action: ConfirmAction::ArchiveSession(seed) });
        } else if c == 'u' {
            self.emit(Effect::UnarchiveSession(seed));
        } else if c == 'D' {
            self.push_overlay(Overlay::Confirm { action: ConfirmAction::DeleteSession(seed) });
        }
    }

    fn select_home(&mut self, n: usize, archived: bool)
        requires
            old(self).wf(),
        ensures
            final(self).wf(),
            final(self)@ == old(self)@.flagged(
                Flags { home_selected: n, home_show_archived: archived, ..old(self)@.flags },
            ),
    {
        let ghost v = self@;
        self.home_selected = n;
        self.home_show_archived = archived;
        assert(self@ =~= v.flagged(
            Flags { home_selected: n, home_show_archived: archived, ..v.flags },
        ));
    }

    fn mark_up(&mut self)
        requires
            old(self).wf(),
        ensures
            final(self).wf(),
            final(self)@ == old(self)@.home_up(),
    {
        let archived = self.home_show_archived;
        let count: usize = self.filtered_sessions(archived).len();
        if count > 0 {
            let n: usize = if self.home_selected == 0 {
                count - 1
            } else {
                self.home_selected - 1
            };
            self.select_home(n, archived);
        }
    }

    fn mark_down(&mut self)
        requires
            old(self).wf(),
        ensures
            final(self).wf(),
            final(self)@ == old(self)@.home_down(),
    {
        let archived = self.home_show_archived;
        let count: usize = self.filtered_sessions(archived).len();
        if count > 0 {
            let n: usize = ((self.home_selected as u128 + 1) % (count as u128)) as usize;
            self.select_home(n, archived);
        }
    }

    fn home_char(&mut self, c: char, control: bool)
        requires
            old(self).wf(),
        ensures
            final(self).wf(),
            final(self)@ == old(self)@.home_typed(c, control),
    {
        if c == 'k' {
            self.mark_up();
        } else if c == 'j' {
            self.mark_down();
        } else if c == 'n' && !control {
            self.new_session();
        } else if c == 'r' {
            self.emit(Effect::FetchSessionList);
        } else if c == 'a' {
            let archived = self.home_show_archived;
            self.select_home(0, !archived);
        } else {
            let (chosen, _) = self.picked(self.home_show_archived, self.home_selected);
            self.list_action(chosen, c);
        }
    }

    /// A key on the home screen; the result says whether it was for it.
    pub fn home_key(&mut self, key: KeyEvent) -> (consumed: bool)
        requires
            old(self).wf(),
        ensures
            final(self).wf(),
            final(self)@ == old(self)@.home_keyed(key),
            consumed == home_takes(key.code),
    {
        match key.code {
            KeyCode::Up => {
                self.mark_up();
                true
            },
            KeyCode::Down => {
                self.mark_down();
                true
            },
            KeyCode::Enter => {
                let (chosen, _) = self.picked(self.home_show_archived, self.home_selected);
                if let Some(seed) = chosen {
                    self.open_session_tab(seed.as_str());
                }
                true
            },
            KeyCode::Char(c) => {
                self.home_char(c, key.modifiers.control);
                c == 'j' || c == 'k' || c == 'n' || c == 'r' || c == 'a' || c == 'x' || c == 'u'
                    || c == 'D'
            },
            _ => false,
        }
    }

    fn history_key(&mut self, selected: usize, detail: bool, scroll: usize, key: KeyEvent)
        requires
            old(self).wf(),
        ensures
            final(self).wf(),
            final(self)@ == old(self)@.history_keyed(selected, detail, scroll, key),
    {
        let next = match key.code {
            KeyCode::Esc => {
                if !detail {
                    return;
                }
                false
            },
            KeyCode::Enter => true,
            _ => detail,
        };
        self.push_overlay(Overlay::History { selected, detail: next, scroll });
    }

    /// A key for the top layer; the result says whether there is one.
    #[verifier::spinoff_prover]
    #[verifier::rlimit(50)]
    pub fn overlay_key(&mut self, key: KeyEvent) -> (consumed: bool)
        requires
            old(self).wf(),
            old(self)@.layer_takes(key),
        ensures
            final(self).wf(),
            final(self)@ == old(self)@.overlay_keyed(key),
            consumed == (old(self)@.overlays.len() > 0),
    {
        let top = match self.pop_overlay() {
            Some(o) => o,
            None => {
                return false;
            },
        };
        match top {
            Overlay::Thinking { seed, scroll, body } => {
                self.thinking_key(seed, scroll, body, key);
            },
            Overlay::Help => {},
            Overlay::Settings(st) => {
                self.settings_key(st, key);
            },
            Overlay::AttachPath { input, cursor, seed } => {
                self.attach_key(input, cursor, seed, key);
            },
            Overlay::Confirm { action } => {
                self.confirm_key(action, key);
            },
            Overlay::SessionList { selected, show_archived } => {
                self.list_key(selected, show_archived, key);
            },
            Overlay::CwdInput { input, cursor } => {
                self.cwd_key(input, cursor, key);
            },
            Overlay::History { selected, detail, scroll } => {
                self.history_key(selected, detail, scroll, key);
            },
        }
        true
    }
}

} // verus!
