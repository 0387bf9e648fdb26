//! Keys, the mouse, pasted text and the clock.

use crate::app::{App, AppView, ConnView, Flags, FrameStats, StartupIntent};
use crate::app_events::lemma_session_put;
use crate::composer::{Composer, ComposerView};
use crate::conn::{ConnPhase, StreamIssues};
use crate::keymap::{global_key, tab_target, GlobalKey, KeyCode, KeyEvent};
use crate::message::{
    toasts_view, AppMsg, Effect, EffectView, MouseEvent, MouseKind, NoticeLevel, ToastView,
};
use crate::overlay::{
    overlay_ok, ConfirmView, EditBuf, Line, Overlay, OverlayView, SettingsState, SettingsView,
};
use crate::paste_guard::{observed, GuardView, PasteGuard};
use crate::session::{session_ok, SessionState, SessionView};
use crate::text::{chars_of, opt_text};
use vstd::prelude::*;

verus! {

/// A text without line breaks.
pub open spec fn unbroken(s: Seq<char>) -> Seq<char>
    decreases s.len(),
{
    if s.len() == 0 {
        s
    } else {
        let rest = unbroken(s.drop_last());
        if s.last() == '\n' || s.last() == '\r' {
            rest
        } else {
            rest.push(s.last())
        }
    }
}

fn unbroken_chars(s: &str) -> (out: Vec<char>)
    ensures
        out@ == unbroken(s@),
{
    let chars = chars_of(s);
    let n: usize = chars.len();
    let mut out: Vec<char> = Vec::new();
    let mut i: usize = 0;
    assert(s@.take(0) =~= Seq::empty());
    while i < n
        invariant
            i <= n == chars@.len(),
            chars@ == s@,
            out@ == unbroken(s@.take(i as int)),
        decreases n - i,
    {
        assert(s@.take(i + 1).drop_last() =~= s@.take(i as int));
        let c = chars[i];
        if c != '\n' && c != '\r' {
            out.push(c);
        }
        i += 1;
    }
    assert(s@.take(n as int) =~= s@);
    out
}

/// A line with a text put in at its cursor.
pub open spec fn line_filled(l: Line, s: Seq<char>) -> Line {
    Line {
        input: l.input.take(l.cursor) + s + l.input.skip(l.cursor),
        cursor: l.cursor + s.len(),
    }
}

fn fill_line(b: EditBuf, s: &Vec<char>) -> (r: EditBuf)
    requires
        b.cursor <= b.buf@.len(),
    ensures
        (Line { input: r.buf@, cursor: r.cursor as int }) == line_filled(
            Line { input: b.buf@, cursor: b.cursor as int },
            s@,
        ),
        r.cursor <= r.buf@.len(),
{
    let mut buf = b.buf;
    let start: usize = b.cursor;
    let ghost before = buf@;
    let n: usize = s.len();
    let mut i: usize = 0;
    let mut cursor: usize = start;
    assert(before =~= before.take(start as int) + s@.take(0) + before.skip(start as int));
    while i < n
        invariant
            i <= n == s@.len(),
            start <= before.len(),
            cursor == start + i,
            buf@ == before.take(start as int) + s@.take(i as int) + before.skip(start as int),
        decreases n - i,
    {
        buf.insert(cursor, s[i]);
        let len: usize = buf.len();
        assert(cursor < len);
        cursor = cursor + 1;
        i += 1;
        assert(buf@ =~= before.take(start as int) + s@.take(i as int) + before.skip(start as int));
    }
    assert(s@.take(n as int) =~= s@);
    EditBuf { buf, cursor }
}

/// The notices that are still shown: the oldest go after six seconds.
pub open spec fn fresh_toasts(v: Seq<ToastView>, now: u64) -> Seq<ToastView>
    decreases v.len(),
{
    if v.len() > 0 && now - v[0].at > 6000 {
        fresh_toasts(v.drop_first(), now)
    } else {
        v
    }
}

/// The commands still waited for: fifteen seconds long.
pub open spec fn fresh_creates(v: Seq<(Seq<char>, u64)>, now: u64) -> Seq<(Seq<char>, u64)>
    decreases v.len(),
{
    if v.len() == 0 {
        v
    } else {
        let rest = fresh_creates(v.drop_last(), now);
        if now - v.last().1 < 15000 {
            rest.push(v.last())
        } else {
            rest
        }
    }
}

impl AppView {
    /// No session has a block cache.
    pub open spec fn caches_dropped(self) -> AppView {
        AppView {
            sessions: Seq::new(
                self.sessions.len(),
                |i: int| SessionView { block_cache: None, ..self.sessions[i] },
            ),
            ..self
        }
    }

    /// Text pasted into a session: into the dialog that takes text, else into
    /// the input line.
    pub open spec fn session_pasted(self, text: Seq<char>) -> AppView {
        match self.active_at() {
            Some(i) => self.put(i, pasted_into(self.sessions[i], text)),
            None => self,
        }
    }

    /// Text pasted.
    pub open spec fn pasted(self, text: Seq<char>) -> AppView {
        let n = self.overlays.len();
        if n > 0 && self.overlays.last() is AttachPath {
            let o = self.overlays.last();
            self.uncovered().covered(
                OverlayView::AttachPath {
                    line: Line {
                        input: o->AttachPath_line.input + unbroken(text),
                        ..o->AttachPath_line
                    },
                    seed: o->AttachPath_seed,
                },
            )
        } else if n > 0 && self.overlays.last() is Settings && self.overlays.last()->Settings_0.editing is Some {
            let st = self.overlays.last()->Settings_0;
            self.uncovered().covered(
                OverlayView::Settings(
                    SettingsView {
                        editing: Some(line_filled(st.editing->0, unbroken(text))),
                        ..st
                    },
                ),
            )
        } else if n == 0 && self.tabs.len() == 0 {
            AppView { draft: self.draft.inserted_all(text), ..self }
        } else if self.inspect is Some {
            self
        } else {
            self.session_pasted(text)
        }
    }

    /// The mouse.
    pub open spec fn moused(self, m: MouseEvent) -> AppView {
        match m.kind {
            MouseKind::ScrollUp => self.asking(EffectView::ScrollUp(3)),
            MouseKind::ScrollDown => self.asking(EffectView::ScrollDown(3)),
            MouseKind::LeftDown => if m.row == 0 {
                self.asking(EffectView::ClickTab(m.column))
            } else {
                self
            },
            MouseKind::Other => self,
        }
    }

    /// What has had its time, gone.
    pub open spec fn aged(self) -> AppView {
        let f = self.flags;
        AppView {
            toasts: fresh_toasts(self.toasts, f.now),
            creates: fresh_creates(self.creates, f.now),
            flags: Flags {
                last_tick: f.now,
                quit_armed: match f.quit_armed {
                    Some(t) => if f.now - t > 3000 {
                        None
                    } else {
                        Some(t)
                    },
                    None => None,
                },
                ..f
            },
            ..self
        }
    }

    /// The clock went on.
    pub open spec fn ticked(self) -> AppView {
        let v = self.aged();
        if v.tabs.len() == 0 || v.creates.len() > 0 {
            (if v.stale_list() {
                v.asking(EffectView::FetchSessionList)
            } else {
                v
            }).home_clamped()
        } else {
            v
        }
    }

    /// The quit key: pressed twice it ends the program.
    pub open spec fn quit_pressed(self) -> AppView {
        if self.flags.quit_armed is Some {
            self.flagged(Flags { quit: true, ..self.flags })
        } else {
            self.flagged(Flags { quit_armed: Some(self.flags.now), ..self.flags }).noticed(
                NoticeLevel::Info,
                "再按一次 Ctrl+C 退出"@,
            )
        }
    }

    /// The side panel shown or not.
    pub open spec fn panel_toggled(self) -> AppView {
        let v = self.flagged(Flags { show_workspace: !self.flags.show_workspace, ..self.flags });
        match v.active_seed() {
            Some(seed) => if v.flags.show_workspace {
                v.dashboard_asked(seed)
            } else {
                v
            },
            None => v,
        }
    }

    /// A key that means the same everywhere.
    pub open spec fn global_pressed(self, g: GlobalKey) -> AppView {
        match g {
            GlobalKey::QuitArmed => self.quit_pressed(),
            GlobalKey::QuitNow => self.flagged(Flags { quit: true, ..self.flags }),
            GlobalKey::NewSession => if self.tabs.len() == 0 && self.flags.startup is New {
                self.draft_started()
            } else {
                self.creating_in(None)
            },
            GlobalKey::ThinkingOverlay => self.thinking_opened(),
            GlobalKey::CloseTab => match self.active_seed() {
                Some(seed) => self.confirming(ConfirmView::CloseTab(seed)),
                None => self,
            },
            GlobalKey::SessionList => self.list_toggled(),
            GlobalKey::ToggleSettings => self.asking(EffectView::ToggleSettings),
            GlobalKey::Help => self.layer_toggled(OverlayView::Help),
            GlobalKey::ToggleReasoning => self.flagged(
                Flags { show_activity: !self.flags.show_activity, ..self.flags },
            ).caches_dropped(),
            GlobalKey::ToggleWorkspace => self.panel_toggled(),
            GlobalKey::ToggleTodoDetail => self.flagged(
                Flags { show_todo_detail: !self.flags.show_todo_detail, ..self.flags },
            ),
            GlobalKey::ToggleToolExpand => self.asking(EffectView::ToggleToolExpand),
            GlobalKey::Reconnect => self.reconnect_asked(),
        }
    }

    /// Another tab shown: no subagent is looked at any more, and layers of
    /// other sessions are gone.
    pub open spec fn tab_switched(self, n: nat) -> AppView {
        AppView {
            inspect: None,
            ..self.flagged(Flags { active: n as usize, ..self.flags })
        }.tidied()
    }

    /// A key that goes from a session to its subagents and back.
    pub open spec fn nav_takes(self, key: KeyEvent) -> bool {
        (key.code is Up && key.modifiers.control) || (self.inspect is Some && (key.code is Esc || (
        key.code is Down && key.modifiers.control)))
    }

    /// A key that goes from a session to its subagents and back.
    pub open spec fn nav_keyed(self, key: KeyEvent) -> AppView {
        if key.code is Up && key.modifiers.control {
            self.asking(EffectView::InspectNext)
        } else if self.nav_takes(key) {
            AppView { inspect: None, ..self }
        } else {
            self
        }
    }

    /// A key while a subagent is looked at: it scrolls, or is swallowed.
    pub open spec fn inspect_keyed(self, key: KeyEvent) -> AppView {
        match key.code {
            KeyCode::Up => self.asking(EffectView::ScrollUp(1)),
            KeyCode::Down => self.asking(EffectView::ScrollDown(1)),
            KeyCode::PageUp => self.asking(EffectView::ScrollUp(20)),
            KeyCode::PageDown => self.asking(EffectView::ScrollDown(20)),
            KeyCode::Home => self.asking(EffectView::ScrollTop),
            KeyCode::End => self.asking(EffectView::ScrollBottom),
            _ => self,
        }
    }

    /// A key that is not global: it goes to the first that takes it, of tab
    /// switching, the dialog, the top layer, the subagents, the home screen
    /// and the input line.
    pub open spec fn local_pressed(self, key: KeyEvent) -> AppView {
        let target = tab_target(self.flags.active as nat, self.tabs.len(), key.code);
        if key.modifiers.alt && target is Some {
            self.tab_switched(target->0)
        } else if self.modal() is Some {
            self.modal_keyed(key)
        } else if self.overlays.len() > 0 {
            self.overlay_keyed(key)
        } else if self.nav_takes(key) {
            self.nav_keyed(key)
        } else if self.inspect is Some {
            self.inspect_keyed(key)
        } else if self.tabs.len() == 0 {
            self.draft_keyed(key)
        } else {
            self.composer_keyed(key)
        }
    }

    /// A key noted for the paste guard.
    pub open spec fn tapped(self) -> AppView {
        AppView { guard: observed(self.guard, self.flags.now), ..self }
    }

    /// A key for whom it is. While a dialog blocks the session shown, it takes
    /// every key but those that end the program.
    pub open spec fn dispatched(self, key: KeyEvent) -> AppView {
        let g = global_key(key);
        if self.modal() is Some && g != Some(GlobalKey::QuitArmed) && g != Some(
            GlobalKey::QuitNow,
        ) {
            self.modal_keyed(key)
        } else {
            match g {
                Some(g) => self.global_pressed(g),
                None => self.local_pressed(key),
            }
        }
    }

    /// A key.
    pub open spec fn pressed(self, key: KeyEvent) -> AppView {
        self.tapped().dispatched(key)
    }

    /// Whether a key can be handled now: it does not reach a layer that cannot
    /// take it.
    pub open spec fn takes_key(self, key: KeyEvent) -> bool {
        self.modal() is None ==> self.layer_takes(key)
    }

    /// Whether a message can be handled now.
    pub open spec fn takes(self, msg: AppMsg) -> bool {
        match msg {
            AppMsg::Key(k) => self.takes_key(k),
            _ => true,
        }
    }

    /// What reached the application.
    pub open spec fn handled(self, msg: AppMsg) -> AppView {
        match msg {
            AppMsg::Runtime(m) => self.runtime_seen(m),
            AppMsg::Action(a) => self.action_seen(a),
            AppMsg::Key(k) => self.pressed(k),
            AppMsg::Mouse(m) => self.moused(m),
            AppMsg::Paste(text) => self.pasted(text@),
            AppMsg::Resize => self.caches_dropped(),
            AppMsg::Tick => self.ticked(),
        }
    }
}

/// The application as it starts.
pub open spec fn fresh_app(initial_cwd: Option<Seq<char>>, home_dir: Option<Seq<char>>) -> AppView {
    AppView {
        flags: Flags {
            quit: false,
            active: 0,
            modal_hover: None,
            modal_pressed: None,
            workspace_hover: None,
            workspace_pressed: None,
            list_at: None,
            startup: StartupIntent::New,
            settings_saving: false,
            show_activity: true,
            show_workspace: true,
            show_todo_detail: true,
            last_tick: 0,
            quit_armed: None,
            home_selected: 0,
            home_show_archived: false,
            slash_selected: 0,
            frame_stats: FrameStats {
                fps: 0,
                events_per_s: 0,
                draw_us: 0,
                ref_us: 0,
                term_us: 0,
                handle_us: 0,
                peak_rebuilt: 0,
            },
            force_redraw: false,
            now: 0,
        },
        tabs: Seq::empty(),
        sessions: Seq::empty(),
        overlays: Seq::empty(),
        conn: ConnView {
            phase: ConnPhase::Opening,
            epoch: Seq::empty(),
            error: None,
            issues: Seq::empty(),
        },
        suppressed: Seq::empty(),
        toasts: Seq::empty(),
        creates: Seq::empty(),
        list: Seq::empty(),
        cwd_filter: None,
        draft: ComposerView {
            input: Seq::empty(),
            cursor: 0,
            history: Seq::empty(),
            shown: None,
            attachments: Seq::empty(),
        },
        prompt: None,
        activity: Seq::empty(),
        fetching: Seq::empty(),
        config: None,
        focus: Seq::empty(),
        last_focused: None,
        guard: GuardView { taps: Seq::empty(), toasted: false },
        initial_cwd,
        home_dir,
        inspect: None,
        subagents: Seq::empty(),
        pager: None,
        stamp: Seq::empty(),
        file_stamp: Seq::empty(),
        fresh_id: Seq::empty(),
        effects: Seq::empty(),
    }
}

impl App {
    /// The application as it starts.
    pub fn new_with_cwd(initial_cwd: Option<String>, home_dir: Option<String>) -> (a: Self)
        ensures
            a.wf(),
            a@ == fresh_app(opt_text(initial_cwd), opt_text(home_dir)),
    {
        let a = App {
            quit: false,
            tabs: Vec::new(),
            sessions: Vec::new(),
            active: 0,
            overlays: Vec::new(),
            conn_phase: ConnPhase::Opening,
            epoch: String::new(),
            conn_error: None,
            stream_issues: StreamIssues::default(),
            modal_hover: None,
            modal_pressed: None,
            workspace_hover: None,
            workspace_pressed: None,
            suppressed_interactions: Vec::new(),
            toasts: Vec::new(),
            pending_creates: Vec::new(),
            session_list_cache: Vec::new(),
            session_list_at: None,
            session_cwd_filter: None,
            draft_composer: Composer::default(),
            pending_initial_prompt: None,
            startup_intent: StartupIntent::New,
            activity_cache: Vec::new(),
            dashboard_fetching: Vec::new(),
            config: None,
            settings_saving: false,
            show_activity: true,
            show_workspace: true,
            focus_order: Vec::new(),
            last_focused: None,
            show_todo_detail: true,
            last_tick: 0,
            paste_guard: PasteGuard::default(),
            quit_armed: None,
            home_selected: 0,
            home_show_archived: false,
            slash_selected: 0,
            initial_cwd,
            home_dir,
            inspect: None,
            subagent_seeds: Vec::new(),
            pending_pager: None,
            frame_stats: FrameStats {
                fps: 0,
                events_per_s: 0,
                draw_us: 0,
                ref_us: 0,
                term_us: 0,
                handle_us: 0,
                peak_rebuilt: 0,
            },
            force_redraw: false,
            now: 0,
            stamp: String::new(),
            file_stamp: String::new(),
            fresh_id: String::new(),
            effects: Vec::new(),
        };
        assert(a@ =~= fresh_app(opt_text(initial_cwd), opt_text(home_dir)));
        a
    }

    /// Forgets the block caches of all sessions.
    pub fn drop_caches(&mut self)
        requires
            old(self).wf(),
        ensures
            final(self).wf(),
            final(self)@ == old(self)@.caches_dropped(),
    {
        let ghost v = self@;
        let ghost w = v.caches_dropped().sessions;
        let n: usize = self.sessions.len();
        let mut i: usize = 0;
        assert(self@ =~= AppView { sessions: self@.sessions, ..v });
        while i < n
            invariant
                i <= n == self.sessions@.len() == v.sessions.len(),
                v.ok(),
                w == v.caches_dropped().sessions,
                self.stream_issues.wf(),
                forall|j: int| 0 <= j < i ==> (#[trigger] self.sessions@[j])@ == w[j],
                forall|j: int| i <= j < n ==> (#[trigger] self.sessions@[j])@ == v.sessions[j],
                self@ == (AppView { sessions: self@.sessions, ..v }),
            decreases n - i,
        {
            assert(self.sessions@[i as int]@ == v.sessions[i as int]);
            self.sessions[i].block_cache = None;
            assert(self.sessions@[i as int]@ =~= w[i as int]);
            i += 1;
            assert(self@ =~= AppView { sessions: self@.sessions, ..v });
        }
        proof {
            assert(self@.sessions =~= w);
            assert forall|j: int| 0 <= j < self@.sessions.len() implies session_ok(
                #[trigger] self@.sessions[j],
            ) by {
                assert(session_ok(v.sessions[j]));
            }
        }
    }

    fn paste_session(&mut self, text: &str)
        requires
            old(self).wf(),
        ensures
            final(self).wf(),
            final(self)@ == old(self)@.session_pasted(text@),
    {
        let ghost before = *self;
        let i = match self.active_index() {
            Some(i) => i,
            None => {
                return;
            },
        };
        let ghost s0 = self@.sessions[i as int];
        assert(s0 == self.sessions@[i as int]@);
        assert(session_ok(s0));
        paste_into(&mut self.sessions[i], text);
        proof {
            lemma_session_put(before, *self, i as int, pasted_into(s0, text@));
        }
    }

    /// Text was pasted.
    pub fn handle_paste(&mut self, text: &str)
        requires
            old(self).wf(),
        ensures
            final(self).wf(),
            final(self)@ == old(self)@.pasted(text@),
    {
        let ghost v = self@;
        let n: usize = self.overlays.len();
        assert(v.overlays.len() == n);
        if n > 0 {
            assert(v.overlays.last() == self.overlays@[n - 1]@);
            let takes = match &self.overlays[n - 1] {
                Overlay::AttachPath { .. } => true,
                Overlay::Settings(st) => st.editing.is_some(),
                _ => false,
            };
            if takes {
                self.paste_layer(text);
                return;
            }
        }
        if n == 0 && self.tabs.len() == 0 {
            self.draft_composer.insert_str(text);
            assert(self@ =~= AppView { draft: v.draft.inserted_all(text@), ..v });
            return;
        }
        if self.inspecting() {
            return;
        }
        self.paste_session(text);
    }

    fn paste_layer(&mut self, text: &str)
        requires
            old(self).wf(),
            old(self)@.overlays.len() > 0,
            old(self)@.overlays.last() is AttachPath || (old(self)@.overlays.last() is Settings
                && old(self)@.overlays.last()->Settings_0.editing is Some),
        ensures
            final(self).wf(),
            final(self)@ == old(self)@.pasted(text@),
    {
        let more = unbroken_chars(text);
        if let Some(top) = self.pop_overlay() {
            let ghost tv = top@;
            match top {
                Overlay::AttachPath { input, cursor, seed } => {
                    let mut input = input;
                    let mut more = more;
                    let ghost was = input@;
                    input.append(&mut more);
                    assert(input@ =~= was + unbroken(text@));
                    let next = Overlay::AttachPath { input, cursor, seed };
                    assert(overlay_ok(next@));
                    self.push_overlay(next);
                },
                Overlay::Settings(st) => {
                    if let Some(b) = st.editing {
                        let next = SettingsState {
                            kind: st.kind,
                            on_permission_level: st.on_permission_level,
                            editing: Some(fill_line(b, &more)),
                        };
                        assert(next@ =~= SettingsView {
                            editing: Some(
                                line_filled(tv->Settings_0.editing->0, unbroken(text@)),
                            ),
                            ..tv->Settings_0
                        });
                        self.push_overlay(Overlay::Settings(next));
                    }
                },
                _ => {},
            }
        }
    }

    /// The mouse did something.
    pub fn handle_mouse(&mut self, m: MouseEvent)
        requires
            old(self).wf(),
        ensures
            final(self).wf(),
            final(self)@ == old(self)@.moused(m),
    {
        match m.kind {
            MouseKind::ScrollUp => {
                self.emit(Effect::ScrollUp(3));
            },
            MouseKind::ScrollDown => {
                self.emit(Effect::ScrollDown(3));
            },
            MouseKind::LeftDown => {
                if m.row == 0 {
                    self.emit(Effect::ClickTab(m.column));
                }
            },
            MouseKind::Other => {},
        }
    }

    fn age(&mut self)
        requires
            old(self).wf(),
        ensures
            final(self).wf(),
            final(self)@ == old(self)@.aged(),
    {
        let ghost v = self@;
        let now = self.now;
        drop_old_toasts(&mut self.toasts, now);
        proof {
            lemma_fresh_toasts(v.toasts, now);
        }
        keep_new_creates(&mut self.pending_creates, now);
        self.last_tick = now;
        if let Some(t) = self.quit_armed {
            if now > t && now - t > 3000 {
                self.quit_armed = None;
            }
        }
        assert(self@ =~= v.aged());
    }

    /// The clock went on.
    pub fn handle_tick(&mut self)
        requires
            old(self).wf(),
        ensures
            final(self).wf(),
            final(self)@ == old(self)@.ticked(),
    {
        self.age();
        assert(self@.tabs.len() == self.tabs@.len());
        assert(self@.creates.len() == self.pending_creates@.len());
        if self.tabs.len() == 0 || self.pending_creates.len() > 0 {
            if self.list_is_stale() {
                self.emit(Effect::FetchSessionList);
            }
            self.clamp_home();
        }
    }
}

/// A session with a text pasted.
pub open spec fn pasted_into(s: SessionView, text: Seq<char>) -> SessionView {
    if s.ask is Some && s.ask->0.editing is Some {
        let a = s.ask->0;
        SessionView { ask: Some(crate::ask::AskView { input: a.input + text, ..a }), ..s }
    } else if s.plan is Some && s.plan->0.entering {
        let p = s.plan->0;
        SessionView {
            plan: Some(crate::approval::PlanView { message: p.message + text, ..p }),
            ..s
        }
    } else {
        SessionView { composer: s.composer.inserted_all(text), ..s }
    }
}

fn paste_into(sess: &mut SessionState, text: &str)
    requires
        session_ok(old(sess)@),
    ensures
        final(sess)@ == pasted_into(old(sess)@, text@),
        session_ok(final(sess)@),
{
    let ghost v = sess@;
    let asking = match &sess.pending_ask {
        Some(p) => p.editing_custom.is_some(),
        None => false,
    };
    if asking {
        match &mut sess.pending_ask {
            Some(p) => {
                p.input.push_str(text);
            },
            None => {},
        }
        assert(sess@.ask->0 =~= crate::ask::AskView { input: v.ask->0.input + text@, ..v.ask->0 });
        assert(sess@ =~= pasted_into(v, text@));
        return;
    }
    let planning = match &sess.pending_plan {
        Some(p) => p.entering_message,
        None => false,
    };
    if planning {
        match &mut sess.pending_plan {
            Some(p) => {
                p.message.push_str(text);
            },
            None => {},
        }
        assert(sess@ =~= pasted_into(v, text@));
        return;
    }
    sess.composer.insert_str(text);
    assert(sess@ =~= pasted_into(v, text@));
}

fn drop_old_toasts(v: &mut Vec<crate::message::Toast>, now: u64)
    ensures
        toasts_view(final(v)@) == fresh_toasts(toasts_view(old(v)@), now),
{
    let ghost all = toasts_view(v@);
    while v.len() > 0 && now > v[0].at && now - v[0].at > 6000
        invariant
            fresh_toasts(all, now) == fresh_toasts(toasts_view(v@), now),
        decreases v@.len(),
    {
        let ghost before = toasts_view(v@);
        v.remove(0);
        assert(toasts_view(v@) =~= before.drop_first());
    }
}

proof fn lemma_fresh_toasts(v: Seq<ToastView>, now: u64)
    ensures
        fresh_toasts(v, now).len() <= v.len(),
    decreases v.len(),
{
    if v.len() > 0 && now - v[0].at > 6000 {
        lemma_fresh_toasts(v.drop_first(), now);
    }
}

fn keep_new_creates(v: &mut Vec<(String, u64)>, now: u64)
    ensures
        crate::app::creates_view(final(v)@) == fresh_creates(
            crate::app::creates_view(old(v)@),
            now,
        ),
{
    let ghost all = crate::app::creates_view(v@);
    let mut kept: Vec<(String, u64)> = Vec::new();
    let n: usize = v.len();
    let mut i: usize = 0;
    assert(all.take(0) =~= Seq::empty());
    assert(crate::app::creates_view(kept@) =~= Seq::empty());
    while i < n
        invariant
            i <= n == v@.len(),
            all == crate::app::creates_view(v@),
            crate::app::creates_view(kept@) == fresh_creates(all.take(i as int), now),
        decreases n - i,
    {
        let ghost before = kept@;
        let at = v[i].1;
        assert(all[i as int] == (v@[i as int].0@, at));
        assert(all.take(i + 1).drop_last() =~= all.take(i as int));
        if now <= at || now - at < 15000 {
            kept.push((v[i].0.clone(), at));
            assert(crate::app::creates_view(kept@) =~= crate::app::creates_view(before).push(
                all[i as int],
            ));
        }
        i += 1;
    }
    assert(all.take(n as int) =~= all);
    *v = kept;
}

} // verus!
