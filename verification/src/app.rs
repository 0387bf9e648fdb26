//! The application state and the operations that all handlers share.

use crate::composer::{Composer, ComposerView};
use crate::conn::{Alert, ConnPhase, StreamIssues};
use crate::message::{
    effects_view, entries_view, toasts_view, Effect, EffectView, EntryView, NoticeLevel,
    SessionListEntry, Toast, ToastView,
};
use crate::overlay::{overlay_ok, overlays_view, Overlay, OverlayView};
use crate::paste_guard::{GuardView, PasteGuard};
use crate::session::{session_ok, ActivityState, SessionState, SessionView};
use crate::text::{opt_text, str_eq, texts};
use vstd::prelude::*;

verus! {

/// How many notices are kept.
pub const TOAST_LIMIT: usize = 8;

/// What the program was started for.
#[derive(Clone, Copy, Debug, PartialEq, Eq, Structural)]
pub enum StartupIntent {
    /// A new conversation; the session is made with the first message.
    New,
    /// Choosing a session of this directory.
    Resume,
}

/// Figures about drawing, over the last second.
#[derive(Clone, Copy, Debug, PartialEq, Eq, Structural)]
pub struct FrameStats {
    pub fps: u32,
    pub events_per_s: u32,
    pub draw_us: u64,
    pub ref_us: u64,
    pub term_us: u64,
    pub handle_us: u64,
    pub peak_rebuilt: u32,
}

/// Something in a dialog that can be clicked.
#[derive(Clone, Copy, Debug, PartialEq, Eq, Structural)]
pub enum ModalHit {
    AskOption { question: usize, option: usize },
    AskCustom { question: usize },
    PermissionApprove,
    PermissionDeny,
    PermissionTrust,
    PlanApprove,
    PlanApproveAutonomous,
    PlanReject,
}

/// Something in the workspace that can be clicked.
#[derive(Clone, Copy, Debug, PartialEq, Eq, Structural)]
pub enum WorkspaceHit {
    SessionRow(usize),
    HistoryTurn(usize),
    TodoTask(usize),
    SettingsRow(usize),
    Back,
}

/// The application.
#[derive(Debug)]
pub struct App {
    pub quit: bool,
    pub tabs: Vec<String>,
    pub sessions: Vec<SessionState>,
    pub active: usize,
    pub overlays: Vec<Overlay>,
    pub conn_phase: ConnPhase,
    pub epoch: String,
    pub conn_error: Option<String>,
    pub stream_issues: StreamIssues,
    pub modal_hover: Option<ModalHit>,
    pub modal_pressed: Option<ModalHit>,
    pub workspace_hover: Option<WorkspaceHit>,
    pub workspace_pressed: Option<WorkspaceHit>,
    /// Interactions answered here, which no snapshot brings back.
    pub suppressed_interactions: Vec<String>,
    pub toasts: Vec<Toast>,
    /// The commands that make a session, and when each was sent.
    pub pending_creates: Vec<(String, u64)>,
    pub session_list_cache: Vec<SessionListEntry>,
    pub session_list_at: Option<u64>,
    /// Only sessions of this directory are listed.
    pub session_cwd_filter: Option<String>,
    pub draft_composer: Composer,
    /// The first message, for the session being made.
    pub pending_initial_prompt: Option<String>,
    pub startup_intent: StartupIntent,
    pub activity_cache: Vec<(String, ActivityState)>,
    pub dashboard_fetching: Vec<String>,
    /// The configuration, as JSON text.
    pub config: Option<String>,
    pub settings_saving: bool,
    pub show_activity: bool,
    pub show_workspace: bool,
    /// The sessions that were shown, the latest first.
    pub focus_order: Vec<String>,
    /// The session shown in the last frame.
    pub last_focused: Option<String>,
    pub show_todo_detail: bool,
    pub last_tick: u64,
    pub paste_guard: PasteGuard,
    /// When the quit key was first pressed.
    pub quit_armed: Option<u64>,
    pub home_selected: usize,
    pub home_show_archived: bool,
    pub slash_selected: usize,
    pub initial_cwd: Option<String>,
    /// The user's home directory.
    pub home_dir: Option<String>,
    /// The subagent being looked at.
    pub inspect: Option<String>,
    pub subagent_seeds: Vec<String>,
    /// Text for the pager.
    pub pending_pager: Option<String>,
    pub frame_stats: FrameStats,
    pub force_redraw: bool,
    /// The clock, in milliseconds; the outer loop sets it before each message.
    pub now: u64,
    /// The local time as text; the outer loop sets it before each message.
    pub stamp: String,
    /// The local time as it stands in file names.
    pub file_stamp: String,
    /// An id that no command has yet; the outer loop sets it before each
    /// message.
    pub fresh_id: String,
    /// What is asked for; the outer loop takes these out.
    pub effects: Vec<Effect>,
}

/// The plain values of the application.
pub struct Flags {
    pub quit: bool,
    pub active: usize,
    pub modal_hover: Option<ModalHit>,
    pub modal_pressed: Option<ModalHit>,
    pub workspace_hover: Option<WorkspaceHit>,
    pub workspace_pressed: Option<WorkspaceHit>,
    pub list_at: Option<u64>,
    pub startup: StartupIntent,
    pub settings_saving: bool,
    pub show_activity: bool,
    pub show_workspace: bool,
    pub show_todo_detail: bool,
    pub last_tick: u64,
    pub quit_armed: Option<u64>,
    pub home_selected: usize,
    pub home_show_archived: bool,
    pub slash_selected: usize,
    pub frame_stats: FrameStats,
    pub force_redraw: bool,
    pub now: u64,
}

/// The connection, as shown.
#[verifier::ext_equal]
pub struct ConnView {
    pub phase: ConnPhase,
    pub epoch: Seq<char>,
    pub error: Option<Seq<char>>,
    pub issues: Seq<Alert>,
}

/// The application.
#[verifier::ext_equal]
pub struct AppView {
    pub flags: Flags,
    pub tabs: Seq<Seq<char>>,
    pub sessions: Seq<SessionView>,
    pub overlays: Seq<OverlayView>,
    pub conn: ConnView,
    pub suppressed: Seq<Seq<char>>,
    pub toasts: Seq<ToastView>,
    pub creates: Seq<(Seq<char>, u64)>,
    pub list: Seq<EntryView>,
    pub cwd_filter: Option<Seq<char>>,
    pub draft: ComposerView,
    pub prompt: Option<Seq<char>>,
    pub activity: Seq<(Seq<char>, ActivityState)>,
    pub fetching: Seq<Seq<char>>,
    pub config: Option<Seq<char>>,
    pub focus: Seq<Seq<char>>,
    pub last_focused: Option<Seq<char>>,
    pub guard: GuardView,
    pub initial_cwd: Option<Seq<char>>,
    pub home_dir: Option<Seq<char>>,
    pub inspect: Option<Seq<char>>,
    pub subagents: Seq<Seq<char>>,
    pub pager: Option<Seq<char>>,
    pub stamp: Seq<char>,
    pub file_stamp: Seq<char>,
    pub fresh_id: Seq<char>,
    pub effects: Seq<EffectView>,
}

/// Sessions.
pub open spec fn sessions_view(v: Seq<SessionState>) -> Seq<SessionView> {
    Seq::new(v.len(), |i: int| v[i]@)
}

/// Names with a time.
pub open spec fn creates_view(v: Seq<(String, u64)>) -> Seq<(Seq<char>, u64)> {
    Seq::new(v.len(), |i: int| (v[i].0@, v[i].1))
}

/// Names with an activity.
pub open spec fn activity_view(v: Seq<(String, ActivityState)>) -> Seq<(Seq<char>, ActivityState)> {
    Seq::new(v.len(), |i: int| (v[i].0@, v[i].1))
}

impl View for App {
    type V = AppView;

    open spec fn view(&self) -> AppView {
        AppView {
            flags: Flags {
                quit: self.quit,
                active: self.active,
                modal_hover: self.modal_hover,
                modal_pressed: self.modal_pressed,
                workspace_hover: self.workspace_hover,
                workspace_pressed: self.workspace_pressed,
                list_at: self.session_list_at,
                startup: self.startup_intent,
                settings_saving: self.settings_saving,
                show_activity: self.show_activity,
                show_workspace: self.show_workspace,
                show_todo_detail: self.show_todo_detail,
                last_tick: self.last_tick,
                quit_armed: self.quit_armed,
                home_selected: self.home_selected,
                home_show_archived: self.home_show_archived,
                slash_selected: self.slash_selected,
                frame_stats: self.frame_stats,
                force_redraw: self.force_redraw,
                now: self.now,
            },
            tabs: texts(self.tabs@),
            sessions: sessions_view(self.sessions@),
            overlays: overlays_view(self.overlays@),
            conn: ConnView {
                phase: self.conn_phase,
                epoch: self.epoch@,
                error: opt_text(self.conn_error),
                issues: self.stream_issues@,
            },
            suppressed: texts(self.suppressed_interactions@),
            toasts: toasts_view(self.toasts@),
            creates: creates_view(self.pending_creates@),
            list: entries_view(self.session_list_cache@),
            cwd_filter: opt_text(self.session_cwd_filter),
            draft: self.draft_composer@,
            prompt: opt_text(self.pending_initial_prompt),
            activity: activity_view(self.activity_cache@),
            fetching: texts(self.dashboard_fetching@),
            config: opt_text(self.config),
            focus: texts(self.focus_order@),
            last_focused: opt_text(self.last_focused),
            guard: self.paste_guard@,
            initial_cwd: opt_text(self.initial_cwd),
            home_dir: opt_text(self.home_dir),
            inspect: opt_text(self.inspect),
            subagents: texts(self.subagent_seeds@),
            pager: opt_text(self.pending_pager),
            stamp: self.stamp@,
            file_stamp: self.file_stamp@,
            fresh_id: self.fresh_id@,
            effects: effects_view(self.effects@),
        }
    }
}

/// The first session from `k` on with a seed.
pub open spec fn index_from(v: Seq<SessionView>, seed: Seq<char>, k: int) -> Option<int>
    decreases v.len() - k,
{
    if k >= v.len() {
        None
    } else if v[k].seed == seed {
        Some(k)
    } else {
        index_from(v, seed, k + 1)
    }
}

/// A session that is found is there.
pub proof fn lemma_index(v: Seq<SessionView>, seed: Seq<char>, k: int)
    requires
        0 <= k,
    ensures
        index_from(v, seed, k) matches Some(i) ==> k <= i < v.len() && v[i].seed == seed,
    decreases v.len() - k,
{
    if k < v.len() && v[k].seed != seed {
        lemma_index(v, seed, k + 1);
    }
}

/// The first place from `k` on that holds a text.
pub open spec fn place_from(v: Seq<Seq<char>>, s: Seq<char>, k: int) -> Option<int>
    decreases v.len() - k,
{
    if k >= v.len() {
        None
    } else if v[k] == s {
        Some(k)
    } else {
        place_from(v, s, k + 1)
    }
}

/// Notices, of which at most [`TOAST_LIMIT`] stay.
pub open spec fn toasted(v: Seq<ToastView>, t: ToastView) -> Seq<ToastView> {
    let w = v.push(t);
    if w.len() > TOAST_LIMIT {
        w.skip(w.len() - TOAST_LIMIT)
    } else {
        w
    }
}

impl AppView {
    /// The parts are well formed, and there are not too many notices.
    pub open spec fn ok(self) -> bool {
        &&& forall|i: int| 0 <= i < self.sessions.len() ==> session_ok(#[trigger] self.sessions[i])
        &&& forall|i: int| 0 <= i < self.overlays.len() ==> overlay_ok(#[trigger] self.overlays[i])
        &&& self.draft.ok()
        &&& self.toasts.len() <= TOAST_LIMIT
    }

    /// Where the session with a seed stands.
    pub open spec fn session_at(self, seed: Seq<char>) -> Option<int> {
        index_from(self.sessions, seed, 0)
    }

    /// The tab shown.
    pub open spec fn active_seed(self) -> Option<Seq<char>> {
        if self.flags.active < self.tabs.len() {
            Some(self.tabs[self.flags.active as int])
        } else {
            None
        }
    }

    /// The session shown: the subagent looked at, or that of the tab.
    pub open spec fn view_seed(self) -> Option<Seq<char>> {
        if self.inspect is Some {
            self.inspect
        } else {
            self.active_seed()
        }
    }

    /// Where the session of the tab shown stands.
    pub open spec fn active_at(self) -> Option<int> {
        match self.active_seed() {
            Some(s) => self.session_at(s),
            None => None,
        }
    }

    /// One session replaced.
    pub open spec fn put(self, i: int, s: SessionView) -> AppView {
        AppView { sessions: self.sessions.update(i, s), ..self }
    }

    /// The input line of one session replaced.
    pub open spec fn put_composer(self, i: int, c: ComposerView) -> AppView {
        self.put(i, SessionView { composer: c, ..self.sessions[i] })
    }

    /// A notice added.
    pub open spec fn noticed(self, level: NoticeLevel, text: Seq<char>) -> AppView {
        AppView {
            toasts: toasted(self.toasts, ToastView { level, text, at: self.flags.now }),
            ..self
        }
    }

    /// Something asked for.
    pub open spec fn asking(self, e: EffectView) -> AppView {
        AppView { effects: self.effects.push(e), ..self }
    }

    /// A layer on top.
    pub open spec fn covered(self, o: OverlayView) -> AppView {
        AppView { overlays: self.overlays.push(o), ..self }
    }

    /// The top layer gone.
    pub open spec fn uncovered(self) -> AppView {
        AppView { overlays: self.overlays.drop_last(), ..self }
    }

    /// The plain values replaced.
    pub open spec fn flagged(self, flags: Flags) -> AppView {
        AppView { flags, ..self }
    }
}

impl App {
    /// The parts are well formed, and there are not too many notices.
    pub open spec fn wf(&self) -> bool {
        &&& self@.ok()
        &&& self.stream_issues.wf()
    }

    /// Adds a notice; the oldest goes when there are too many.
    pub fn toast(&mut self, level: NoticeLevel, text: String)
        requires
            old(self).wf(),
        ensures
            final(self).wf(),
            final(self)@ == old(self)@.noticed(level, text@),
    {
        let ghost v = self@;
        let t = Toast { level, text, at: self.now };
        self.toasts.push(t);
        assert(toasts_view(self.toasts@) =~= v.toasts.push(t@));
        if self.toasts.len() > TOAST_LIMIT {
            let ghost w = self.toasts@;
            self.toasts.remove(0);
            assert(toasts_view(self.toasts@) =~= toasts_view(w).skip(1));
        }
        assert(self@ =~= v.noticed(level, text@));
    }

    /// Asks for something.
    pub fn emit(&mut self, e: Effect)
        requires
            old(self).wf(),
        ensures
            final(self).wf(),
            final(self)@ == old(self)@.asking(e@),
            final(self).sessions == old(self).sessions,
    {
        let ghost v = self@;
        let ghost ev = e@;
        self.effects.push(e);
        assert(effects_view(self.effects@) =~= v.effects.push(ev));
        assert(self@ =~= v.asking(ev));
    }

    /// Puts a layer on top.
    pub fn push_overlay(&mut self, o: Overlay)
        requires
            old(self).wf(),
            overlay_ok(o@),
        ensures
            final(self).wf(),
            final(self)@ == old(self)@.covered(o@),
    {
        let ghost v = self@;
        let ghost ov = o@;
        self.overlays.push(o);
        assert(overlays_view(self.overlays@) =~= v.overlays.push(ov));
        assert(self@ =~= v.covered(ov));
    }

    /// Takes the top layer off.
    pub fn pop_overlay(&mut self) -> (r: Option<Overlay>)
        requires
            old(self).wf(),
        ensures
            final(self).wf(),
            match r {
                Some(o) => {
                    &&& old(self)@.overlays.len() > 0
                    &&& o@ == old(self)@.overlays.last()
                    &&& overlay_ok(o@)
                    &&& final(self)@ == old(self)@.uncovered()
                },
                None => old(self)@.overlays.len() == 0 && final(self)@ == old(self)@,
            },
    {
        let ghost v = self@;
        let n: usize = self.overlays.len();
        let r = self.overlays.pop();
        proof {
            if n > 0 {
                assert(overlays_view(self.overlays@) =~= v.overlays.drop_last());
                assert(self@ =~= v.uncovered());
                assert(overlay_ok(v.overlays[n - 1]));
            } else {
                assert(self.overlays@ =~= old(self).overlays@);
                assert(self@ =~= v);
            }
        }
        r
    }

    /// Where the session with a seed stands.
    pub fn find_session(&self, seed: &str) -> (r: Option<usize>)
        ensures
            match r {
                Some(i) => self@.session_at(seed@) == Some(i as int) && i < self.sessions@.len()
                    && self@.sessions[i as int].seed == seed@,
                None => self@.session_at(seed@) is None,
            },
    {
        let n: usize = self.sessions.len();
        let ghost v = self@.sessions;
        let mut k: usize = 0;
        while k < n
            invariant
                k <= n == self.sessions@.len(),
                v == self@.sessions,
                index_from(v, seed@, 0) == index_from(v, seed@, k as int),
            decreases n - k,
        {
            assert(v[k as int] == self.sessions@[k as int]@);
            if str_eq(self.sessions[k].seed.as_str(), seed) {
                return Some(k);
            }
            k += 1;
        }
        None
    }

    /// The tab shown.
    pub fn active_seed(&self) -> (r: Option<String>)
        ensures
            opt_text(r) == self@.active_seed(),
    {
        if self.active < self.tabs.len() {
            Some(self.tabs[self.active].clone())
        } else {
            None
        }
    }

    /// The session shown: the subagent looked at, or that of the tab.
    pub fn view_seed(&self) -> (r: Option<String>)
        ensures
            opt_text(r) == self@.view_seed(),
    {
        match &self.inspect {
            Some(s) => Some(s.clone()),
            None => self.active_seed(),
        }
    }

    /// Where the session of the tab shown stands.
    pub fn active_index(&self) -> (r: Option<usize>)
        ensures
            match r {
                Some(i) => self@.active_at() == Some(i as int) && i < self.sessions@.len()
                    && self@.active_seed() == Some(self@.sessions[i as int].seed),
                None => self@.active_at() is None,
            },
    {
        if self.active < self.tabs.len() {
            self.find_session(self.tabs[self.active].as_str())
        } else {
            None
        }
    }

    /// Whether a subagent is being looked at.
    pub fn inspecting(&self) -> (r: bool)
        ensures
            r == (self@.inspect is Some),
    {
        self.inspect.is_some()
    }
}

} // verus!
