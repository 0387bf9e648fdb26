//! The outcomes of what was asked for.

use crate::app::{App, AppView, Flags};
use crate::app_events::{activity_put, creates_without, lemma_session_put};
use crate::app_tabs::texts_without;
use crate::composer::{Attachment, AttachmentView, ContentRef};
use crate::json::json_doc;
use crate::message::{
    entries_view, AckStatus, ActionResult, CommandAck, CommandState, Effect, EffectView,
    EntryView, NoticeLevel, PendingInteraction, SessionBootstrap, SessionListEntry, SettingsOp,
    SettingsOpView,
};
use crate::overlay::Overlay;
use crate::path::{file_name, named_file};
use crate::session::{
    holds, session_ok, synced, ActivityState, Dashboard, Scroll, SessionState, SessionView,
};
use crate::text::{cat2, cat3, cat4, opt_text, str_eq, texts};
use crate::timeline::TimelineModel;
use vstd::prelude::*;

verus! {

/// The session made last among the first `n`; the later one of two made at
/// the same time.
pub open spec fn newest_to(list: Seq<EntryView>, n: nat) -> int
    decreases n,
{
    if n <= 1 {
        0
    } else {
        let k = newest_to(list, (n - 1) as nat);
        if list[n - 1].created_at >= list[k].created_at {
            n - 1
        } else {
            k
        }
    }
}

/// A session after its snapshot.
pub open spec fn bootstrapped(s: SessionView, b: SessionBootstrap) -> SessionView {
    SessionView {
        usage: b.usage,
        model: opt_text(b.model),
        block_cache: None,
        ..synced(SessionView { activity: Some(b.activity), ..s })
    }
}

/// A session whose timeline has older turns in front, where they came.
pub open spec fn with_older(s: SessionView, result: Result<TimelineModel, String>) -> SessionView {
    match result {
        Ok(timeline) => SessionView {
            loading_older: false,
            timeline: timeline@,
            block_cache: None,
            ..s
        },
        Err(_) => SessionView { loading_older: false, ..s },
    }
}

/// Why a command was rejected.
pub open spec fn reject_reason(ack: CommandAck) -> Seq<char> {
    match ack.message {
        Some(m) => m@,
        None => match ack.code {
            Some(c) => c@,
            None => "unknown"@,
        },
    }
}

/// What is said about a rejected command; `create` tells that it was to make
/// a session.
pub open spec fn reject_note(label: Seq<char>, ack: CommandAck, create: bool) -> Seq<char> {
    label + " 被拒绝："@ + reject_reason(ack) + (if create {
        "（会话未创建）"@
    } else {
        Seq::empty()
    })
}

/// How far a command is, in words.
pub open spec fn state_name(st: CommandState) -> Seq<char> {
    match st {
        CommandState::Accepted => "Accepted"@,
        CommandState::Running => "Running"@,
        CommandState::Succeeded => "Succeeded"@,
        CommandState::Failed => "Failed"@,
        CommandState::Rejected => "Rejected"@,
    }
}

/// Activities after a list of them.
pub open spec fn activities_put(
    v: Seq<(Seq<char>, ActivityState)>,
    items: Seq<(String, ActivityState)>,
) -> Seq<(Seq<char>, ActivityState)>
    decreases items.len(),
{
    if items.len() == 0 {
        v
    } else {
        activity_put(
            activities_put(v, items.drop_last()),
            items.last().0@,
            items.last().1,
        )
    }
}

/// A side panel that shows something.
pub open spec fn has_content(d: Dashboard) -> bool {
    d.tasks@.len() > 0 || d.recent_edits@.len() > 0 || d.documents@.len() > 0
}

impl AppView {
    /// The interactions of a snapshot, one after the other.
    pub open spec fn all_restored(self, seed: Seq<char>, ps: Seq<PendingInteraction>) -> AppView
        decreases ps.len(),
    {
        if ps.len() == 0 {
            self
        } else {
            self.all_restored(seed, ps.drop_last()).interaction_restored(seed, ps.last())
        }
    }

    /// A session's snapshot.
    pub open spec fn bootstrap_seen(self, seed: Seq<char>, b: SessionBootstrap) -> AppView {
        match self.session_at(seed) {
            Some(i) => self.put(i, bootstrapped(self.sessions[i], b)).all_restored(
                seed,
                b.interactions@,
            ),
            None => self,
        }.dashboard_asked(seed)
    }

    /// The draft given back, where it waited for a session that is not made.
    pub open spec fn draft_restored(self) -> AppView {
        match self.prompt {
            Some(t) => AppView { prompt: None, draft: self.draft.inserted_all(t), ..self },
            None => self,
        }
    }

    /// A command was rejected.
    pub open spec fn command_rejected(
        self,
        seed: Option<Seq<char>>,
        label: Seq<char>,
        ack: CommandAck,
    ) -> AppView {
        let note = reject_note(label, ack, seed is None);
        match seed {
            None => AppView {
                creates: creates_without(self.creates, ack.command_id@),
                ..self
            }.draft_restored().noticed(NoticeLevel::Error, note),
            Some(s) => self.noticed(NoticeLevel::Error, note).put_seed(
                s,
                |x: SessionView| SessionView { composer: x.composer.replaced(note), ..x },
            ),
        }
    }

    /// The marked session of the home screen among those listed.
    pub open spec fn home_clamped(self) -> AppView {
        let count = self.shown_list(self.flags.home_show_archived).len();
        if count > 0 && self.flags.home_selected >= count {
            self.flagged(Flags { home_selected: (count - 1) as usize, ..self.flags })
        } else {
            self
        }
    }

    /// The session made last, where one is being made and it has no tab, is
    /// the one: it is opened.
    pub open spec fn newest_adopted(self, list: Seq<EntryView>) -> AppView {
        let newest = list[newest_to(list, list.len())].seed;
        if self.creates.len() > 0 && list.len() > 0 && !self.tabs.contains(newest) {
            AppView { creates: Seq::empty(), ..self }.session_made(newest)
        } else {
            self
        }
    }

    /// The list of sessions.
    pub open spec fn list_seen(self, list: Seq<EntryView>) -> AppView {
        let v = self.newest_adopted(list);
        AppView {
            list,
            flags: Flags { list_at: Some(v.flags.now), ..v.flags },
            ..v
        }.home_clamped()
    }

    /// Settings were saved, or not.
    pub open spec fn config_written(self, label: Seq<char>, result: Result<(), String>) -> AppView {
        let unsaving = self.flagged(Flags { settings_saving: false, ..self.flags });
        match result {
            Ok(_) => {
                let v = self.noticed(NoticeLevel::Info, label + " 已保存"@);
                if label == "设置"@ {
                    let w = v.flagged(Flags { settings_saving: false, ..v.flags });
                    let x = if w.overlays.len() > 0 && w.overlays.last() is Settings {
                        w.asking(EffectView::Settings(SettingsOpView::DropDraft))
                    } else {
                        w
                    };
                    x.asking(EffectView::FetchConfig)
                } else {
                    v
                }
            },
            Err(e) => (if label == "设置"@ {
                unsaving
            } else {
                self
            }).noticed(NoticeLevel::Error, label + ": "@ + e@),
        }
    }

    /// A file was uploaded.
    pub open spec fn uploaded(self, seed: Seq<char>, path: Seq<char>, content: ContentRef) -> AppView {
        let name = match named_file(path) {
            Some(n) => n,
            None => path,
        };
        if self.session_at(seed) is Some {
            self.put_seed(
                seed,
                |s: SessionView|
                    SessionView {
                        composer: s.composer.attached(AttachmentView { path: name, content }),
                        ..s
                    },
            ).noticed(NoticeLevel::Info, "附件已上传"@)
        } else {
            self.noticed(NoticeLevel::Error, "附件已上传但目标会话已关闭："@ + seed)
        }
    }

    /// How a command ended.
    pub open spec fn receipt_seen(
        self,
        label: Seq<char>,
        seed: Option<Seq<char>>,
        result: Result<CommandState, String>,
    ) -> AppView {
        match result {
            Ok(st) => if st is Succeeded {
                let v = self.noticed(NoticeLevel::Info, label + " 完成"@);
                match seed {
                    Some(s) => v.asking(EffectView::Rebaseline(s)),
                    None => v,
                }
            } else {
                self.noticed(NoticeLevel::Warn, label + ": "@ + state_name(st))
            },
            Err(e) => self.noticed(NoticeLevel::Error, label + ": "@ + e@),
        }
    }

    /// The side panel of a session.
    pub open spec fn dashboard_seen(self, seed: Seq<char>, result: Result<Dashboard, String>) -> AppView {
        let v = AppView { fetching: texts_without(self.fetching, seq![seed]), ..self };
        match result {
            Ok(d) => if has_content(d) {
                v.put_seed(seed, |s: SessionView| SessionView { dashboard: Some(d), ..s })
            } else {
                v
            },
            Err(_) => v,
        }
    }

    /// A timeline with older turns in front.
    pub open spec fn older_seen(self, seed: Seq<char>, result: Result<TimelineModel, String>) -> AppView {
        self.put_seed(seed, |s: SessionView| with_older(s, result))
    }

    /// The outcome of something that was asked for.
    pub open spec fn action_seen(self, a: ActionResult) -> AppView {
        match a {
            ActionResult::Bootstrap { seed, result } => match result {
                Ok(b) => self.bootstrap_seen(seed@, b),
                Err(e) => self.noticed(
                    NoticeLevel::Error,
                    "bootstrap 失败["@ + seed@ + "]: "@ + e@,
                ),
            },
            ActionResult::InteractionBody { seed, interaction_id, result } => match result {
                Ok(body) => self.body_shown(
                    seed@,
                    interaction_id@,
                    json_doc(body.text@),
                    body,
                ),
                Err(e) => self.noticed(
                    NoticeLevel::Warn,
                    "交互正文取回失败["@ + seed@ + "]: "@ + e@,
                ),
            },
            ActionResult::CommandAck { seed, label, result } => match result {
                Ok(ack) => if ack.status is Rejected {
                    self.command_rejected(opt_text(seed), label@, ack)
                } else {
                    self
                },
                Err(e) => self.noticed(NoticeLevel::Error, label@ + ": "@ + e@),
            },
            ActionResult::SessionList(result) => match result {
                Ok(list) => self.list_seen(entries_view(list@)),
                Err(e) => self.noticed(NoticeLevel::Error, "session.list: "@ + e@),
            },
            ActionResult::SessionActivity(result) => match result {
                Ok(items) => AppView {
                    activity: activities_put(self.activity, items@),
                    ..self
                },
                Err(_) => self,
            },
            ActionResult::ConfigLoaded(result) => match result {
                Ok(text) => AppView { config: Some(text@), ..self },
                Err(e) => self.noticed(NoticeLevel::Error, "config.load: "@ + e@),
            },
            ActionResult::ConfigUnreadable(e) => self.noticed(
                NoticeLevel::Error,
                "config.load 解析失败: "@ + e@,
            ),
            ActionResult::ConfigWrite { label, result } => self.config_written(label@, result),
            ActionResult::Uploaded { seed, path, result } => match result {
                Ok(content) => self.uploaded(seed@, path@, content),
                Err(e) => self.noticed(
                    NoticeLevel::Error,
                    "附件上传失败 "@ + path@ + ": "@ + e@,
                ),
            },
            ActionResult::Rebaseline { seed, result } => match result {
                Ok(timeline) => self.put_seed(
                    seed@,
                    |s: SessionView|
                        SessionView {
                            timeline: timeline@,
                            scroll: Scroll { follow: true, offset: 0 },
                            block_cache: None,
                            ..s
                        },
                ),
                Err(_) => self,
            },
            ActionResult::LoadOlder { seed, result } => self.older_seen(seed@, result),
            ActionResult::Receipt { label, seed, result } => self.receipt_seen(
                label@,
                opt_text(seed),
                result,
            ),
            ActionResult::Dashboard { seed, result } => self.dashboard_seen(seed@, result),
            ActionResult::Written { path, turn, result } => match result {
                Ok(_) => self.noticed(
                    NoticeLevel::Info,
                    (if turn {
                        "已导出回合："@
                    } else {
                        "已导出："@
                    }) + path@,
                ),
                Err(e) => self.noticed(NoticeLevel::Error, "导出失败："@ + e@),
            },
        }
    }
}

/// Without a session being made, a list of sessions opens none.
pub proof fn law_list_opens_nothing_by_itself(v: AppView, list: Seq<EntryView>)
    requires
        v.creates.len() == 0,
    ensures
        v.list_seen(list).tabs == v.tabs,
        v.list_seen(list).sessions == v.sessions,
{
}

/// The side panel has nothing to do with the transcript: its news leave every
/// block cache and every timeline alone.
pub proof fn law_dashboard_keeps_caches(
    v: AppView,
    seed: Seq<char>,
    result: Result<Dashboard, String>,
    i: int,
)
    requires
        0 <= i < v.sessions.len(),
    ensures
        ({
            let w = v.dashboard_seen(seed, result);
            &&& w.sessions.len() == v.sessions.len()
            &&& w.sessions[i].block_cache == v.sessions[i].block_cache
            &&& w.sessions[i].timeline == v.sessions[i].timeline
        }),
{
    crate::app::lemma_index(v.sessions, seed, 0);
}

/// A rejected command that was to make a session is not waited for any more;
/// others stay.
pub proof fn law_rejected_create_is_over(v: AppView, label: Seq<char>, ack: CommandAck, other: Seq<char>)
    ensures
        ({
            let w = v.command_rejected(None, label, ack);
            &&& !crate::app_events::is_creating(w.creates, ack.command_id@)
            &&& other != ack.command_id@ ==> crate::app_events::is_creating(w.creates, other)
                == crate::app_events::is_creating(v.creates, other)
        }),
{
    lemma_creates_without(v.creates, ack.command_id@, other);
}

proof fn lemma_creates_without(v: Seq<(Seq<char>, u64)>, id: Seq<char>, other: Seq<char>)
    ensures
        !crate::app_events::is_creating(creates_without(v, id), id),
        other != id ==> crate::app_events::is_creating(creates_without(v, id), other)
            == crate::app_events::is_creating(v, other),
    decreases v.len(),
{
    if v.len() > 0 {
        let d = v.drop_last();
        let r = creates_without(d, id);
        let w = creates_without(v, id);
        lemma_creates_without(d, id, other);
        assert forall|x: Seq<char>|
            crate::app_events::is_creating(v, x) == (crate::app_events::is_creating(d, x)
                || v.last().0 == x) by {
            lemma_creating_push(d, v.last(), x);
            assert(d.push(v.last()) =~= v);
        }
        if v.last().0 != id {
            assert forall|x: Seq<char>|
                crate::app_events::is_creating(w, x) == (crate::app_events::is_creating(r, x)
                    || v.last().0 == x) by {
                lemma_creating_push(r, v.last(), x);
            }
        }
    }
}

proof fn lemma_creating_push(v: Seq<(Seq<char>, u64)>, e: (Seq<char>, u64), x: Seq<char>)
    ensures
        crate::app_events::is_creating(v.push(e), x) == (crate::app_events::is_creating(v, x)
            || e.0 == x),
{
    let w = v.push(e);
    if crate::app_events::is_creating(w, x) {
        let i = choose|i: int| 0 <= i < w.len() && (#[trigger] w[i]).0 == x;
        if i < v.len() {
            assert(v[i] == w[i]);
        }
    }
    if crate::app_events::is_creating(v, x) {
        let i = choose|i: int| 0 <= i < v.len() && (#[trigger] v[i]).0 == x;
        assert(w[i] == v[i]);
    }
    if e.0 == x {
        assert(w[v.len() as int].0 == x);
    }
}

fn bootstrap_session(
    sess: &mut SessionState,
    activity: ActivityState,
    model: Option<String>,
    usage: Option<crate::session::TokenUsage>,
    Ghost(b): Ghost<SessionBootstrap>,
)
    requires
        b.activity == activity,
        b.model == model,
        b.usage == usage,
    ensures
        final(sess)@ == bootstrapped(old(sess)@, b),
{
    let ghost v = sess@;
    sess.activity = Some(activity);
    assert(sess@ =~= SessionView { activity: Some(activity), ..v });
    sess.sync_streaming_from_timeline();
    let ghost w = sess@;
    sess.usage = usage;
    sess.model = model;
    sess.block_cache = None;
    assert(sess@ =~= bootstrapped(v, b));
}

fn extend_session(sess: &mut SessionState, result: Result<TimelineModel, String>)
    ensures
        final(sess)@ == with_older(old(sess)@, result),
{
    let ghost v = sess@;
    sess.loading_older = false;
    if let Ok(timeline) = result {
        sess.timeline = timeline;
        sess.block_cache = None;
    }
    assert(sess@ =~= with_older(v, result));
}

fn newest(list: &Vec<SessionListEntry>) -> (k: usize)
    requires
        list@.len() > 0,
    ensures
        k < list@.len(),
        k == newest_to(entries_view(list@), list@.len()),
{
    let ghost v = entries_view(list@);
    let n: usize = list.len();
    let mut k: usize = 0;
    let mut i: usize = 1;
    while i < n
        invariant
            1 <= i <= n == list@.len(),
            v == entries_view(list@),
            k < i,
            k == newest_to(v, i as nat),
        decreases n - i,
    {
        assert(v[i as int] == list@[i as int]@);
        assert(v[k as int] == list@[k as int]@);
        if list[i].created_at >= list[k].created_at {
            k = i;
        }
        i += 1;
    }
    k
}

fn rejected_text(label: &str, ack: &CommandAck, create: bool) -> (r: String)
    ensures
        r@ == reject_note(label@, *ack, create),
{
    let reason = match &ack.message {
        Some(m) => m.clone(),
        None => match &ack.code {
            Some(c) => c.clone(),
            None => "unknown".to_owned(),
        },
    };
    let mut r = cat3(label, " 被拒绝：", reason.as_str());
    if create {
        r.push_str("（会话未创建）");
    } else {
        assert(r@ + Seq::<char>::empty() =~= r@);
    }
    r
}

impl App {
    fn see_bootstrap(&mut self, seed: &str, b: SessionBootstrap)
        requires
            old(self).wf(),
        ensures
            final(self).wf(),
            final(self)@ == old(self)@.bootstrap_seen(seed@, b),
    {
        let ghost before = *self;
        let ghost whole = b;
        if let Some(i) = self.find_session(seed) {
            let ghost s0 = self@.sessions[i as int];
            assert(s0 == self.sessions@[i as int]@);
            assert(session_ok(s0));
            let SessionBootstrap { activity, model, usage, interactions } = b;
            bootstrap_session(&mut self.sessions[i], activity, model, usage, Ghost(whole));
            proof {
                lemma_session_put(before, *self, i as int, bootstrapped(s0, whole));
            }
            self.restore_all(seed, interactions);
        }
        self.fetch_dashboard(seed);
    }

    fn restore_all(&mut self, seed: &str, interactions: Vec<PendingInteraction>)
        requires
            old(self).wf(),
        ensures
            final(self).wf(),
            final(self)@ == old(self)@.all_restored(seed@, interactions@),
    {
        let ghost v = self@;
        let ghost all = interactions@;
        let mut left = interactions;
        let ghost mut done: int = 0;
        assert(all.take(0) =~= Seq::empty());
        assert(all.skip(0) =~= all);
        while left.len() > 0
            invariant
                self.wf(),
                0 <= done <= all.len(),
                left@ == all.skip(done),
                self@ == v.all_restored(seed@, all.take(done)),
            decreases left@.len(),
        {
            let p = left.remove(0);
            proof {
                assert(p == all[done]);
                assert(all.take(done + 1).drop_last() =~= all.take(done));
                assert(all.skip(done).remove(0) =~= all.skip(done + 1));
            }
            self.restore_pending_interaction(seed, p);
            proof {
                done = done + 1;
            }
        }
        assert(all.take(done) =~= all);
    }

    fn restore_draft(&mut self)
        requires
            old(self).wf(),
        ensures
            final(self).wf(),
            final(self)@ == old(self)@.draft_restored(),
    {
        let ghost v = self@;
        if self.pending_initial_prompt.is_none() {
            return;
        }
        let text = match self.pending_initial_prompt.take() {
            Some(t) => t,
            None => String::new(),
        };
        self.draft_composer.insert_str(text.as_str());
        assert(self@ =~= v.draft_restored());
    }

    fn see_rejection(&mut self, seed: Option<String>, label: &str, ack: &CommandAck)
        requires
            old(self).wf(),
        ensures
            final(self).wf(),
            final(self)@ == old(self)@.command_rejected(opt_text(seed), label@, *ack),
    {
        let note = rejected_text(label, ack, seed.is_none());
        match seed {
            None => {
                self.take_create(ack.command_id.as_str());
                self.restore_draft();
                self.toast(NoticeLevel::Error, note);
            },
            Some(s) => {
                let text = note.clone();
                self.toast(NoticeLevel::Error, note);
                self.retype(s.as_str(), text.as_str());
            },
        }
    }

    fn retype(&mut self, seed: &str, text: &str)
        requires
            old(self).wf(),
        ensures
            final(self).wf(),
            final(self)@ == old(self)@.put_seed(
                seed@,
                |x: SessionView| SessionView { composer: x.composer.replaced(text@), ..x },
            ),
    {
        let ghost before = *self;
        if let Some(i) = self.find_session(seed) {
            let ghost s0 = self@.sessions[i as int];
            assert(s0 == self.sessions@[i as int]@);
            assert(session_ok(s0));
            self.sessions[i].composer.replace(text);
            proof {
                let s = SessionView { composer: s0.composer.replaced(text@), ..s0 };
                assert(self.sessions@[i as int]@ =~= s);
                lemma_session_put(before, *self, i as int, s);
            }
        }
    }

    /// Keeps the marked session of the home screen among those listed.
    pub fn clamp_home(&mut self)
        requires
            old(self).wf(),
        ensures
            final(self).wf(),
            final(self)@ == old(self)@.home_clamped(),
    {
        let ghost v = self@;
        let count: usize = self.filtered_sessions(self.home_show_archived).len();
        if count > 0 && self.home_selected >= count {
            self.home_selected = count - 1;
        }
        assert(self@ =~= v.home_clamped());
    }

    fn adopt_newest(&mut self, list: &Vec<SessionListEntry>)
        requires
            old(self).wf(),
        ensures
            final(self).wf(),
            final(self)@ == old(self)@.newest_adopted(entries_view(list@)),
    {
        let ghost v = self@;
        assert(v.creates.len() == self.pending_creates@.len());
        if self.pending_creates.len() == 0 || list.len() == 0 {
            return;
        }
        let k: usize = newest(list);
        assert(entries_view(list@)[k as int] == list@[k as int]@);
        let seed = list[k].seed.clone();
        if !holds(&self.tabs, seed.as_str()) {
            self.pending_creates = Vec::new();
            assert(self@.creates =~= Seq::empty());
            assert(self@ =~= AppView { creates: Seq::empty(), ..v });
            self.adopt_session(seed.as_str());
        }
    }

    fn see_list(&mut self, list: Vec<SessionListEntry>)
        requires
            old(self).wf(),
        ensures
            final(self).wf(),
            final(self)@ == old(self)@.list_seen(entries_view(list@)),
    {
        self.adopt_newest(&list);
        let ghost v = self@;
        self.session_list_cache = list;
        self.session_list_at = Some(self.now);
        assert(self@ =~= AppView {
            list: entries_view(list@),
            flags: Flags { list_at: Some(v.flags.now), ..v.flags },
            ..v
        });
        self.clamp_home();
    }

    fn see_activities(&mut self, items: &Vec<(String, ActivityState)>)
        requires
            old(self).wf(),
        ensures
            final(self).wf(),
            final(self)@ == (AppView {
                activity: activities_put(old(self)@.activity, items@),
                ..old(self)@
            }),
    {
        let ghost v = self@;
        let n: usize = items.len();
        let mut i: usize = 0;
        assert(items@.take(0) =~= Seq::empty());
        while i < n
            invariant
                i <= n == items@.len(),
                self.wf(),
                self@ == (AppView {
                    activity: activities_put(v.activity, items@.take(i as int)),
                    ..v
                }),
            decreases n - i,
        {
            let st = items[i].1;
            self.note_activity(items[i].0.as_str(), st);
            assert(items@.take(i + 1).drop_last() =~= items@.take(i as int));
            i += 1;
        }
        assert(items@.take(n as int) =~= items@);
    }

    fn stop_saving(&mut self)
        requires
            old(self).wf(),
        ensures
            final(self).wf(),
            final(self)@ == old(self)@.flagged(
                Flags { settings_saving: false, ..old(self)@.flags },
            ),
    {
        let ghost v = self@;
        self.settings_saving = false;
        assert(self@ =~= v.flagged(Flags { settings_saving: false, ..v.flags }));
    }

    fn see_config_written(&mut self, label: &str, result: Result<(), String>)
        requires
            old(self).wf(),
        ensures
            final(self).wf(),
            final(self)@ == old(self)@.config_written(label@, result),
    {
        let settings = str_eq(label, "设置");
        match result {
            Ok(_) => {
                let note = cat2(label, " 已保存");
                self.toast(NoticeLevel::Info, note);
                if settings {
                    self.stop_saving();
                    let n: usize = self.overlays.len();
                    if n > 0 {
                        assert(self@.overlays.last() == self.overlays@[n - 1]@);
                        let shown = match &self.overlays[n - 1] {
                            Overlay::Settings(_) => true,
                            _ => false,
                        };
                        if shown {
                            self.emit(Effect::Settings(SettingsOp::DropDraft));
                        }
                    }
                    self.emit(Effect::FetchConfig);
                }
            },
            Err(e) => {
                if settings {
                    self.stop_saving();
                }
                let note = cat3(label, ": ", e.as_str());
                self.toast(NoticeLevel::Error, note);
            },
        }
    }

    fn attach_file(&mut self, seed: &str, a: Attachment)
        requires
            old(self).wf(),
        ensures
            final(self).wf(),
            final(self)@ == old(self)@.put_seed(
                seed@,
                |s: SessionView| SessionView { composer: s.composer.attached(a@), ..s },
            ),
    {
        let ghost before = *self;
        let ghost av = a@;
        if let Some(i) = self.find_session(seed) {
            let ghost s0 = self@.sessions[i as int];
            assert(s0 == self.sessions@[i as int]@);
            assert(session_ok(s0));
            self.sessions[i].composer.attach(a);
            proof {
                let s = SessionView { composer: s0.composer.attached(av), ..s0 };
                assert(self.sessions@[i as int]@ =~= s);
                lemma_session_put(before, *self, i as int, s);
            }
        }
    }

    fn see_upload(&mut self, seed: &str, path: String, content: ContentRef)
        requires
            old(self).wf(),
        ensures
            final(self).wf(),
            final(self)@ == old(self)@.uploaded(seed@, path@, content),
    {
        if self.find_session(seed).is_some() {
            let name = match file_name(path.as_str()) {
                Some(n) => n,
                None => path,
            };
            let a = Attachment { path: name, content };
            assert(a@ =~= AttachmentView { path: name@, content });
            self.attach_file(seed, a);
            self.toast(NoticeLevel::Info, "附件已上传".to_owned());
        } else {
            let note = cat2("附件已上传但目标会话已关闭：", seed);
            self.toast(NoticeLevel::Error, note);
        }
    }

    fn replace_timeline(&mut self, seed: &str, timeline: TimelineModel)
        requires
            old(self).wf(),
        ensures
            final(self).wf(),
            final(self)@ == old(self)@.put_seed(
                seed@,
                |s: SessionView|
                    SessionView {
                        timeline: timeline@,
                        scroll: Scroll { follow: true, offset: 0 },
                        block_cache: None,
                        ..s
                    },
            ),
    {
        let ghost before = *self;
        if let Some(i) = self.find_session(seed) {
            let ghost s0 = self@.sessions[i as int];
            assert(s0 == self.sessions@[i as int]@);
            assert(session_ok(s0));
            self.sessions[i].timeline = timeline;
            self.sessions[i].scroll = Scroll { follow: true, offset: 0 };
            self.sessions[i].block_cache = None;
            proof {
                let s = SessionView {
                    timeline: timeline@,
                    scroll: Scroll { follow: true, offset: 0 },
                    block_cache: None,
                    ..s0
                };
                assert(self.sessions@[i as int]@ =~= s);
                lemma_session_put(before, *self, i as int, s);
            }
        }
    }

    fn see_older(&mut self, seed: &str, result: Result<TimelineModel, String>)
        requires
            old(self).wf(),
        ensures
            final(self).wf(),
            final(self)@ == old(self)@.older_seen(seed@, result),
    {
        let ghost before = *self;
        if let Some(i) = self.find_session(seed) {
            let ghost s0 = self@.sessions[i as int];
            assert(s0 == self.sessions@[i as int]@);
            assert(session_ok(s0));
            extend_session(&mut self.sessions[i], result);
            proof {
                lemma_session_put(before, *self, i as int, with_older(s0, result));
            }
        }
    }

    fn see_receipt(
        &mut self,
        label: &str,
        seed: Option<String>,
        result: Result<CommandState, String>,
    )
        requires
            old(self).wf(),
        ensures
            final(self).wf(),
            final(self)@ == old(self)@.receipt_seen(label@, opt_text(seed), result),
    {
        match result {
            Ok(st) => {
                if st == CommandState::Succeeded {
                    let note = cat2(label, " 完成");
                    self.toast(NoticeLevel::Info, note);
                    if let Some(s) = seed {
                        self.emit(Effect::Rebaseline(s));
                    }
                } else {
                    let name = match st {
                        CommandState::Accepted => "Accepted",
                        CommandState::Running => "Running",
                        CommandState::Succeeded => "Succeeded",
                        CommandState::Failed => "Failed",
                        CommandState::Rejected => "Rejected",
                    };
                    let note = cat3(label, ": ", name);
                    self.toast(NoticeLevel::Warn, note);
                }
            },
            Err(e) => {
                let note = cat3(label, ": ", e.as_str());
                self.toast(NoticeLevel::Error, note);
            },
        }
    }

    fn end_fetch(&mut self, seed: &str)
        requires
            old(self).wf(),
        ensures
            final(self).wf(),
            final(self)@ == (AppView {
                fetching: texts_without(old(self)@.fetching, seq![seed@]),
                ..old(self)@
            }),
    {
        let ghost v = self@;
        let ghost all = v.fetching;
        let ghost gone = seq![seed@];
        let mut kept: Vec<String> = Vec::new();
        let n: usize = self.dashboard_fetching.len();
        let mut i: usize = 0;
        assert(all.take(0) =~= Seq::empty());
        assert(texts(kept@) =~= Seq::empty());
        while i < n
            invariant
                i <= n == self.dashboard_fetching@.len(),
                all == texts(self.dashboard_fetching@),
                gone == seq![seed@],
                texts(kept@) == texts_without(all.take(i as int), gone),
            decreases n - i,
        {
            let ghost before = kept@;
            assert(all[i as int] == self.dashboard_fetching@[i as int]@);
            assert(all.take(i + 1).drop_last() =~= all.take(i as int));
            let same = str_eq(self.dashboard_fetching[i].as_str(), seed);
            assert(same == gone.contains(all[i as int])) by {
                assert(gone[0] == seed@);
            }
            if !same {
                kept.push(self.dashboard_fetching[i].clone());
                assert(texts(kept@) =~= texts(before).push(all[i as int]));
            }
            i += 1;
        }
        assert(all.take(n as int) =~= all);
        self.dashboard_fetching = kept;
        assert(self@ =~= AppView { fetching: texts_without(all, gone), ..v });
    }

    fn set_dashboard(&mut self, seed: &str, d: Dashboard)
        requires
            old(self).wf(),
        ensures
            final(self).wf(),
            final(self)@ == old(self)@.put_seed(
                seed@,
                |s: SessionView| SessionView { dashboard: Some(d), ..s },
            ),
    {
        let ghost before = *self;
        if let Some(i) = self.find_session(seed) {
            let ghost s0 = self@.sessions[i as int];
            assert(s0 == self.sessions@[i as int]@);
            assert(session_ok(s0));
            self.sessions[i].dashboard = Some(d);
            proof {
                let s = SessionView { dashboard: Some(d), ..s0 };
                assert(self.sessions@[i as int]@ =~= s);
                lemma_session_put(before, *self, i as int, s);
            }
        }
    }

    fn see_dashboard(&mut self, seed: &str, result: Result<Dashboard, String>)
        requires
            old(self).wf(),
        ensures
            final(self).wf(),
            final(self)@ == old(self)@.dashboard_seen(seed@, result),
    {
        self.end_fetch(seed);
        if let Ok(d) = result {
            if d.tasks.len() > 0 || d.recent_edits.len() > 0 || d.documents.len() > 0 {
                self.set_dashboard(seed, d);
            }
        }
    }

    /// The outcome of something that was asked for.
    pub fn handle_action(&mut self, action: ActionResult)
        requires
            old(self).wf(),
        ensures
            final(self).wf(),
            final(self)@ == old(self)@.action_seen(action),
    {
        match action {
            ActionResult::Bootstrap { seed, result } => match result {
                Ok(b) => {
                    self.see_bootstrap(seed.as_str(), b);
                },
                Err(e) => {
                    let note = cat4("bootstrap 失败[", seed.as_str(), "]: ", e.as_str());
                    self.toast(NoticeLevel::Error, note);
                },
            },
            ActionResult::InteractionBody { seed, interaction_id, result } => match result {
                Ok(body) => {
                    self.apply_interaction_body(seed.as_str(), interaction_id.as_str(), body);
                },
                Err(e) => {
                    let note = cat4("交互正文取回失败[", seed.as_str(), "]: ", e.as_str());
                    self.toast(NoticeLevel::Warn, note);
                },
            },
            ActionResult::CommandAck { seed, label, result } => match result {
                Ok(ack) => {
                    if ack.status == AckStatus::Rejected {
                        self.see_rejection(seed, label.as_str(), &ack);
                    }
                },
                Err(e) => {
                    let note = cat3(label.as_str(), ": ", e.as_str());
                    self.toast(NoticeLevel::Error, note);
                },
            },
            ActionResult::SessionList(result) => match result {
                Ok(list) => {
                    self.see_list(list);
                },
                Err(e) => {
                    let note = cat2("session.list: ", e.as_str());
                    self.toast(NoticeLevel::Error, note);
                },
            },
            ActionResult::SessionActivity(result) => {
                if let Ok(items) = result {
                    self.see_activities(&items);
                }
            },
            ActionResult::ConfigLoaded(result) => {
                self.see_config(result);
            },
            ActionResult::ConfigUnreadable(e) => {
                let note = cat2("config.load 解析失败: ", e.as_str());
                self.toast(NoticeLevel::Error, note);
            },
            ActionResult::ConfigWrite { label, result } => {
                self.see_config_written(label.as_str(), result);
            },
            ActionResult::Uploaded { seed, path, result } => match result {
                Ok(content) => {
                    self.see_upload(seed.as_str(), path, content);
                },
                Err(e) => {
                    let note = cat4("附件上传失败 ", path.as_str(), ": ", e.as_str());
                    self.toast(NoticeLevel::Error, note);
                },
            },
            ActionResult::Rebaseline { seed, result } => {
                if let Ok(timeline) = result {
                    self.replace_timeline(seed.as_str(), timeline);
                }
            },
            ActionResult::LoadOlder { seed, result } => {
                self.see_older(seed.as_str(), result);
            },
            ActionResult::Receipt { label, seed, result } => {
                self.see_receipt(label.as_str(), seed, result);
            },
            ActionResult::Dashboard { seed, result } => {
                self.see_dashboard(seed.as_str(), result);
            },
            ActionResult::Written { path, turn, result } => match result {
                Ok(_) => {
                    let note = cat2(
                        if turn {
                            "已导出回合："
                        } else {
                            "已导出："
                        },
                        path.as_str(),
                    );
                    self.toast(NoticeLevel::Info, note);
                },
                Err(e) => {
                    let note = cat2("导出失败：", e.as_str());
                    self.toast(NoticeLevel::Error, note);
                },
            },
        }
    }

    fn see_config(&mut self, result: Result<String, String>)
        requires
            old(self).wf(),
        ensures
            final(self).wf(),
            final(self)@ == old(self)@.action_seen(ActionResult::ConfigLoaded(result)),
    {
        let ghost v = self@;
        match result {
            Ok(text) => {
                self.config = Some(text);
                assert(self@ =~= AppView { config: Some(text@), ..v });
            },
            Err(e) => {
                let note = cat2("config.load: ", e.as_str());
                self.toast(NoticeLevel::Error, note);
            },
        }
    }
}

} // verus!
