//! News from the daemon: the connection, sessions, conversations and
//! timelines.

use crate::app::{App, AppView, ConnView, Flags};
use crate::app_deltas::{loaded, stepped};
use crate::app_modal::lemma_put_ok;
use crate::app_tabs::states_set;
use crate::approval::{PlanPanel, PlanView};
use crate::ask::{fresh_ask, AskMode, AskPanel, AskQuestion};
use crate::conn::{
    reconcile_conn, reconciled, timeline_lost_effect, without, Alert, ConnPhase, StreamIssues,
    StreamKey, TimelineLostEffect, TimelineLostReason,
};
use crate::json::{json_doc, parse_json, JsonDoc, JsonDocView, JsonField, JsonFieldView};
use crate::message::{
    ConnEvent, ContentValue, ControlDelta, ConversationDelta, Effect, EffectView,
    InteractionBody, InteractionKind, MetaDelta, NoticeLevel, PendingInteraction, RuntimeMsg,
    TimelineStep, V2Payload,
};
use crate::session::{
    conversed, holds, permission_for, session_ok, settled, undialogued, with_permission,
    with_snapshot_permission, ActivityState, Scroll, SessionView, SubagentState, SubagentView,
};
use crate::text::{cat4, opt_text, starts_with, str_eq, texts};
use crate::timeline::TimelineModel;
use vstd::prelude::*;

verus! {

/// The text that a JSON object has under a name, from member `k` on.
pub open spec fn member_from(m: Seq<(Seq<char>, JsonFieldView)>, key: Seq<char>, k: int) -> Option<
    Seq<char>,
>
    decreases m.len() - k,
{
    if k >= m.len() {
        None
    } else if m[k].0 == key {
        match m[k].1 {
            JsonFieldView::Text(s) => Some(s),
            _ => None,
        }
    } else {
        member_from(m, key, k + 1)
    }
}

/// The text that a JSON object has under a name.
pub open spec fn member(doc: JsonDocView, key: Seq<char>) -> Option<Seq<char>> {
    match doc {
        JsonDocView::Object(m) => member_from(m, key, 0),
        _ => None,
    }
}

/// The text, or another where there is none.
pub open spec fn or_text(s: Option<Seq<char>>, other: Seq<char>) -> Seq<char> {
    match s {
        Some(s) => s,
        None => other,
    }
}

fn member_text(doc: &JsonDoc, key: &str) -> (r: Option<String>)
    ensures
        opt_text(r) == member(doc@, key@),
{
    match doc {
        JsonDoc::Object(m) => {
            let n: usize = m.len();
            let ghost v = crate::json::fields_view(m@);
            let mut k: usize = 0;
            while k < n
                invariant
                    k <= n == m@.len(),
                    v == crate::json::fields_view(m@),
                    doc@ == JsonDocView::Object(v),
                    member_from(v, key@, 0) == member_from(v, key@, k as int),
                decreases n - k,
            {
                assert(v[k as int] == (m@[k as int].0@, m@[k as int].1@));
                if str_eq(m[k].0.as_str(), key) {
                    return match &m[k].1 {
                        JsonField::Text(s) => Some(s.clone()),
                        _ => None,
                    };
                }
                k += 1;
            }
            None
        },
        _ => None,
    }
}

/// The commands that make a session without one.
pub open spec fn creates_without(v: Seq<(Seq<char>, u64)>, id: Seq<char>) -> Seq<(Seq<char>, u64)>
    decreases v.len(),
{
    if v.len() == 0 {
        v
    } else {
        let rest = creates_without(v.drop_last(), id);
        if v.last().0 == id {
            rest
        } else {
            rest.push(v.last())
        }
    }
}

/// A command makes a session.
pub open spec fn is_creating(v: Seq<(Seq<char>, u64)>, id: Seq<char>) -> bool {
    exists|i: int| 0 <= i < v.len() && (#[trigger] v[i]).0 == id
}

/// The first place from `k` on that holds the activity of a session.
pub open spec fn activity_from(v: Seq<(Seq<char>, ActivityState)>, seed: Seq<char>, k: int) -> Option<
    int,
>
    decreases v.len() - k,
{
    if k >= v.len() {
        None
    } else if v[k].0 == seed {
        Some(k)
    } else {
        activity_from(v, seed, k + 1)
    }
}

/// Activities, that of one session replaced.
pub open spec fn activity_put(
    v: Seq<(Seq<char>, ActivityState)>,
    seed: Seq<char>,
    st: ActivityState,
) -> Seq<(Seq<char>, ActivityState)> {
    match activity_from(v, seed, 0) {
        Some(i) => v.update(i, (seed, st)),
        None => v.push((seed, st)),
    }
}

/// A subagent whose call is `call` has session `child`.
pub open spec fn seed_bound(e: SubagentView, call: Seq<char>, child: Seq<char>) -> SubagentView {
    if e.tool_call_id == call {
        SubagentView { seed: Some(child), ..e }
    } else {
        e
    }
}

/// Subagents, those of call `call` with session `child`.
pub open spec fn seeds_bound(v: Seq<SubagentView>, call: Seq<char>, child: Seq<char>) -> Seq<
    SubagentView,
> {
    Seq::new(v.len(), |i: int| seed_bound(v[i], call, child))
}

/// Some subagent has session `child`.
pub open spec fn has_child(v: Seq<SubagentView>, child: Seq<char>) -> bool {
    exists|i: int|
        0 <= i < v.len() && (#[trigger] v[i]).seed is Some && seq![child].contains(v[i].seed->0)
}

/// Why a timeline stream ended, in words.
pub open spec fn described(reason: TimelineLostReason) -> Seq<char> {
    match reason {
        TimelineLostReason::SessionMissing => "会话不存在"@,
        TimelineLostReason::Other(s) => s@,
    }
}

impl AppView {
    /// One session replaced, where there is one with the seed.
    pub open spec fn put_seed(self, seed: Seq<char>, f: spec_fn(SessionView) -> SessionView) -> AppView {
        match self.session_at(seed) {
            Some(i) => self.put(i, f(self.sessions[i])),
            None => self,
        }
    }

    /// What is shown of the connection, given the streams in trouble.
    pub open spec fn conn_shown(self) -> AppView {
        let (phase, error) = reconciled(self.conn.phase, self.conn.issues, self.conn.error);
        AppView { conn: ConnView { phase, error, ..self.conn }, ..self }
    }

    /// All sessions taken up again after a new connection: those of tabs
    /// resumed, subagents attached to.
    pub open spec fn taken_up(self) -> AppView {
        AppView {
            effects: self.effects + Seq::new(
                self.tabs.len(),
                |i: int| EffectView::Resume(self.tabs[i]),
            ) + Seq::new(self.subagents.len(), |i: int| EffectView::Attach(self.subagents[i])),
            ..self
        }
    }

    /// News of the connection.
    pub open spec fn conn_seen(self, ev: ConnEvent) -> AppView {
        match ev {
            ConnEvent::Opening => AppView {
                conn: ConnView { phase: ConnPhase::Opening, ..self.conn },
                ..self
            },
            ConnEvent::Ready { epoch, epoch_changed } => {
                let v = AppView {
                    conn: ConnView {
                        phase: ConnPhase::Ready,
                        epoch: epoch@,
                        error: None,
                        issues: Seq::empty(),
                    },
                    ..self
                }.taken_up();
                if epoch_changed {
                    v.noticed(NoticeLevel::Warn, "daemon 重启：已重建连接并恢复会话"@)
                } else {
                    v
                }
            },
            ConnEvent::Lost(reason) => AppView {
                conn: ConnView { phase: ConnPhase::Lost, error: Some(reason@), ..self.conn },
                ..self
            },
            ConnEvent::StreamIssue { stream, error } => AppView {
                conn: ConnView {
                    issues: without(self.conn.issues, stream@).push(
                        Alert { stream: stream@, message: error@ },
                    ),
                    ..self.conn
                },
                ..self
            }.conn_shown(),
            ConnEvent::StreamRecovered { stream } => AppView {
                conn: ConnView { issues: without(self.conn.issues, stream@), ..self.conn },
                ..self
            }.conn_shown(),
        }
    }

    /// A new connection asked for, while the present one is lost.
    pub open spec fn reconnect_asked(self) -> AppView {
        if self.conn.phase is Lost {
            self.noticed(NoticeLevel::Info, "正在重连 daemon…"@).asking(EffectView::Reconnect)
        } else {
            self.noticed(NoticeLevel::Info, "连接正常，无需重连"@)
        }
    }

    /// A timeline stream ended.
    pub open spec fn timeline_lost(self, seed: Seq<char>, reason: TimelineLostReason) -> AppView {
        if self.subagents.contains(seed) && reason is SessionMissing {
            self.subagent_closed(seed)
        } else {
            self.noticed(
                NoticeLevel::Error,
                "timeline 断开["@ + seed + "]: "@ + described(reason),
            )
        }
    }

    /// A dialog about an interaction is open.
    pub open spec fn has_pending(self, seed: Seq<char>, id: Seq<char>) -> bool {
        match self.session_at(seed) {
            Some(i) => {
                let s = self.sessions[i];
                (s.ask is Some && s.ask->0.interaction_id == id) || (s.plan is Some
                    && s.plan->0.interaction_id == id)
            },
            None => false,
        }
    }

    /// The text of an interaction shown as a dialog.
    pub open spec fn body_shown(
        self,
        seed: Seq<char>,
        id: Seq<char>,
        doc: JsonDocView,
        body: InteractionBody,
    ) -> AppView {
        if self.suppressed.contains(id) {
            self
        } else if member(doc, "kind"@) == Some("ask"@) {
            self.put_seed(
                seed,
                |s: SessionView|
                    SessionView {
                        ask: Some(
                            fresh_ask(
                                id,
                                Seq::empty(),
                                match body.mode {
                                    Some(m) => m,
                                    None => AskMode::Single,
                                },
                                match body.questions {
                                    Some(q) => q@,
                                    None => Seq::empty(),
                                },
                            ),
                        ),
                        scroll: Scroll { follow: true, ..s.scroll },
                        ..s
                    },
            )
        } else if member(doc, "kind"@) == Some("plan"@) {
            self.put_seed(
                seed,
                |s: SessionView|
                    SessionView {
                        plan: Some(
                            PlanView {
                                interaction_id: id,
                                turn_id: Seq::empty(),
                                plan_content: or_text(member(doc, "plan_content"@), Seq::empty()),
                                review_type: or_text(member(doc, "review_type"@), "plan"@),
                                todo_items: match body.todo_items {
                                    Some(v) => texts(v@),
                                    None => Seq::empty(),
                                },
                                message: Seq::empty(),
                                entering: false,
                                scroll: 0,
                            },
                        ),
                        ..s
                    },
            )
        } else {
            self
        }
    }

    /// Where the text of an interaction is, shown or asked for.
    pub open spec fn content_seen(self, seed: Seq<char>, id: Seq<char>, c: ContentValue) -> AppView {
        match c {
            ContentValue::Inline(body) => self.body_shown(seed, id, json_doc(body.text@), body),
            ContentValue::Ref(r) => self.asking(
                EffectView::DownloadBody { seed, interaction_id: id, content_id: r@ },
            ),
            ContentValue::Unavailable => self,
        }
    }

    /// An interaction that waits for an answer.
    pub open spec fn interaction_requested(
        self,
        seed: Seq<char>,
        id: Seq<char>,
        call_id: Option<Seq<char>>,
        kind: InteractionKind,
        request: ContentValue,
    ) -> AppView {
        match kind {
            InteractionKind::Permission => match call_id {
                Some(c) => self.put_seed(
                    seed,
                    |s: SessionView| with_permission(s, permission_for(s.timeline, c)),
                ),
                None => self,
            },
            _ => self.content_seen(seed, id, request),
        }
    }

    /// An interaction in a snapshot: none that was answered here, by its id or its
    /// call, comes back.
    pub open spec fn interaction_restored(self, seed: Seq<char>, p: PendingInteraction) -> AppView {
        if self.suppressed.contains(p.interaction_id@) || (p.call_id@.len() > 0
            && self.suppressed.contains(p.call_id@)) {
            self
        } else {
            match p.kind {
                InteractionKind::Permission => if p.call_id@.len() == 0 {
                    self
                } else {
                    self.put_seed(
                        seed,
                        |s: SessionView|
                            with_snapshot_permission(s, permission_for(s.timeline, p.call_id@)),
                    )
                },
                _ => if self.has_pending(seed, p.interaction_id@) {
                    self
                } else {
                    self.content_seen(seed, p.interaction_id@, p.request)
                },
            }
        }
    }

    /// The dialogs about an interaction gone.
    pub open spec fn interaction_cleared(self, seed: Seq<char>, id: Seq<char>) -> AppView {
        self.put_seed(seed, |s: SessionView| undialogued(s, id))
    }

    /// A session was made here: it is opened.
    pub open spec fn session_made(self, seed: Seq<char>) -> AppView {
        self.opened(seed).prompt_transferred().noticed(
            NoticeLevel::Info,
            "新会话已创建 "@ + seed,
        )
    }

    /// What a session is doing.
    pub open spec fn activity_seen(self, seed: Seq<char>, st: ActivityState) -> AppView {
        let v = AppView { activity: activity_put(self.activity, seed, st), ..self }.put_seed(
            seed,
            |s: SessionView| SessionView { activity: Some(st), ..s },
        );
        if st is WaitingUser && !self.tabs.contains(seed) {
            v.noticed(NoticeLevel::Warn, "会话 "@ + seed + " 等待输入"@)
        } else {
            v
        }
    }

    /// A subagent of a session ended.
    pub open spec fn subagent_finished(self, seed: Seq<char>, child: Seq<char>, st: SubagentState) -> AppView {
        match self.session_at(seed) {
            Some(i) => {
                let s = self.sessions[i];
                let v = self.put(
                    i,
                    SessionView { subagents: states_set(s.subagents, seq![child], st), ..s },
                );
                if has_child(s.subagents, child) {
                    v.untracked(child)
                } else {
                    v
                }
            },
            None => self,
        }
    }

    /// A change of the control state.
    pub open spec fn control_seen(
        self,
        seed: Seq<char>,
        causation: Option<Seq<char>>,
        d: ControlDelta,
    ) -> AppView {
        match d {
            ControlDelta::SessionCreated => match causation {
                Some(id) => if is_creating(self.creates, id) {
                    AppView { creates: creates_without(self.creates, id), ..self }.session_made(seed)
                } else {
                    self
                },
                None => self,
            },
            ControlDelta::Activity(st) => self.activity_seen(seed, st),
            ControlDelta::InteractionRequested { interaction_id, call_id, kind, request } =>
                self.interaction_requested(
                seed,
                interaction_id@,
                opt_text(call_id),
                kind,
                request,
            ),
            ControlDelta::InteractionResolved { interaction_id } => self.interaction_cleared(
                seed,
                interaction_id@,
            ),
            ControlDelta::InteractionExpired { interaction_id } => self.interaction_cleared(
                seed,
                interaction_id@,
            ),
            ControlDelta::ToolFinished { call_id } => self.put_seed(
                seed,
                |s: SessionView| settled(s, call_id@),
            ),
            ControlDelta::SubagentSpawned { child_session_id, parent_call_id } => self.put_seed(
                seed,
                |s: SessionView|
                    SessionView {
                        subagents: seeds_bound(s.subagents, parent_call_id@, child_session_id@),
                        ..s
                    },
            ),
            ControlDelta::SubagentFinished { child_session_id, status } => self.subagent_finished(
                seed,
                child_session_id@,
                status,
            ),
            ControlDelta::Other => self,
        }
    }

    /// The next frame is drawn from scratch.
    pub open spec fn redrawn(self) -> AppView {
        self.flagged(Flags { force_redraw: true, ..self.flags })
    }

    /// A change of the conversation.
    pub open spec fn conversation_seen(self, seed: Seq<char>, d: ConversationDelta) -> AppView {
        match self.session_at(seed) {
            Some(i) => {
                let s = self.sessions[i];
                let v = self.put(i, conversed(s, d, self.flags.now));
                if d is TurnFinished || d is TurnInterrupted {
                    v.redrawn()
                } else {
                    v
                }
            },
            None => self,
        }
    }

    /// The list of sessions is to be fetched again.
    pub open spec fn list_dropped(self) -> AppView {
        self.flagged(Flags { list_at: None, ..self.flags })
    }

    /// A change of what is known about a session.
    pub open spec fn meta_seen(self, seed: Seq<char>, d: MetaDelta) -> AppView {
        match d {
            MetaDelta::TitleChanged { title } => self.put_seed(
                seed,
                |s: SessionView| SessionView { title: Some(title@), ..s },
            ).list_dropped(),
            MetaDelta::Deleted => {
                let v = self.closed(seed);
                (if self.tabs.contains(seed) {
                    v.noticed(NoticeLevel::Info, "会话 "@ + seed + " 已删除"@)
                } else {
                    v
                }).list_dropped()
            },
            MetaDelta::Other => self,
        }
    }

    /// An event of a session.
    pub open spec fn event_seen(
        self,
        seed: Seq<char>,
        causation: Option<Seq<char>>,
        p: V2Payload,
    ) -> AppView {
        match p {
            V2Payload::ControlDelta(d) => self.control_seen(seed, causation, d),
            V2Payload::ConversationDelta(d) => self.conversation_seen(seed, d),
            V2Payload::MetaDelta(d) => self.meta_seen(seed, d),
            V2Payload::Other => self,
        }
    }

    /// A step of a timeline.
    pub open spec fn timeline_stepped(self, seed: Seq<char>, step: TimelineStep) -> AppView {
        let v = match step.tool {
            Some(t) => self.asking(
                EffectView::DiscoverSubagent { seed, tool_call_id: t.0@, tool_name: t.1@ },
            ),
            None => self,
        };
        match v.session_at(seed) {
            Some(i) => {
                let w = v.put(i, stepped(v.sessions[i], step));
                let x = if step.turn_sealed {
                    w.redrawn()
                } else {
                    w
                };
                if step.tool is Some && starts_with((step.tool->0).1@, "todo"@) {
                    x.dashboard_asked(seed)
                } else {
                    x
                }
            },
            None => v,
        }
    }

    /// A session's timeline as a whole.
    pub open spec fn rebaselined(self, seed: Seq<char>, timeline: TimelineModel) -> AppView {
        match self.session_at(seed) {
            Some(i) => self.put(i, loaded(self.sessions[i], timeline)).asking(
                EffectView::RescanSubagents(seed),
            ),
            None => self,
        }
    }

    /// News from the daemon.
    pub open spec fn runtime_seen(self, m: RuntimeMsg) -> AppView {
        match m {
            RuntimeMsg::Conn(ev) => self.conn_seen(ev),
            RuntimeMsg::V2Event { seed, causation_id, payload } => self.event_seen(
                seed@,
                opt_text(causation_id),
                payload,
            ),
            RuntimeMsg::V2StreamOpen { seed } => self.asking(EffectView::Bootstrap(seed@)),
            RuntimeMsg::ResetRequired { seed } => self.asking(EffectView::Bootstrap(seed@)),
            RuntimeMsg::Timeline { seed, step } => self.timeline_stepped(seed@, step),
            RuntimeMsg::TimelineRebaseline { seed, timeline } => self.rebaselined(seed@, timeline),
            RuntimeMsg::TimelineLost { seed, reason } => self.timeline_lost(seed@, reason),
        }
    }
}

/// The session at `i` replaced by one that is well formed: so is the
/// application.
pub proof fn lemma_session_put(before: App, after: App, i: int, s: SessionView)
    requires
        before.wf(),
        0 <= i < before.sessions@.len(),
        after.sessions@.len() == before.sessions@.len(),
        after.sessions@[i]@ == s,
        session_ok(s),
        forall|j: int|
            0 <= j < before.sessions@.len() && j != i ==> #[trigger] after.sessions@[j]
                == before.sessions@[j],
        after.stream_issues == before.stream_issues,
        (AppView { sessions: before@.sessions, ..after@ }) == before@,
    ensures
        after@ == before@.put(i, s),
        after.wf(),
{
    assert(after@.sessions =~= before@.sessions.update(i, s));
    assert(after@ =~= before@.put(i, s));
    lemma_put_ok(before@, i, s);
}

impl App {
    fn show_conn(&mut self)
        requires
            old(self).wf(),
        ensures
            final(self).wf(),
            final(self)@ == old(self)@.conn_shown(),
    {
        let ghost v = self@;
        let error = self.conn_error.take();
        let (phase, error) = reconcile_conn(&self.conn_phase, &self.stream_issues, error);
        self.conn_phase = phase;
        self.conn_error = error;
        assert(self@ =~= v.conn_shown());
    }

    fn take_up(&mut self)
        requires
            old(self).wf(),
        ensures
            final(self).wf(),
            final(self)@ == old(self)@.taken_up(),
    {
        let ghost v = self@;
        let ghost tabs = Seq::new(v.tabs.len(), |i: int| EffectView::Resume(v.tabs[i]));
        let ghost subs = Seq::new(v.subagents.len(), |i: int| EffectView::Attach(v.subagents[i]));
        let n: usize = self.tabs.len();
        let mut i: usize = 0;
        assert(v.effects + tabs.take(0) =~= v.effects);
        while i < n
            invariant
                i <= n == self.tabs@.len() == v.tabs.len(),
                self.wf(),
                tabs == Seq::new(v.tabs.len(), |i: int| EffectView::Resume(v.tabs[i])),
                self@ == (AppView { effects: v.effects + tabs.take(i as int), ..v }),
            decreases n - i,
        {
            assert(self@.tabs == v.tabs);
            assert(v.tabs[i as int] == self.tabs@[i as int]@);
            let seed = self.tabs[i].clone();
            self.emit(Effect::Resume(seed));
            i += 1;
            assert((v.effects + tabs.take(i - 1)).push(tabs[i - 1]) =~= v.effects + tabs.take(
                i as int,
            ));
        }
        assert(tabs.take(n as int) =~= tabs);
        let ghost mid = v.effects + tabs;
        let m: usize = self.subagent_seeds.len();
        let mut k: usize = 0;
        assert(mid + subs.take(0) =~= mid);
        while k < m
            invariant
                k <= m == self.subagent_seeds@.len() == v.subagents.len(),
                self.wf(),
                subs == Seq::new(v.subagents.len(), |i: int| EffectView::Attach(v.subagents[i])),
                self@ == (AppView { effects: mid + subs.take(k as int), ..v }),
            decreases m - k,
        {
            assert(self@.subagents == v.subagents);
            assert(v.subagents[k as int] == self.subagent_seeds@[k as int]@);
            let seed = self.subagent_seeds[k].clone();
            self.emit(Effect::Attach(seed));
            k += 1;
            assert((mid + subs.take(k - 1)).push(subs[k - 1]) =~= mid + subs.take(k as int));
        }
        assert(subs.take(m as int) =~= subs);
        assert(self@ =~= v.taken_up());
    }

    /// News of the connection.
    pub fn handle_conn(&mut self, ev: ConnEvent)
        requires
            old(self).wf(),
        ensures
            final(self).wf(),
            final(self)@ == old(self)@.conn_seen(ev),
    {
        match ev {
            ConnEvent::Opening => {
                self.see_phase(ConnPhase::Opening, None);
            },
            ConnEvent::Ready { epoch, epoch_changed } => {
                self.see_ready(epoch, epoch_changed);
            },
            ConnEvent::Lost(reason) => {
                self.see_phase(ConnPhase::Lost, Some(reason));
            },
            ConnEvent::StreamIssue { stream, error } => {
                self.see_issue(stream, error);
            },
            ConnEvent::StreamRecovered { stream } => {
                self.see_recovery(&stream);
            },
        }
    }

    /// Another phase, with a reason where there is one.
    fn see_phase(&mut self, phase: ConnPhase, reason: Option<String>)
        requires
            old(self).wf(),
        ensures
            final(self).wf(),
            final(self)@ == (AppView {
                conn: ConnView {
                    phase,
                    error: if reason is Some {
                        opt_text(reason)
                    } else {
                        old(self)@.conn.error
                    },
                    ..old(self)@.conn
                },
                ..old(self)@
            }),
    {
        let ghost v = self@;
        self.conn_phase = phase;
        if reason.is_some() {
            self.conn_error = reason;
        }
        assert(self@ =~= AppView {
            conn: ConnView { phase, error: self@.conn.error, ..v.conn },
            ..v
        });
    }

    fn see_ready(&mut self, epoch: String, epoch_changed: bool)
        requires
            old(self).wf(),
        ensures
            final(self).wf(),
            final(self)@ == old(self)@.conn_seen(ConnEvent::Ready { epoch, epoch_changed }),
    {
        let ghost v = self@;
        let ghost e = epoch@;
        self.conn_phase = ConnPhase::Ready;
        self.epoch = epoch;
        self.conn_error = None;
        self.stream_issues = StreamIssues::default();
        assert(self@.conn.issues =~= Seq::empty());
        assert(self@ =~= AppView {
            conn: ConnView {
                phase: ConnPhase::Ready,
                epoch: e,
                error: None,
                issues: Seq::empty(),
            },
            ..v
        });
        self.take_up();
        if epoch_changed {
            self.toast(NoticeLevel::Warn, "daemon 重启：已重建连接并恢复会话".to_owned());
        }
    }

    fn see_issue(&mut self, stream: StreamKey, error: String)
        requires
            old(self).wf(),
        ensures
            final(self).wf(),
            final(self)@ == old(self)@.conn_seen(ConnEvent::StreamIssue { stream, error }),
    {
        let ghost v = self@;
        self.stream_issues.raise(stream, error);
        assert(self@ =~= AppView {
            conn: ConnView { issues: self@.conn.issues, ..v.conn },
            ..v
        });
        self.show_conn();
    }

    fn see_recovery(&mut self, stream: &StreamKey)
        requires
            old(self).wf(),
        ensures
            final(self).wf(),
            final(self)@ == old(self)@.conn_seen(ConnEvent::StreamRecovered { stream: *stream }),
    {
        let ghost v = self@;
        self.stream_issues.clear(stream);
        assert(self@ =~= AppView {
            conn: ConnView { issues: self@.conn.issues, ..v.conn },
            ..v
        });
        self.show_conn();
    }

    /// Asks for a new connection, while the present one is lost.
    pub fn request_reconnect(&mut self)
        requires
            old(self).wf(),
        ensures
            final(self).wf(),
            final(self)@ == old(self)@.reconnect_asked(),
    {
        if self.conn_phase != ConnPhase::Lost {
            self.toast(NoticeLevel::Info, "连接正常，无需重连".to_owned());
            return;
        }
        self.toast(NoticeLevel::Info, "正在重连 daemon…".to_owned());
        self.emit(Effect::Reconnect);
    }

    /// A timeline stream ended.
    pub fn handle_timeline_lost(&mut self, seed: &str, reason: &TimelineLostReason)
        requires
            old(self).wf(),
        ensures
            final(self).wf(),
            final(self)@ == old(self)@.timeline_lost(seed@, *reason),
    {
        let known = holds(&self.subagent_seeds, seed);
        match timeline_lost_effect(known, reason) {
            TimelineLostEffect::CloseSubagent => {
                self.mark_subagent_closed(seed);
            },
            TimelineLostEffect::Notice => {
                let why = match reason {
                    TimelineLostReason::SessionMissing => "会话不存在".to_owned(),
                    TimelineLostReason::Other(s) => s.clone(),
                };
                let note = cat4("timeline 断开[", seed, "]: ", why.as_str());
                self.toast(NoticeLevel::Error, note);
            },
        }
    }

    /// Whether a dialog about an interaction is open.
    fn has_pending_interaction(&self, seed: &str, id: &str) -> (r: bool)
        ensures
            r == self@.has_pending(seed@, id@),
    {
        match self.find_session(seed) {
            Some(i) => {
                assert(self@.sessions[i as int] == self.sessions@[i as int]@);
                let ask = match &self.sessions[i].pending_ask {
                    Some(p) => str_eq(p.interaction_id.as_str(), id),
                    None => false,
                };
                let plan = match &self.sessions[i].pending_plan {
                    Some(p) => str_eq(p.interaction_id.as_str(), id),
                    None => false,
                };
                ask || plan
            },
            None => false,
        }
    }

    fn open_ask(&mut self, seed: &str, id: &str, mode: AskMode, questions: Vec<AskQuestion>)
        requires
            old(self).wf(),
        ensures
            final(self).wf(),
            final(self)@ == old(self)@.put_seed(
                seed@,
                |s: SessionView|
                    SessionView {
                        ask: Some(fresh_ask(id@, Seq::empty(), mode, questions@)),
                        scroll: Scroll { follow: true, ..s.scroll },
                        ..s
                    },
            ),
    {
        let ghost before = *self;
        if let Some(i) = self.find_session(seed) {
            let ghost s0 = self@.sessions[i as int];
            assert(s0 == self.sessions@[i as int]@);
            assert(session_ok(s0));
            let turn = String::new();
            assert(turn@ =~= Seq::empty());
            let panel = AskPanel::new(id.to_owned(), turn, mode, questions);
            self.sessions[i].pending_ask = Some(panel);
            self.sessions[i].scroll.follow = true;
            proof {
                let s = SessionView {
                    ask: Some(fresh_ask(id@, Seq::empty(), mode, questions@)),
                    scroll: Scroll { follow: true, ..s0.scroll },
                    ..s0
                };
                assert(self.sessions@[i as int]@ =~= s);
                lemma_session_put(before, *self, i as int, s);
            }
        }
    }

    fn open_plan(&mut self, seed: &str, panel: PlanPanel)
        requires
            old(self).wf(),
        ensures
            final(self).wf(),
            final(self)@ == old(self)@.put_seed(
                seed@,
                |s: SessionView| SessionView { plan: Some(panel@), ..s },
            ),
    {
        let ghost before = *self;
        let ghost p = panel@;
        if let Some(i) = self.find_session(seed) {
            let ghost s0 = self@.sessions[i as int];
            assert(s0 == self.sessions@[i as int]@);
            assert(session_ok(s0));
            self.sessions[i].pending_plan = Some(panel);
            proof {
                let s = SessionView { plan: Some(p), ..s0 };
                assert(self.sessions@[i as int]@ =~= s);
                lemma_session_put(before, *self, i as int, s);
            }
        }
    }

    /// Shows the text of an interaction, already read as JSON, as a dialog.
    pub fn show_interaction(
        &mut self,
        seed: &str,
        interaction_id: &str,
        doc: &JsonDoc,
        body: InteractionBody,
    )
        requires
            old(self).wf(),
        ensures
            final(self).wf(),
            final(self)@ == old(self)@.body_shown(seed@, interaction_id@, doc@, body),
    {
        let ghost v = self@;
        if holds(&self.suppressed_interactions, interaction_id) {
            return;
        }
        let kind = match member_text(doc, "kind") {
            Some(k) => k,
            None => {
                return;
            },
        };
        if str_eq(kind.as_str(), "ask") {
            let mode = match body.mode {
                Some(m) => m,
                None => AskMode::Single,
            };
            let questions = match body.questions {
                Some(q) => q,
                None => {
                    let none: Vec<AskQuestion> = Vec::new();
                    assert(none@ =~= Seq::empty());
                    none
                },
            };
            self.open_ask(seed, interaction_id, mode, questions);
        } else if str_eq(kind.as_str(), "plan") {
            proof {
                reveal_strlit("ask");
                reveal_strlit("plan");
                assert("ask"@.len() != "plan"@.len());
            }
            let content = match member_text(doc, "plan_content") {
                Some(s) => s,
                None => String::new(),
            };
            let kind_of = match member_text(doc, "review_type") {
                Some(s) => s,
                None => "plan".to_owned(),
            };
            let items = match body.todo_items {
                Some(q) => q,
                None => Vec::new(),
            };
            let panel = PlanPanel {
                interaction_id: interaction_id.to_owned(),
                turn_id: String::new(),
                plan_content: content,
                review_type: kind_of,
                todo_items: items,
                message: String::new(),
                entering_message: false,
                scroll: 0,
            };
            proof {
                assert(panel@ =~= PlanView {
                    interaction_id: interaction_id@,
                    turn_id: Seq::empty(),
                    plan_content: or_text(member(doc@, "plan_content"@), Seq::empty()),
                    review_type: or_text(member(doc@, "review_type"@), "plan"@),
                    todo_items: match body.todo_items {
                        Some(v) => texts(v@),
                        None => Seq::empty(),
                    },
                    message: Seq::empty(),
                    entering: false,
                    scroll: 0,
                });
            }
            self.open_plan(seed, panel);
        }
    }

    /// Shows the text of an interaction as a dialog.
    pub fn apply_interaction_body(
        &mut self,
        seed: &str,
        interaction_id: &str,
        body: InteractionBody,
    )
        requires
            old(self).wf(),
        ensures
            final(self).wf(),
            final(self)@ == old(self)@.body_shown(
                seed@,
                interaction_id@,
                json_doc(body.text@),
                body,
            ),
    {
        let doc = parse_json(body.text.as_str());
        self.show_interaction(seed, interaction_id, &doc, body);
    }

    fn see_content(&mut self, seed: &str, interaction_id: &str, c: ContentValue)
        requires
            old(self).wf(),
        ensures
            final(self).wf(),
            final(self)@ == old(self)@.content_seen(seed@, interaction_id@, c),
    {
        match c {
            ContentValue::Inline(body) => {
                self.apply_interaction_body(seed, interaction_id, body);
            },
            ContentValue::Ref(content_id) => {
                self.emit(
                    Effect::DownloadBody {
                        seed: seed.to_owned(),
                        interaction_id: interaction_id.to_owned(),
                        content_id,
                    },
                );
            },
            ContentValue::Unavailable => {},
        }
    }

    fn queue_permission_from_timeline(&mut self, seed: &str, call_id: &str)
        requires
            old(self).wf(),
        ensures
            final(self).wf(),
            final(self)@ == old(self)@.put_seed(
                seed@,
                |s: SessionView| with_permission(s, permission_for(s.timeline, call_id@)),
            ),
    {
        let ghost before = *self;
        if let Some(i) = self.find_session(seed) {
            let ghost s0 = self@.sessions[i as int];
            assert(s0 == self.sessions@[i as int]@);
            assert(session_ok(s0));
            let panel = self.sessions[i].permission_panel_for(call_id);
            self.sessions[i].queue_permission(panel);
            proof {
                lemma_session_put(
                    before,
                    *self,
                    i as int,
                    with_permission(s0, permission_for(s0.timeline, call_id@)),
                );
            }
        }
    }

    fn restore_permission(&mut self, seed: &str, call_id: &str)
        requires
            old(self).wf(),
        ensures
            final(self).wf(),
            final(self)@ == old(self)@.put_seed(
                seed@,
                |s: SessionView| with_snapshot_permission(s, permission_for(s.timeline, call_id@)),
            ),
    {
        let ghost before = *self;
        if let Some(i) = self.find_session(seed) {
            let ghost s0 = self@.sessions[i as int];
            assert(s0 == self.sessions@[i as int]@);
            assert(session_ok(s0));
            let panel = self.sessions[i].permission_panel_for(call_id);
            self.sessions[i].restore_permission_from_snapshot(panel);
            proof {
                lemma_session_put(
                    before,
                    *self,
                    i as int,
                    with_snapshot_permission(s0, permission_for(s0.timeline, call_id@)),
                );
            }
        }
    }

    /// An interaction waits for an answer.
    pub fn request_interaction(
        &mut self,
        seed: &str,
        interaction_id: &str,
        call_id: Option<String>,
        kind: InteractionKind,
        request: ContentValue,
    )
        requires
            old(self).wf(),
        ensures
            final(self).wf(),
            final(self)@ == old(self)@.interaction_requested(
                seed@,
                interaction_id@,
                opt_text(call_id),
                kind,
                request,
            ),
    {
        match kind {
            InteractionKind::Permission => {
                if let Some(c) = call_id {
                    self.queue_permission_from_timeline(seed, c.as_str());
                }
            },
            _ => {
                self.see_content(seed, interaction_id, request);
            },
        }
    }

    /// A snapshot holds an interaction that waits for an answer.
    pub fn restore_pending_interaction(&mut self, seed: &str, p: PendingInteraction)
        requires
            old(self).wf(),
        ensures
            final(self).wf(),
            final(self)@ == old(self)@.interaction_restored(seed@, p),
    {
        let calls: usize = p.call_id.as_str().unicode_len();
        if holds(&self.suppressed_interactions, p.interaction_id.as_str()) || (calls > 0 && holds(
            &self.suppressed_interactions,
            p.call_id.as_str(),
        )) {
            return;
        }
        match p.kind {
            InteractionKind::Permission => {
                if calls > 0 {
                    self.restore_permission(seed, p.call_id.as_str());
                }
            },
            _ => {
                if !self.has_pending_interaction(seed, p.interaction_id.as_str()) {
                    self.see_content(seed, p.interaction_id.as_str(), p.request);
                }
            },
        }
    }

    /// Closes the dialogs about an interaction.
    pub fn clear_interaction(&mut self, seed: &str, interaction_id: &str)
        requires
            old(self).wf(),
        ensures
            final(self).wf(),
            final(self)@ == old(self)@.interaction_cleared(seed@, interaction_id@),
    {
        let ghost before = *self;
        if let Some(i) = self.find_session(seed) {
            let ghost s0 = self@.sessions[i as int];
            assert(s0 == self.sessions@[i as int]@);
            assert(session_ok(s0));
            self.sessions[i].clear_dialogs(interaction_id);
            proof {
                lemma_session_put(before, *self, i as int, undialogued(s0, interaction_id@));
            }
        }
    }
}

} // verus!
