//! Events of sessions and steps of timelines, handled.

use crate::app::{activity_view, creates_view, App, AppView};
use crate::app_events::{
    activity_from, activity_put, creates_without, has_child, is_creating, lemma_session_put,
    seed_bound, seeds_bound,
};
use crate::app_tabs::{set_states, states_set};
use crate::message::{
    ControlDelta, ConversationDelta, Effect, MetaDelta, NoticeLevel, RuntimeMsg, TimelineStep,
    V2Payload,
};
use crate::session::{
    conversed, holds, session_ok, settled, subagents_view, synced, turn_over, ActivityState,
    Scroll, SessionState, SessionView, SubagentEntry, SubagentState,
};
use crate::text::{cat2, cat3, has_prefix, opt_text, str_eq, texts};
use crate::timeline::TimelineModel;
use vstd::prelude::*;

verus! {

fn bind_seeds(entries: &mut Vec<SubagentEntry>, call: &str, child: &str)
    ensures
        subagents_view(final(entries)@) == seeds_bound(
            subagents_view(old(entries)@),
            call@,
            child@,
        ),
{
    let ghost v = subagents_view(entries@);
    let n: usize = entries.len();
    let mut i: usize = 0;
    while i < n
        invariant
            i <= n == entries@.len() == v.len(),
            forall|j: int| 0 <= j < i ==> (#[trigger] entries@[j])@ == seed_bound(v[j], call@, child@),
            forall|j: int| i <= j < n ==> (#[trigger] entries@[j])@ == v[j],
        decreases n - i,
    {
        assert(entries@[i as int]@ == v[i as int]);
        if str_eq(entries[i].tool_call_id.as_str(), call) {
            entries[i].seed = Some(child.to_owned());
            assert(entries@[i as int]@ =~= seed_bound(v[i as int], call@, child@));
        }
        i += 1;
    }
    assert(subagents_view(entries@) =~= seeds_bound(v, call@, child@));
}

/// A session after a step of its timeline.
pub open spec fn stepped(s: SessionView, step: TimelineStep) -> SessionView {
    let t = SessionView { timeline: step.timeline@, ..s };
    synced(
        match step.terminal {
            Some(id) => turn_over(t, id@),
            None => t,
        },
    )
}

/// A session with its timeline as a whole.
pub open spec fn loaded(s: SessionView, timeline: TimelineModel) -> SessionView {
    let t = synced(
        SessionView {
            compact: None,
            needs_rebaseline: false,
            timeline: timeline@,
            ready: true,
            ..s
        },
    );
    SessionView {
        scroll: if !s.ready || s.scroll.follow {
            Scroll { follow: true, offset: 0 }
        } else {
            s.scroll
        },
        block_cache: None,
        ..t
    }
}

fn step_session(
    sess: &mut SessionState,
    timeline: TimelineModel,
    terminal: &Option<String>,
    Ghost(step): Ghost<TimelineStep>,
)
    requires
        step.timeline == timeline,
        step.terminal == *terminal,
    ensures
        final(sess)@ == stepped(old(sess)@, step),
{
    let ghost v = sess@;
    sess.timeline = timeline;
    assert(sess@ =~= SessionView { timeline: step.timeline@, ..v });
    if let Some(id) = terminal {
        sess.streaming_done(id.as_str());
    }
    sess.sync_streaming_from_timeline();
}

fn load_session(sess: &mut SessionState, timeline: TimelineModel)
    ensures
        final(sess)@ == loaded(old(sess)@, timeline),
{
    let ghost v = sess@;
    let first = !sess.ready;
    let follow = sess.scroll.follow;
    sess.compact = None;
    sess.needs_rebaseline = false;
    sess.timeline = timeline;
    sess.ready = true;
    assert(sess@ =~= SessionView {
        compact: None,
        needs_rebaseline: false,
        timeline: timeline@,
        ready: true,
        ..v
    });
    sess.sync_streaming_from_timeline();
    let ghost w = sess@;
    if first || follow {
        sess.scroll = Scroll { follow: true, offset: 0 };
    }
    sess.block_cache = None;
    assert(sess@ =~= loaded(v, timeline));
}

impl App {
    /// Forgets a command that makes a session; the result says whether it was
    /// one.
    pub fn take_create(&mut self, id: &str) -> (found: bool)
        requires
            old(self).wf(),
        ensures
            final(self).wf(),
            found == is_creating(old(self)@.creates, id@),
            final(self)@ == (AppView {
                creates: creates_without(old(self)@.creates, id@),
                ..old(self)@
            }),
    {
        let ghost v = self@;
        let ghost all = v.creates;
        let mut kept: Vec<(String, u64)> = Vec::new();
        let mut found = false;
        let n: usize = self.pending_creates.len();
        let mut i: usize = 0;
        assert(all.take(0) =~= Seq::empty());
        assert(creates_view(kept@) =~= Seq::empty());
        while i < n
            invariant
                i <= n == self.pending_creates@.len(),
                all == creates_view(self.pending_creates@),
                creates_view(kept@) == creates_without(all.take(i as int), id@),
                found == exists|j: int| 0 <= j < i && (#[trigger] all[j]).0 == id@,
            decreases n - i,
        {
            let ghost before = kept@;
            assert(all[i as int] == (
                self.pending_creates@[i as int].0@,
                self.pending_creates@[i as int].1,
            ));
            assert(all.take(i + 1).drop_last() =~= all.take(i as int));
            assert(all.take(i + 1).last() == all[i as int]);
            if str_eq(self.pending_creates[i].0.as_str(), id) {
                found = true;
            } else {
                let at = self.pending_creates[i].1;
                kept.push((self.pending_creates[i].0.clone(), at));
                assert(creates_view(kept@) =~= creates_view(before).push(all[i as int]));
            }
            i += 1;
        }
        assert(all.take(n as int) =~= all);
        self.pending_creates = kept;
        assert(self@ =~= AppView { creates: creates_without(all, id@), ..v });
        found
    }

    /// Opens a session that was made here.
    pub fn adopt_session(&mut self, seed: &str)
        requires
            old(self).wf(),
        ensures
            final(self).wf(),
            final(self)@ == old(self)@.session_made(seed@),
    {
        self.open_session_tab(seed);
        self.transfer_pending_initial_prompt();
        let note = cat2("新会话已创建 ", seed);
        self.toast(NoticeLevel::Info, note);
    }

    fn see_created(&mut self, seed: &str, causation: Option<String>)
        requires
            old(self).wf(),
        ensures
            final(self).wf(),
            final(self)@ == old(self)@.control_seen(
                seed@,
                opt_text(causation),
                ControlDelta::SessionCreated,
            ),
    {
        let ghost v = self@;
        if let Some(id) = causation {
            if self.is_pending_create(id.as_str()) {
                self.take_create(id.as_str());
                self.adopt_session(seed);
            }
        }
    }

    fn is_pending_create(&self, id: &str) -> (r: bool)
        ensures
            r == is_creating(self@.creates, id@),
    {
        let n: usize = self.pending_creates.len();
        let mut i: usize = 0;
        while i < n
            invariant
                i <= n == self.pending_creates@.len(),
                forall|j: int| 0 <= j < i ==> (#[trigger] self@.creates[j]).0 != id@,
            decreases n - i,
        {
            if str_eq(self.pending_creates[i].0.as_str(), id) {
                assert(self@.creates[i as int].0 == id@);
                return true;
            }
            i += 1;
        }
        false
    }

    /// Notes what a session is doing.
    pub fn note_activity(&mut self, seed: &str, st: ActivityState)
        requires
            old(self).wf(),
        ensures
            final(self).wf(),
            final(self)@ == (AppView {
                activity: activity_put(old(self)@.activity, seed@, st),
                ..old(self)@
            }),
    {
        let ghost v = self@;
        let n: usize = self.activity_cache.len();
        let mut k: usize = 0;
        while k < n && !str_eq(self.activity_cache[k].0.as_str(), seed)
            invariant
                k <= n == self.activity_cache@.len(),
                self@ == v,
                activity_from(v.activity, seed@, 0) == activity_from(v.activity, seed@, k as int),
            decreases n - k,
        {
            assert(v.activity[k as int] == (
                self.activity_cache@[k as int].0@,
                self.activity_cache@[k as int].1,
            ));
            k += 1;
        }
        if k < n {
            assert(v.activity[k as int].0 == seed@) by {
                assert(v.activity[k as int] == (
                    self.activity_cache@[k as int].0@,
                    self.activity_cache@[k as int].1,
                ));
            }
            self.activity_cache.set(k, (seed.to_owned(), st));
        } else {
            self.activity_cache.push((seed.to_owned(), st));
        }
        assert(activity_view(self.activity_cache@) =~= activity_put(v.activity, seed@, st));
        assert(self@ =~= AppView { activity: activity_put(v.activity, seed@, st), ..v });
    }

    fn see_activity(&mut self, seed: &str, st: ActivityState)
        requires
            old(self).wf(),
        ensures
            final(self).wf(),
            final(self)@ == old(self)@.activity_seen(seed@, st),
    {
        let open = holds(&self.tabs, seed);
        self.note_activity(seed, st);
        self.set_activity(seed, st);
        if st == ActivityState::WaitingUser && !open {
            let note = cat3("会话 ", seed, " 等待输入");
            self.toast(NoticeLevel::Warn, note);
        }
    }

    fn set_activity(&mut self, seed: &str, st: ActivityState)
        requires
            old(self).wf(),
        ensures
            final(self).wf(),
            final(self)@ == old(self)@.put_seed(
                seed@,
                |s: SessionView| SessionView { activity: Some(st), ..s },
            ),
    {
        let ghost before = *self;
        if let Some(i) = self.find_session(seed) {
            let ghost s0 = self@.sessions[i as int];
            assert(s0 == self.sessions@[i as int]@);
            assert(session_ok(s0));
            self.sessions[i].activity = Some(st);
            proof {
                let s = SessionView { activity: Some(st), ..s0 };
                assert(self.sessions@[i as int]@ =~= s);
                lemma_session_put(before, *self, i as int, s);
            }
        }
    }

    fn settle_call(&mut self, seed: &str, call_id: &str)
        requires
            old(self).wf(),
        ensures
            final(self).wf(),
            final(self)@ == old(self)@.put_seed(seed@, |s: SessionView| settled(s, call_id@)),
    {
        let ghost before = *self;
        if let Some(i) = self.find_session(seed) {
            let ghost s0 = self@.sessions[i as int];
            assert(s0 == self.sessions@[i as int]@);
            assert(session_ok(s0));
            self.sessions[i].resolve_permission(call_id);
            proof {
                lemma_session_put(before, *self, i as int, settled(s0, call_id@));
            }
        }
    }

    fn bind_subagent(&mut self, seed: &str, call: &str, child: &str)
        requires
            old(self).wf(),
        ensures
            final(self).wf(),
            final(self)@ == old(self)@.put_seed(
                seed@,
                |s: SessionView|
                    SessionView { subagents: seeds_bound(s.subagents, call@, child@), ..s },
            ),
    {
        let ghost before = *self;
        if let Some(i) = self.find_session(seed) {
            let ghost s0 = self@.sessions[i as int];
            assert(s0 == self.sessions@[i as int]@);
            assert(session_ok(s0));
            bind_seeds(&mut self.sessions[i].subagents, call, child);
            proof {
                let s = SessionView { subagents: seeds_bound(s0.subagents, call@, child@), ..s0 };
                assert(self.sessions@[i as int]@ =~= s);
                lemma_session_put(before, *self, i as int, s);
            }
        }
    }

    fn finish_subagent(&mut self, seed: &str, child: &str, st: SubagentState)
        requires
            old(self).wf(),
        ensures
            final(self).wf(),
            final(self)@ == old(self)@.subagent_finished(seed@, child@, st),
    {
        let ghost before = *self;
        let i = match self.find_session(seed) {
            Some(i) => i,
            None => {
                return;
            },
        };
        let ghost s0 = self@.sessions[i as int];
        assert(s0 == self.sessions@[i as int]@);
        assert(session_ok(s0));
        let mut gone: Vec<String> = Vec::new();
        gone.push(child.to_owned());
        assert(texts(gone@) =~= seq![child@]);
        let any = set_states(&mut self.sessions[i].subagents, &gone, st);
        proof {
            let s = SessionView { subagents: states_set(s0.subagents, seq![child@], st), ..s0 };
            assert(self.sessions@[i as int]@ =~= s);
            lemma_session_put(before, *self, i as int, s);
            assert(any == has_child(s0.subagents, child@));
        }
        if any {
            self.untrack_subagent(child);
        }
    }

    /// A change of the control state of a session.
    pub fn handle_control_delta(
        &mut self,
        seed: &str,
        causation_id: Option<String>,
        delta: ControlDelta,
    )
        requires
            old(self).wf(),
        ensures
            final(self).wf(),
            final(self)@ == old(self)@.control_seen(seed@, opt_text(causation_id), delta),
    {
        match delta {
            ControlDelta::SessionCreated => {
                self.see_created(seed, causation_id);
            },
            ControlDelta::Activity(st) => {
                self.see_activity(seed, st);
            },
            ControlDelta::InteractionRequested { interaction_id, call_id, kind, request } => {
                self.request_interaction(seed, interaction_id.as_str(), call_id, kind, request);
            },
            ControlDelta::InteractionResolved { interaction_id } => {
                self.clear_interaction(seed, interaction_id.as_str());
            },
            ControlDelta::InteractionExpired { interaction_id } => {
                self.clear_interaction(seed, interaction_id.as_str());
            },
            ControlDelta::ToolFinished { call_id } => {
                self.settle_call(seed, call_id.as_str());
            },
            ControlDelta::SubagentSpawned { child_session_id, parent_call_id } => {
                self.bind_subagent(seed, parent_call_id.as_str(), child_session_id.as_str());
            },
            ControlDelta::SubagentFinished { child_session_id, status } => {
                self.finish_subagent(seed, child_session_id.as_str(), status);
            },
            ControlDelta::Other => {},
        }
    }

    fn redraw(&mut self)
        requires
            old(self).wf(),
        ensures
            final(self).wf(),
            final(self)@ == old(self)@.redrawn(),
    {
        let ghost v = self@;
        self.force_redraw = true;
        assert(self@ =~= v.redrawn());
    }

    /// A change of the conversation of a session.
    pub fn handle_conversation_delta(&mut self, seed: &str, delta: ConversationDelta)
        requires
            old(self).wf(),
        ensures
            final(self).wf(),
            final(self)@ == old(self)@.conversation_seen(seed@, delta),
    {
        let ghost before = *self;
        let i = match self.find_session(seed) {
            Some(i) => i,
            None => {
                return;
            },
        };
        let ghost s0 = self@.sessions[i as int];
        assert(s0 == self.sessions@[i as int]@);
        assert(session_ok(s0));
        let over = match &delta {
            ConversationDelta::TurnFinished { .. } => true,
            ConversationDelta::TurnInterrupted { .. } => true,
            _ => false,
        };
        let now = self.now;
        self.sessions[i].converse(delta, now);
        proof {
            lemma_session_put(before, *self, i as int, conversed(s0, delta, now));
        }
        if over {
            self.redraw();
        }
    }

    fn drop_list(&mut self)
        requires
            old(self).wf(),
        ensures
            final(self).wf(),
            final(self)@ == old(self)@.list_dropped(),
    {
        let ghost v = self@;
        self.session_list_at = None;
        assert(self@ =~= v.list_dropped());
    }

    fn set_title(&mut self, seed: &str, title: String)
        requires
            old(self).wf(),
        ensures
            final(self).wf(),
            final(self)@ == old(self)@.put_seed(
                seed@,
                |s: SessionView| SessionView { title: Some(title@), ..s },
            ),
    {
        let ghost before = *self;
        let ghost t = title@;
        if let Some(i) = self.find_session(seed) {
            let ghost s0 = self@.sessions[i as int];
            assert(s0 == self.sessions@[i as int]@);
            assert(session_ok(s0));
            self.sessions[i].title = Some(title);
            proof {
                let s = SessionView { title: Some(t), ..s0 };
                assert(self.sessions@[i as int]@ =~= s);
                lemma_session_put(before, *self, i as int, s);
            }
        }
    }

    /// A change of what is known about a session.
    pub fn handle_meta_delta(&mut self, seed: &str, delta: MetaDelta)
        requires
            old(self).wf(),
        ensures
            final(self).wf(),
            final(self)@ == old(self)@.meta_seen(seed@, delta),
    {
        match delta {
            MetaDelta::TitleChanged { title } => {
                self.set_title(seed, title);
                self.drop_list();
            },
            MetaDelta::Deleted => {
                let was_tab = holds(&self.tabs, seed);
                self.close_tab_by_seed(seed);
                if was_tab {
                    let note = cat3("会话 ", seed, " 已删除");
                    self.toast(NoticeLevel::Info, note);
                }
                self.drop_list();
            },
            MetaDelta::Other => {},
        }
    }

    /// An event of a session.
    pub fn handle_v2_event(&mut self, seed: &str, causation_id: Option<String>, payload: V2Payload)
        requires
            old(self).wf(),
        ensures
            final(self).wf(),
            final(self)@ == old(self)@.event_seen(seed@, opt_text(causation_id), payload),
    {
        match payload {
            V2Payload::ControlDelta(d) => {
                self.handle_control_delta(seed, causation_id, d);
            },
            V2Payload::ConversationDelta(d) => {
                self.handle_conversation_delta(seed, d);
            },
            V2Payload::MetaDelta(d) => {
                self.handle_meta_delta(seed, d);
            },
            V2Payload::Other => {},
        }
    }

    fn step_timeline(&mut self, seed: &str, step: TimelineStep)
        requires
            old(self).wf(),
        ensures
            final(self).wf(),
            final(self)@ == old(self)@.timeline_stepped(seed@, step),
    {
        let ghost whole = step;
        let todo = match &step.tool {
            Some(t) => {
                self.emit(
                    Effect::DiscoverSubagent {
                        seed: seed.to_owned(),
                        tool_call_id: t.0.clone(),
                        tool_name: t.1.clone(),
                    },
                );
                has_prefix(t.1.as_str(), "todo")
            },
            None => false,
        };
        let ghost before = *self;
        let i = match self.find_session(seed) {
            Some(i) => i,
            None => {
                return;
            },
        };
        let ghost s0 = self@.sessions[i as int];
        assert(s0 == self.sessions@[i as int]@);
        assert(session_ok(s0));
        let TimelineStep { timeline, tool, turn_sealed, terminal } = step;
        step_session(&mut self.sessions[i], timeline, &terminal, Ghost(whole));
        proof {
            lemma_session_put(before, *self, i as int, stepped(s0, whole));
        }
        if turn_sealed {
            self.redraw();
        }
        if todo {
            self.fetch_dashboard(seed);
        }
    }

    fn load_timeline(&mut self, seed: &str, timeline: TimelineModel)
        requires
            old(self).wf(),
        ensures
            final(self).wf(),
            final(self)@ == old(self)@.rebaselined(seed@, timeline),
    {
        let ghost before = *self;
        let i = match self.find_session(seed) {
            Some(i) => i,
            None => {
                return;
            },
        };
        let ghost s0 = self@.sessions[i as int];
        assert(s0 == self.sessions@[i as int]@);
        assert(session_ok(s0));
        load_session(&mut self.sessions[i], timeline);
        proof {
            lemma_session_put(before, *self, i as int, loaded(s0, timeline));
        }
        self.emit(Effect::RescanSubagents(seed.to_owned()));
    }

    /// News from the daemon.
    pub fn handle_runtime(&mut self, msg: RuntimeMsg)
        requires
            old(self).wf(),
        ensures
            final(self).wf(),
            final(self)@ == old(self)@.runtime_seen(msg),
    {
        match msg {
            RuntimeMsg::Conn(ev) => {
                self.handle_conn(ev);
            },
            RuntimeMsg::V2Event { seed, causation_id, payload } => {
                self.handle_v2_event(seed.as_str(), causation_id, payload);
            },
            RuntimeMsg::V2StreamOpen { seed } => {
                self.emit(Effect::Bootstrap(seed));
            },
            RuntimeMsg::ResetRequired { seed } => {
                self.emit(Effect::Bootstrap(seed));
            },
            RuntimeMsg::Timeline { seed, step } => {
                self.step_timeline(seed.as_str(), step);
            },
            RuntimeMsg::TimelineRebaseline { seed, timeline } => {
                self.load_timeline(seed.as_str(), timeline);
            },
            RuntimeMsg::TimelineLost { seed, reason } => {
                self.handle_timeline_lost(seed.as_str(), &reason);
            },
        }
    }
}

/// Trouble with a stream, or its end, leaves a lost connection and the reason
/// shown for it as they are.
pub proof fn law_lost_stays_lost(v: AppView, ev: crate::message::ConnEvent)
    requires
        v.conn.phase is Lost,
        ev is StreamIssue || ev is StreamRecovered,
    ensures
        v.conn_seen(ev).conn.phase is Lost,
        v.conn_seen(ev).conn.error == v.conn.error,
{
}

/// A new connection has no stream in trouble.
pub proof fn law_new_connection_is_clean(v: AppView, epoch: String, epoch_changed: bool)
    ensures
        ({
            let w = v.conn_seen(crate::message::ConnEvent::Ready { epoch, epoch_changed });
            w.conn.phase is Ready && w.conn.issues.len() == 0 && w.conn.error is None
        }),
{
}

} // verus!
