//! Keys in the dialogs that block a session, and the answers they give.

use crate::app::{App, AppView};
use crate::approval::{
    decide_plan, permission_decision, plan_applied, plan_decision, plan_message,
    PermissionDecision, PlanDecision,
};
use crate::ask::{ask_applied, ask_decision, send_refused, AskDecision, AskView};
use crate::keymap::{modal_route, route, KeyEvent, ModalRoute};
use crate::message::{Effect, EffectView};
use crate::session::{holds, session_ok, settled, trust_toggled, SessionView};
use crate::text::texts;
use vstd::prelude::*;

verus! {

/// Replacing a session by a well formed one keeps the application well formed.
pub proof fn lemma_put_ok(v: AppView, i: int, s: SessionView)
    requires
        v.ok(),
        session_ok(s),
        0 <= i < v.sessions.len(),
    ensures
        v.put(i, s).ok(),
{
    let w = v.put(i, s);
    assert forall|j: int| 0 <= j < w.sessions.len() implies session_ok(#[trigger] w.sessions[j]) by {
        if j != i {
            assert(w.sessions[j] == v.sessions[j]);
        }
    }
}

impl AppView {
    /// An interaction noted as answered here.
    pub open spec fn answered(self, id: Seq<char>) -> AppView {
        if self.suppressed.contains(id) {
            self
        } else {
            AppView { suppressed: self.suppressed.push(id), ..self }
        }
    }

    /// The question dialog of a session replaced.
    pub open spec fn put_ask(self, i: int, a: Option<AskView>) -> AppView {
        self.put(i, SessionView { ask: a, ..self.sessions[i] })
    }

    /// The answers of the session shown sent, or the first missing one
    /// pointed out.
    pub open spec fn ask_submitted(self) -> AppView {
        match self.active_at() {
            Some(i) => match self.sessions[i].ask {
                Some(a) => match a.missing_from(0) {
                    Some(q) => self.put_ask(i, Some(send_refused(a, q))),
                    None => self.put_ask(i, None).answered(a.interaction_id).asking(
                        EffectView::AskRespond {
                            seed: self.sessions[i].seed,
                            interaction_id: a.interaction_id,
                            answers: a.answers(),
                        },
                    ),
                },
                None => self,
            },
            None => self,
        }
    }

    /// The question dialog of the session shown left without an answer.
    pub open spec fn ask_dismissed(self) -> AppView {
        match self.active_at() {
            Some(i) => match self.sessions[i].ask {
                Some(a) => self.put_ask(i, None).answered(a.interaction_id).asking(
                    EffectView::AskDismiss {
                        seed: self.sessions[i].seed,
                        interaction_id: a.interaction_id,
                    },
                ),
                None => self,
            },
            None => self,
        }
    }

    /// A key in the question dialog of a session.
    pub open spec fn ask_keyed(self, seed: Seq<char>, key: KeyEvent) -> AppView {
        match self.session_at(seed) {
            Some(i) => match self.sessions[i].ask {
                Some(a) => {
                    let d = ask_decision(a, key);
                    let (next, submit) = ask_applied(a, d);
                    let v = self.put_ask(i, Some(next));
                    if d is Dismiss {
                        v.ask_dismissed()
                    } else if submit {
                        v.ask_submitted()
                    } else {
                        v
                    }
                },
                None => self,
            },
            None => self,
        }
    }

    /// The plan of the session shown approved or rejected.
    pub open spec fn plan_answered(self, approved: bool, autonomous: bool) -> AppView {
        match self.active_at() {
            Some(i) => match self.sessions[i].plan {
                Some(p) => self.put(i, SessionView { plan: None, ..self.sessions[i] }).answered(
                    p.interaction_id,
                ).asking(
                    EffectView::PlanRespond {
                        seed: self.sessions[i].seed,
                        interaction_id: p.interaction_id,
                        approved,
                        message: plan_message(p, approved),
                        autonomous,
                    },
                ),
                None => self,
            },
            None => self,
        }
    }

    /// A key in the plan dialog of a session.
    pub open spec fn plan_keyed(self, seed: Seq<char>, key: KeyEvent) -> AppView {
        match self.session_at(seed) {
            Some(i) => {
                let s = self.sessions[i];
                let d = plan_decision(s.plan is Some && s.plan->0.entering, key);
                match d {
                    PlanDecision::Approve => self.plan_answered(true, false),
                    PlanDecision::ApproveAuto => self.plan_answered(true, true),
                    PlanDecision::SubmitReject => self.plan_answered(false, false),
                    _ => match s.plan {
                        Some(p) => self.put(
                            i,
                            SessionView { plan: Some(plan_applied(p, d)), ..s },
                        ),
                        None => self,
                    },
                }
            },
            None => self,
        }
    }

    /// The permission dialog of the session shown answered.
    pub open spec fn permission_answered(self, approved: bool) -> AppView {
        match self.active_at() {
            Some(i) => if self.sessions[i].permissions.len() > 0 {
                let p = self.sessions[i].permissions[0];
                self.put(i, settled(self.sessions[i], p.tool_call_id)).answered(
                    p.tool_call_id,
                ).asking(
                    EffectView::PermissionRespond {
                        seed: self.sessions[i].seed,
                        tool_call_id: p.tool_call_id,
                        approved,
                        trust_folder: p.trust_folder,
                    },
                )
            } else {
                self
            },
            None => self,
        }
    }

    /// A key in the permission dialog of a session.
    pub open spec fn permission_keyed(self, seed: Seq<char>, key: KeyEvent) -> AppView {
        match self.session_at(seed) {
            Some(i) => if self.sessions[i].permissions.len() > 0 {
                let s = self.sessions[i];
                let p = s.permissions[0];
                match permission_decision(p, key.code) {
                    PermissionDecision::Approve => self.permission_answered(true),
                    PermissionDecision::Deny => self.permission_answered(false),
                    PermissionDecision::ToggleTrust => self.put(i, trust_toggled(s)),
                    PermissionDecision::Ignore => self,
                }
            } else {
                self
            },
            None => self,
        }
    }

    /// Which dialog of the session shown gets the keys.
    pub open spec fn modal(self) -> Option<ModalRoute> {
        match self.active_at() {
            Some(i) => route(
                self.sessions[i].permissions.len() > 0,
                self.sessions[i].ask is Some,
                self.sessions[i].plan is Some,
            ),
            None => None,
        }
    }

    /// A key for the dialog of the session shown.
    pub open spec fn modal_keyed(self, key: KeyEvent) -> AppView {
        match self.modal() {
            Some(ModalRoute::Permission) => self.permission_keyed(self.active_seed()->0, key),
            Some(ModalRoute::Ask) => self.ask_keyed(self.active_seed()->0, key),
            Some(ModalRoute::Plan) => self.plan_keyed(self.active_seed()->0, key),
            None => self,
        }
    }
}

impl App {
    /// Notes that an interaction was answered here.
    fn suppress(&mut self, id: &str)
        requires
            old(self).wf(),
        ensures
            final(self).wf(),
            final(self)@ == old(self)@.answered(id@),
    {
        if !holds(&self.suppressed_interactions, id) {
            let ghost v = self@;
            self.suppressed_interactions.push(id.to_owned());
            assert(texts(self.suppressed_interactions@) =~= v.suppressed.push(id@));
            assert(self@ =~= v.answered(id@));
        }
    }

    /// Takes the question dialog of a session away.
    fn drop_ask(&mut self, i: usize)
        requires
            old(self).wf(),
            i < old(self).sessions@.len(),
        ensures
            final(self).wf(),
            final(self)@ == old(self)@.put_ask(i as int, None),
    {
        let ghost v = self@;
        self.sessions[i].pending_ask = None;
        proof {
            let s = SessionView { ask: None, ..v.sessions[i as int] };
            assert(v.sessions[i as int] == old(self).sessions@[i as int]@);
            assert(session_ok(v.sessions[i as int]));
            assert(self.sessions@[i as int]@ =~= s);
            assert(self@.sessions =~= v.sessions.update(i as int, s));
            assert(self@ =~= v.put(i as int, s));
            lemma_put_ok(v, i as int, s);
        }
    }

    /// Sends the answers of the session shown, or points out the first
    /// missing one.
    #[verifier::spinoff_prover]
    #[verifier::rlimit(50)]
    pub fn submit_ask(&mut self)
        requires
            old(self).wf(),
        ensures
            final(self).wf(),
            final(self)@ == old(self)@.ask_submitted(),
    {
        let ghost v = self@;
        let i = match self.active_index() {
            Some(i) => i,
            None => {
                return;
            },
        };
        let ghost s0 = v.sessions[i as int];
        assert(s0 == self.sessions@[i as int]@);
        assert(session_ok(s0));
        let seed = self.sessions[i].seed.clone();
        if self.sessions[i].pending_ask.is_none() {
            return;
        }
        let (id, answers) = match &mut self.sessions[i].pending_ask {
            Some(p) => {
                let id = p.interaction_id.clone();
                (id, p.collect_answers())
            },
            None => (String::new(), None),
        };
        match answers {
            Some(answers) => {
                proof {
                    assert(self.sessions@[i as int]@ =~= s0);
                    assert(self@.sessions =~= v.sessions);
                    assert(self@ =~= v);
                }
                self.drop_ask(i);
                self.suppress(id.as_str());
                self.emit(Effect::AskRespond { seed, interaction_id: id, answers });
            },
            None => {
                proof {
                    let s = SessionView {
                        ask: Some(send_refused(s0.ask->0, s0.ask->0.missing_from(0)->0)),
                        ..s0
                    };
                    assert(self.sessions@[i as int]@ =~= s);
                    assert(self@.sessions =~= v.sessions.update(i as int, s));
                    assert(self@ =~= v.put(i as int, s));
                    lemma_put_ok(v, i as int, s);
                }
            },
        }
    }

    /// Leaves the question dialog of the session shown without an answer.
    pub fn dismiss_ask(&mut self)
        requires
            old(self).wf(),
        ensures
            final(self).wf(),
            final(self)@ == old(self)@.ask_dismissed(),
    {
        let i = match self.active_index() {
            Some(i) => i,
            None => {
                return;
            },
        };
        assert(self@.sessions[i as int] == self.sessions@[i as int]@);
        let seed = self.sessions[i].seed.clone();
        let id = match &self.sessions[i].pending_ask {
            Some(p) => p.interaction_id.clone(),
            None => {
                return;
            },
        };
        self.drop_ask(i);
        self.suppress(id.as_str());
        self.emit(Effect::AskDismiss { seed, interaction_id: id });
    }

    /// A key in the question dialog of a session. The dialog takes every key.
    pub fn ask_key(&mut self, seed: &str, key: KeyEvent) -> (consumed: bool)
        requires
            old(self).wf(),
        ensures
            final(self).wf(),
            final(self)@ == old(self)@.ask_keyed(seed@, key),
            consumed,
    {
        let ghost v = self@;
        let i = match self.find_session(seed) {
            Some(i) => i,
            None => {
                return true;
            },
        };
        let ghost s0 = v.sessions[i as int];
        assert(s0 == self.sessions@[i as int]@);
        assert(session_ok(s0));
        if self.sessions[i].pending_ask.is_none() {
            return true;
        }
        let (d, submit) = match &mut self.sessions[i].pending_ask {
            Some(p) => {
                let d = p.decide(key);
                let submit = p.apply(d);
                (d, submit)
            },
            None => (AskDecision::Ignore, false),
        };
        proof {
            let s = SessionView { ask: Some(ask_applied(s0.ask->0, d).0), ..s0 };
            assert(self.sessions@[i as int]@ =~= s);
            assert(self@.sessions =~= v.sessions.update(i as int, s));
            assert(self@ =~= v.put(i as int, s));
            lemma_put_ok(v, i as int, s);
        }
        if d == AskDecision::Dismiss {
            self.dismiss_ask();
        } else if submit {
            self.submit_ask();
        }
        true
    }

    /// Approves or rejects the plan of the session shown.
    pub fn respond_plan(&mut self, approved: bool, autonomous: bool)
        requires
            old(self).wf(),
        ensures
            final(self).wf(),
            final(self)@ == old(self)@.plan_answered(approved, autonomous),
    {
        let ghost v = self@;
        let i = match self.active_index() {
            Some(i) => i,
            None => {
                return;
            },
        };
        let ghost s0 = v.sessions[i as int];
        assert(s0 == self.sessions@[i as int]@);
        assert(session_ok(s0));
        let seed = self.sessions[i].seed.clone();
        let (id, message) = match &self.sessions[i].pending_plan {
            Some(p) => (p.interaction_id.clone(), p.answer_message(approved)),
            None => {
                return;
            },
        };
        self.sessions[i].pending_plan = None;
        proof {
            let s = SessionView { plan: None, ..s0 };
            assert(self.sessions@[i as int]@ =~= s);
            assert(self@.sessions =~= v.sessions.update(i as int, s));
            assert(self@ =~= v.put(i as int, s));
            lemma_put_ok(v, i as int, s);
        }
        self.suppress(id.as_str());
        self.emit(Effect::PlanRespond { seed, interaction_id: id, approved, message, autonomous });
    }

    /// Changes the plan dialog of a session, if there is one.
    fn edit_plan(&mut self, i: usize, d: PlanDecision)
        requires
            old(self).wf(),
            i < old(self).sessions@.len(),
        ensures
            final(self).wf(),
            final(self)@ == match old(self)@.sessions[i as int].plan {
                Some(p) => old(self)@.put(
                    i as int,
                    SessionView { plan: Some(plan_applied(p, d)), ..old(self)@.sessions[i as int] },
                ),
                None => old(self)@,
            },
    {
        let ghost v = self@;
        let ghost s0 = v.sessions[i as int];
        assert(s0 == self.sessions@[i as int]@);
        assert(session_ok(s0));
        if self.sessions[i].pending_plan.is_none() {
            return;
        }
        match &mut self.sessions[i].pending_plan {
            Some(p) => {
                p.apply(d);
            },
            None => {},
        }
        proof {
            let s = SessionView { plan: Some(plan_applied(s0.plan->0, d)), ..s0 };
            assert(self.sessions@[i as int]@ =~= s);
            assert(self@.sessions =~= v.sessions.update(i as int, s));
            assert(self@ =~= v.put(i as int, s));
            lemma_put_ok(v, i as int, s);
        }
    }

    /// A key in the plan dialog of a session. The dialog takes every key.
    pub fn plan_key(&mut self, seed: &str, key: KeyEvent) -> (consumed: bool)
        requires
            old(self).wf(),
        ensures
            final(self).wf(),
            final(self)@ == old(self)@.plan_keyed(seed@, key),
            consumed,
    {
        let i = match self.find_session(seed) {
            Some(i) => i,
            None => {
                return true;
            },
        };
        assert(self@.sessions[i as int] == self.sessions@[i as int]@);
        let entering = match &self.sessions[i].pending_plan {
            Some(p) => p.entering_message,
            None => false,
        };
        let d = decide_plan(entering, key);
        match d {
            PlanDecision::Approve => {
                self.respond_plan(true, false);
            },
            PlanDecision::ApproveAuto => {
                self.respond_plan(true, true);
            },
            PlanDecision::SubmitReject => {
                self.respond_plan(false, false);
            },
            _ => {
                self.edit_plan(i, d);
            },
        }
        true
    }

    /// Answers the permission dialog of the session shown.
    pub fn respond_permission(&mut self, approved: bool)
        requires
            old(self).wf(),
        ensures
            final(self).wf(),
            final(self)@ == old(self)@.permission_answered(approved),
    {
        let ghost v = self@;
        let i = match self.active_index() {
            Some(i) => i,
            None => {
                return;
            },
        };
        let ghost s0 = v.sessions[i as int];
        assert(s0 == self.sessions@[i as int]@);
        assert(session_ok(s0));
        let seed = self.sessions[i].seed.clone();
        let (id, trust) = match self.sessions[i].active_permission() {
            Some(p) => (p.tool_call_id.clone(), p.trust_folder),
            None => {
                return;
            },
        };
        self.sessions[i].resolve_permission(id.as_str());
        proof {
            let s = settled(s0, id@);
            assert(self@.sessions =~= v.sessions.update(i as int, s));
            assert(self@ =~= v.put(i as int, s));
            lemma_put_ok(v, i as int, s);
        }
        self.suppress(id.as_str());
        self.emit(
            Effect::PermissionRespond { seed, tool_call_id: id, approved, trust_folder: trust },
        );
    }

    fn trust(&mut self, i: usize)
        requires
            old(self).wf(),
            i < old(self).sessions@.len(),
            old(self)@.sessions[i as int].permissions.len() > 0,
        ensures
            final(self).wf(),
            final(self)@ == old(self)@.put(i as int, trust_toggled(old(self)@.sessions[i as int])),
    {
        let ghost v = self@;
        let ghost s0 = v.sessions[i as int];
        assert(s0 == self.sessions@[i as int]@);
        assert(session_ok(s0));
        self.sessions[i].toggle_trust();
        proof {
            let s = trust_toggled(s0);
            assert(self@.sessions =~= v.sessions.update(i as int, s));
            assert(self@ =~= v.put(i as int, s));
            lemma_put_ok(v, i as int, s);
        }
    }

    /// A key in the permission dialog of a session. The dialog takes every
    /// key.
    pub fn permission_key(&mut self, seed: &str, key: KeyEvent) -> (consumed: bool)
        requires
            old(self).wf(),
        ensures
            final(self).wf(),
            final(self)@ == old(self)@.permission_keyed(seed@, key),
            consumed,
    {
        let i = match self.find_session(seed) {
            Some(i) => i,
            None => {
                return true;
            },
        };
        assert(self@.sessions[i as int] == self.sessions@[i as int]@);
        let d = match self.sessions[i].active_permission() {
            Some(p) => p.decide(key.code),
            None => {
                return true;
            },
        };
        match d {
            PermissionDecision::Approve => {
                self.respond_permission(true);
            },
            PermissionDecision::Deny => {
                self.respond_permission(false);
            },
            PermissionDecision::ToggleTrust => {
                self.trust(i);
            },
            PermissionDecision::Ignore => {},
        }
        true
    }

    /// A key for the dialog of the session shown, if there is one; the result
    /// says whether there was.
    pub fn modal_key(&mut self, key: KeyEvent) -> (consumed: bool)
        requires
            old(self).wf(),
        ensures
            final(self).wf(),
            final(self)@ == old(self)@.modal_keyed(key),
            consumed == (old(self)@.modal() is Some),
    {
        let i = match self.active_index() {
            Some(i) => i,
            None => {
                return false;
            },
        };
        assert(self@.sessions[i as int] == self.sessions@[i as int]@);
        let seed = self.sessions[i].seed.clone();
        let shown = modal_route(
            self.sessions[i].active_permission().is_some(),
            self.sessions[i].pending_ask.is_some(),
            self.sessions[i].pending_plan.is_some(),
        );
        match shown {
            Some(ModalRoute::Permission) => self.permission_key(seed.as_str(), key),
            Some(ModalRoute::Ask) => self.ask_key(seed.as_str(), key),
            Some(ModalRoute::Plan) => self.plan_key(seed.as_str(), key),
            None => false,
        }
    }

    /// Whether a dialog blocks the session shown.
    pub fn blocked(&self) -> (r: bool)
        ensures
            r == (self@.modal() is Some),
    {
        match self.active_index() {
            Some(i) => {
                assert(self@.sessions[i as int] == self.sessions@[i as int]@);
                modal_route(
                    self.sessions[i].active_permission().is_some(),
                    self.sessions[i].pending_ask.is_some(),
                    self.sessions[i].pending_plan.is_some(),
                ).is_some()
            },
            None => false,
        }
    }
}

/// Answering the question dialog of the session shown takes it away exactly
/// when every question has an answer; an answer is then sent, and only then.
pub proof fn law_ask_is_sent_when_complete(v: AppView, i: int)
    requires
        v.active_at() == Some(i),
        0 <= i < v.sessions.len(),
        v.sessions[i].ask is Some,
    ensures
        ({
            let w = v.ask_submitted();
            let done = v.sessions[i].ask->0.missing_from(0) is None;
            &&& done == (w.sessions[i].ask is None)
            &&& done == (w.effects.len() == v.effects.len() + 1)
        }),
{
}

} // verus!
