//! Sessions do not mix: what concerns one leaves the others alone.

use crate::app::{lemma_index, AppView};
use crate::app_actions::{bootstrapped, with_older};
use crate::app_events::seeds_bound;
use crate::composer::ContentRef;
use crate::json::{json_doc, JsonDocView};
use crate::message::{
    ActionResult, ContentValue, ControlDelta, ConversationDelta, InteractionBody,
    InteractionKind, MetaDelta, PendingInteraction, RuntimeMsg, SessionBootstrap, V2Payload,
};
use crate::session::{
    settled, undialogued, ActivityState, Dashboard, Scroll, SessionView, SubagentState,
};
use crate::text::opt_text;
use vstd::prelude::*;

verus! {

/// No session but those with the seed changed.
pub open spec fn only_session(v: AppView, w: AppView, seed: Seq<char>) -> bool {
    v.sessions.len() == w.sessions.len() && forall|i: int|
        0 <= i < v.sessions.len() && v.sessions[i].seed != seed ==> #[trigger] w.sessions[i]
            == v.sessions[i]
}

proof fn lemma_put_seed(v: AppView, seed: Seq<char>, f: spec_fn(SessionView) -> SessionView)
    ensures
        only_session(v, v.put_seed(seed, f), seed),
{
    lemma_index(v.sessions, seed, 0);
}

proof fn lemma_interaction(
    v: AppView,
    seed: Seq<char>,
    id: Seq<char>,
    call_id: Option<Seq<char>>,
    kind: InteractionKind,
    request: ContentValue,
)
    ensures
        only_session(v, v.interaction_requested(seed, id, call_id, kind, request), seed),
{
    lemma_index(v.sessions, seed, 0);
}

proof fn lemma_subagent_finished(
    v: AppView,
    seed: Seq<char>,
    child: Seq<char>,
    st: SubagentState,
)
    ensures
        only_session(v, v.subagent_finished(seed, child, st), seed),
{
    lemma_index(v.sessions, seed, 0);
}

proof fn lemma_activity(v: AppView, seed: Seq<char>, st: ActivityState)
    ensures
        only_session(v, v.activity_seen(seed, st), seed),
{
    lemma_index(v.sessions, seed, 0);
}

#[verifier::spinoff_prover]
proof fn lemma_control(v: AppView, seed: Seq<char>, causation: Option<Seq<char>>, d: ControlDelta)
    requires
        d !is SessionCreated,
    ensures
        only_session(v, v.control_seen(seed, causation, d), seed),
{
    match d {
        ControlDelta::SessionCreated => {},
        ControlDelta::Activity(st) => lemma_activity(v, seed, st),
        ControlDelta::InteractionRequested { interaction_id, call_id, kind, request } => {
            lemma_interaction(
                v,
                seed,
                interaction_id@,
                opt_text(call_id),
                kind,
                request,
            )
        },
        ControlDelta::InteractionResolved { interaction_id } => {
            lemma_put_seed(
                v,
                seed,
                |s: SessionView| undialogued(s, interaction_id@),
            )
        },
        ControlDelta::InteractionExpired { interaction_id } => {
            lemma_put_seed(
                v,
                seed,
                |s: SessionView| undialogued(s, interaction_id@),
            )
        },
        ControlDelta::ToolFinished { call_id } => {
            lemma_put_seed(v, seed, |s: SessionView| settled(s, call_id@))
        },
        ControlDelta::SubagentSpawned { child_session_id, parent_call_id } => {
            lemma_put_seed(
                v,
                seed,
                |s: SessionView|
                    SessionView {
                        subagents: seeds_bound(
                            s.subagents,
                            parent_call_id@,
                            child_session_id@,
                        ),
                        ..s
                    },
            )
        },
        ControlDelta::SubagentFinished { child_session_id, status } => {
            lemma_subagent_finished(v, seed, child_session_id@, status)
        },
        ControlDelta::Other => {},
    }
}

proof fn lemma_conversation(v: AppView, seed: Seq<char>, d: ConversationDelta)
    ensures
        only_session(v, v.conversation_seen(seed, d), seed),
{
    lemma_index(v.sessions, seed, 0);
}

proof fn lemma_meta(v: AppView, seed: Seq<char>, d: MetaDelta)
    requires
        d !is Deleted,
    ensures
        only_session(v, v.meta_seen(seed, d), seed),
{
    lemma_index(v.sessions, seed, 0);
}

/// The payload neither makes nor deletes a session.
pub open spec fn within_session(p: V2Payload) -> bool {
    match p {
        V2Payload::ControlDelta(d) => d !is SessionCreated,
        V2Payload::MetaDelta(d) => d !is Deleted,
        _ => true,
    }
}

/// An event changes no session but its own, unless it makes or deletes one.
pub proof fn law_events_touch_their_session(
    v: AppView,
    seed: Seq<char>,
    causation: Option<Seq<char>>,
    p: V2Payload,
)
    requires
        within_session(p),
    ensures
        only_session(v, v.event_seen(seed, causation, p), seed),
{
    match p {
        V2Payload::ControlDelta(d) => lemma_control(v, seed, causation, d),
        V2Payload::ConversationDelta(d) => lemma_conversation(v, seed, d),
        V2Payload::MetaDelta(d) => lemma_meta(v, seed, d),
        V2Payload::Other => {},
    }
}

/// A step of a timeline, or a timeline loaded anew, changes no other session.
pub proof fn law_timelines_do_not_mix(v: AppView, m: RuntimeMsg, seed: Seq<char>)
    requires
        match m {
            RuntimeMsg::Timeline { seed: s, .. } => s@ == seed,
            RuntimeMsg::TimelineRebaseline { seed: s, .. } => s@ == seed,
            _ => false,
        },
    ensures
        only_session(v, v.runtime_seen(m), seed),
{
    lemma_index(v.sessions, seed, 0);
}

/// The session that a result is about.
pub open spec fn result_seed(a: ActionResult) -> Option<Seq<char>> {
    match a {
        ActionResult::Bootstrap { seed, .. } => Some(seed@),
        ActionResult::InteractionBody { seed, .. } => Some(seed@),
        ActionResult::Uploaded { seed, .. } => Some(seed@),
        ActionResult::Rebaseline { seed, .. } => Some(seed@),
        ActionResult::LoadOlder { seed, .. } => Some(seed@),
        ActionResult::Dashboard { seed, .. } => Some(seed@),
        _ => None,
    }
}

proof fn lemma_restored(v: AppView, seed: Seq<char>, p: PendingInteraction)
    ensures
        only_session(v, v.interaction_restored(seed, p), seed),
{
    lemma_index(v.sessions, seed, 0);
}

proof fn lemma_all_restored(v: AppView, seed: Seq<char>, ps: Seq<PendingInteraction>)
    ensures
        only_session(v, v.all_restored(seed, ps), seed),
    decreases ps.len(),
{
    if ps.len() > 0 {
        let w = v.all_restored(seed, ps.drop_last());
        lemma_all_restored(v, seed, ps.drop_last());
        lemma_restored(w, seed, ps.last());
    }
}

proof fn lemma_bootstrap(v: AppView, seed: Seq<char>, b: SessionBootstrap)
    ensures
        only_session(v, v.bootstrap_seen(seed, b), seed),
{
    lemma_index(v.sessions, seed, 0);
    if let Some(i) = v.session_at(seed) {
        let w = v.put(i, bootstrapped(v.sessions[i], b));
        lemma_all_restored(w, seed, b.interactions@);
    }
}

proof fn lemma_body(
    v: AppView,
    seed: Seq<char>,
    id: Seq<char>,
    doc: JsonDocView,
    body: InteractionBody,
)
    ensures
        only_session(v, v.body_shown(seed, id, doc, body), seed),
{
    lemma_index(v.sessions, seed, 0);
}

proof fn lemma_upload(v: AppView, seed: Seq<char>, path: Seq<char>, c: ContentRef)
    ensures
        only_session(v, v.uploaded(seed, path, c), seed),
{
    lemma_index(v.sessions, seed, 0);
}

proof fn lemma_dashboard(
    v: AppView,
    seed: Seq<char>,
    r: Result<Dashboard, String>,
)
    ensures
        only_session(v, v.dashboard_seen(seed, r), seed),
{
    lemma_index(v.sessions, seed, 0);
}

/// A result changes no session but the one it is about.
#[verifier::spinoff_prover]
pub proof fn law_results_touch_their_session(v: AppView, a: ActionResult, seed: Seq<char>)
    requires
        result_seed(a) == Some(seed),
    ensures
        only_session(v, v.action_seen(a), seed),
{
    match a {
        ActionResult::Bootstrap { result, .. } => {
            if let Ok(b) = result {
                lemma_bootstrap(v, seed, b);
            }
        },
        ActionResult::InteractionBody { interaction_id, result, .. } => {
            if let Ok(body) = result {
                lemma_body(v, seed, interaction_id@, json_doc(body.text@), body);
            }
        },
        ActionResult::Uploaded { path, result, .. } => {
            if let Ok(c) = result {
                lemma_upload(v, seed, path@, c);
            }
        },
        ActionResult::Rebaseline { result, .. } => {
            if let Ok(t) = result {
                lemma_put_seed(
                    v,
                    seed,
                    |s: SessionView|
                        SessionView {
                            timeline: t@,
                            scroll: Scroll { follow: true, offset: 0 },
                            block_cache: None,
                            ..s
                        },
                );
            }
        },
        ActionResult::LoadOlder { result, .. } => {
            lemma_put_seed(
                v,
                seed,
                |s: SessionView| with_older(s, result),
            );
        },
        ActionResult::Dashboard { result, .. } => {
            lemma_dashboard(v, seed, result);
        },
        _ => {},
    }
}

} // verus!
