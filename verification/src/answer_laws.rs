//! Interactions answered here: none of them comes back.

use crate::app::AppView;
use crate::app_actions::bootstrapped;
use crate::keymap::{global_key, GlobalKey, KeyEvent};
use crate::message::{ActionResult, MouseEvent, PendingInteraction, RuntimeMsg};
use crate::session::{settled, SessionView};
use vstd::prelude::*;

verus! {

/// An interaction noted as answered here does not come back with a snapshot,
/// whether the snapshot gives its id or its call.
pub proof fn law_noted_stays_answered(v: AppView, seed: Seq<char>, p: PendingInteraction)
    requires
        v.suppressed.contains(p.interaction_id@) || (p.call_id@.len() > 0 && v.suppressed.contains(
            p.call_id@,
        )),
    ensures
        v.interaction_restored(seed, p) == v,
{
}

/// A question that was answered does not come back with a snapshot.
pub proof fn law_answered_question_stays_answered(
    v: AppView,
    i: int,
    seed: Seq<char>,
    p: PendingInteraction,
)
    requires
        v.active_at() == Some(i),
        v.sessions[i].ask matches Some(a) && a.interaction_id == p.interaction_id@
            && a.missing_from(0) is None,
    ensures
        v.ask_submitted().interaction_restored(seed, p) == v.ask_submitted(),
{
    lemma_answered(v.put_ask(i, None), p.interaction_id@);
}

/// A question that was skipped does not come back with a snapshot.
pub proof fn law_skipped_question_stays_answered(
    v: AppView,
    i: int,
    seed: Seq<char>,
    p: PendingInteraction,
)
    requires
        v.active_at() == Some(i),
        v.sessions[i].ask matches Some(a) && a.interaction_id == p.interaction_id@,
    ensures
        v.ask_dismissed().interaction_restored(seed, p) == v.ask_dismissed(),
{
    lemma_answered(v.put_ask(i, None), p.interaction_id@);
}

/// A plan that was approved or rejected does not come back with a snapshot.
pub proof fn law_answered_plan_stays_answered(
    v: AppView,
    i: int,
    approved: bool,
    autonomous: bool,
    seed: Seq<char>,
    p: PendingInteraction,
)
    requires
        v.active_at() == Some(i),
        v.sessions[i].plan matches Some(l) && l.interaction_id == p.interaction_id@,
    ensures
        ({
            let w = v.plan_answered(approved, autonomous);
            w.interaction_restored(seed, p) == w
        }),
{
    lemma_answered(
        v.put(i, SessionView { plan: None, ..v.sessions[i] }),
        p.interaction_id@,
    );
}

/// A permission that was given or refused does not come back with a snapshot.
pub proof fn law_answered_permission_stays_answered(
    v: AppView,
    i: int,
    approved: bool,
    seed: Seq<char>,
    p: PendingInteraction,
)
    requires
        v.active_at() == Some(i),
        v.sessions[i].permissions.len() > 0,
        p.kind is Permission,
        p.call_id@ == v.sessions[i].permissions[0].tool_call_id,
    ensures
        ({
            let w = v.permission_answered(approved);
            w.interaction_restored(seed, p) == w
        }),
{
    lemma_answered(v.put(i, settled(v.sessions[i], p.call_id@)), p.call_id@);
}

proof fn lemma_answered(v: AppView, id: Seq<char>)
    ensures
        v.answered(id).suppressed.contains(id),
{
    if !v.suppressed.contains(id) {
        assert(v.answered(id).suppressed[v.suppressed.len() as int] == id);
    }
}

proof fn lemma_all_restored_notes(v: AppView, seed: Seq<char>, ps: Seq<PendingInteraction>)
    ensures
        v.all_restored(seed, ps).suppressed == v.suppressed,
    decreases ps.len(),
{
    if ps.len() > 0 {
        lemma_all_restored_notes(v, seed, ps.drop_last());
    }
}

/// No result makes the application forget an answer.
#[verifier::spinoff_prover]
#[verifier::rlimit(50)]
pub proof fn law_results_keep_answers(v: AppView, a: ActionResult)
    ensures
        v.action_seen(a).suppressed == v.suppressed,
{
    if let ActionResult::Bootstrap { seed, result: Ok(b) } = a {
        if let Some(i) = v.session_at(seed@) {
            lemma_all_restored_notes(
                v.put(i, bootstrapped(v.sessions[i], b)),
                seed@,
                b.interactions@,
            );
        }
    }
}

/// No event makes the application forget an answer.
#[verifier::spinoff_prover]
#[verifier::rlimit(50)]
pub proof fn law_events_keep_answers(v: AppView, m: RuntimeMsg)
    ensures
        v.runtime_seen(m).suppressed == v.suppressed,
{
}

proof fn lemma_answered_keeps(v: AppView, other: Seq<char>, id: Seq<char>)
    requires
        v.suppressed.contains(id),
    ensures
        v.answered(other).suppressed.contains(id),
{
    let k = choose|k: int| 0 <= k < v.suppressed.len() && v.suppressed[k] == id;
    if !v.suppressed.contains(other) {
        assert(v.answered(other).suppressed[k] == id);
    }
}

proof fn lemma_ask_notes(v: AppView, seed: Seq<char>, key: KeyEvent, id: Seq<char>)
    requires
        v.suppressed.contains(id),
    ensures
        v.ask_keyed(seed, key).suppressed.contains(id),
{
    assert forall|w: AppView, i: int, x: Seq<char>| w.suppressed == v.suppressed implies (
    #[trigger] w.put_ask(i, None).answered(x)).suppressed.contains(id) by {
        lemma_answered_keeps(w.put_ask(i, None), x, id);
    }
}

proof fn lemma_plan_notes(v: AppView, seed: Seq<char>, key: KeyEvent, id: Seq<char>)
    requires
        v.suppressed.contains(id),
    ensures
        v.plan_keyed(seed, key).suppressed.contains(id),
{
    assert forall|i: int, s: SessionView, x: Seq<char>| (#[trigger] v.put(i, s).answered(
        x,
    )).suppressed.contains(id) by {
        lemma_answered_keeps(v.put(i, s), x, id);
    }
}

proof fn lemma_permission_notes(v: AppView, seed: Seq<char>, key: KeyEvent, id: Seq<char>)
    requires
        v.suppressed.contains(id),
    ensures
        v.permission_keyed(seed, key).suppressed.contains(id),
{
    assert forall|i: int, s: SessionView, x: Seq<char>| (#[trigger] v.put(i, s).answered(
        x,
    )).suppressed.contains(id) by {
        lemma_answered_keeps(v.put(i, s), x, id);
    }
}

proof fn lemma_modal_notes(v: AppView, key: KeyEvent, id: Seq<char>)
    requires
        v.suppressed.contains(id),
    ensures
        v.modal_keyed(key).suppressed.contains(id),
{
    if let Some(seed) = v.active_seed() {
        lemma_ask_notes(v, seed, key, id);
        lemma_plan_notes(v, seed, key, id);
        lemma_permission_notes(v, seed, key, id);
    }
}

proof fn lemma_global_notes(v: AppView, g: GlobalKey)
    ensures
        v.global_pressed(g).suppressed == v.suppressed,
{
}

proof fn lemma_overlay_notes(v: AppView, key: KeyEvent)
    ensures
        v.overlay_keyed(key).suppressed == v.suppressed,
{
}

proof fn lemma_composer_notes(v: AppView, key: KeyEvent)
    ensures
        v.composer_keyed(key).suppressed == v.suppressed,
{
}

proof fn lemma_draft_notes(v: AppView, key: KeyEvent)
    ensures
        v.draft_keyed(key).suppressed == v.suppressed,
{
}

/// No key makes the application forget an answer.
#[verifier::spinoff_prover]
#[verifier::rlimit(50)]
pub proof fn law_keys_keep_answers(v: AppView, key: KeyEvent, id: Seq<char>)
    requires
        v.suppressed.contains(id),
    ensures
        v.dispatched(key).suppressed.contains(id),
{
    lemma_modal_notes(v, key, id);
    if let Some(g) = global_key(key) {
        lemma_global_notes(v, g);
    }
    lemma_overlay_notes(v, key);
    lemma_composer_notes(v, key);
    lemma_draft_notes(v, key);
}

/// No move of the mouse makes the application forget an answer.
#[verifier::spinoff_prover]
#[verifier::rlimit(50)]
pub proof fn law_mouse_keeps_answers(v: AppView, m: MouseEvent)
    ensures
        v.moused(m).suppressed == v.suppressed,
{
}

/// No pasted text makes the application forget an answer.
#[verifier::spinoff_prover]
#[verifier::rlimit(50)]
pub proof fn law_pasting_keeps_answers(v: AppView, text: Seq<char>)
    ensures
        v.pasted(text).suppressed == v.suppressed,
{
}

/// No passing of time makes the application forget an answer.
#[verifier::spinoff_prover]
#[verifier::rlimit(50)]
pub proof fn law_time_keeps_answers(v: AppView)
    ensures
        v.ticked().suppressed == v.suppressed,
{
}

} // verus!
