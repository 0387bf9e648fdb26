//! What news from the daemon changes.

use crate::app::{index_from, AppView};
use crate::app_deltas::{loaded, stepped};
use crate::app_events::{activity_from, creates_without, described, has_child, is_creating};
use crate::app_tabs::texts_without;
use crate::approval::{PermissionRisk, PermissionView};
use crate::composer_laws::law_inserted_text_is_kept;
use crate::conn::{without, Alert, StreamId, TimelineLostReason};
use crate::json::{json_doc, JsonDocView, JsonFieldView};
use crate::message::{
    ConnEvent, ContentValue, ControlDelta, ConversationDelta, EffectView, InteractionBody,
    InteractionKind, MetaDelta, NoticeLevel, RuntimeMsg, TimelineStep, V2Payload,
};
use crate::session::{
    call_in_blocks, call_in_rounds, call_in_turns, fresh_session, permission_for, queued, risk_of,
    running_to, settled, unqueued, ActivityState, SessionView, StreamPhase, SubagentState,
    SubagentView,
};
use crate::tab_laws::{law_opening_shows_and_attaches, lemma_index};
use crate::text::occurs;
use crate::text_laws::law_finding_text;
use crate::timeline::{Block, Round, TimelineModel, TimelineTurnState, ToolCard, Turn};
use vstd::prelude::*;

verus! {

/// Session `i` is the one with a seed.
pub open spec fn is_session(v: AppView, seed: Seq<char>, i: int) -> bool {
    v.session_at(seed) == Some(i) && 0 <= i < v.sessions.len()
}

/// The news that the conversation of a session changed.
pub open spec fn talked(v: AppView, seed: Seq<char>, d: ConversationDelta) -> AppView {
    v.event_seen(seed, None, V2Payload::ConversationDelta(d))
}

/// The news that what is to be done about a session changed.
pub open spec fn controlled(
    v: AppView,
    seed: Seq<char>,
    causation: Option<Seq<char>>,
    d: ControlDelta,
) -> AppView {
    v.event_seen(seed, causation, V2Payload::ControlDelta(d))
}

/// A turn that starts is the one that streams, from now on, thinking; what
/// went wrong before is forgotten, and the transcript follows its end.
#[verifier::rlimit(50)]
pub proof fn law_started_turn_streams(v: AppView, seed: Seq<char>, i: int, turn_id: String)
    requires
        is_session(v, seed, i),
    ensures
        ({
            let s = v.sessions[i];
            let t = talked(v, seed, ConversationDelta::TurnStarted { turn_id }).sessions[i];
            &&& t.streaming is Some
            &&& t.streaming->0.turn_id == turn_id@
            &&& t.streaming->0.phase == StreamPhase::Thinking
            &&& t.streaming->0.armed_at == v.flags.now
            &&& t.streaming->0.tool_name is None
            &&& t.last_error is None
            &&& t.scroll.follow
            &&& t.timeline == s.timeline
            &&& t.composer == s.composer
            &&& t.permissions == s.permissions
        }),
{
}

/// A tool call is shown on the turn that streams, by its name.
#[verifier::rlimit(50)]
pub proof fn law_declared_call_is_shown(v: AppView, seed: Seq<char>, i: int, tool_name: String)
    requires
        is_session(v, seed, i),
        v.sessions[i].streaming is Some,
    ensures
        ({
            let s = v.sessions[i];
            let t = talked(v, seed, ConversationDelta::ToolCallDeclared { tool_name }).sessions[i];
            &&& t.streaming is Some
            &&& t.streaming->0.phase == StreamPhase::ToolCalling
            &&& t.streaming->0.tool_name == Some(tool_name@)
            &&& t.streaming->0.turn_id == s.streaming->0.turn_id
            &&& t.streaming->0.armed_at == s.streaming->0.armed_at
        }),
{
}

/// A turn that is over streams no more, whichever way it ended; another turn
/// is not stopped by it. What it used is kept.
#[verifier::rlimit(50)]
pub proof fn law_finished_turn_streams_no_more(
    v: AppView,
    seed: Seq<char>,
    i: int,
    d: ConversationDelta,
    turn_id: Seq<char>,
)
    requires
        is_session(v, seed, i),
        d matches ConversationDelta::TurnFinished { turn_id: id, usage } && id@ == turn_id || (
        d matches ConversationDelta::TurnInterrupted { turn_id: id } && id@ == turn_id),
    ensures
        ({
            let s = v.sessions[i];
            let w = talked(v, seed, d);
            let t = w.sessions[i];
            &&& (s.streaming matches Some(x) ==> (x.turn_id == turn_id ==> t.streaming is None))
            &&& (s.streaming matches Some(x) ==> (x.turn_id != turn_id ==> t.streaming
                == s.streaming))
            &&& s.streaming is None ==> t.streaming is None
            &&& w.flags.force_redraw
            &&& d matches ConversationDelta::TurnFinished { turn_id: id, usage } ==> t.usage == (
            if usage is Some {
                usage
            } else {
                s.usage
            })
            &&& t.timeline == s.timeline
            &&& t.permissions == s.permissions
        }),
{
}

/// A sealed answer tells which model wrote it and what it used.
#[verifier::rlimit(50)]
pub proof fn law_sealed_answer_names_its_model(
    v: AppView,
    seed: Seq<char>,
    i: int,
    d: ConversationDelta,
)
    requires
        is_session(v, seed, i),
    ensures
        d matches ConversationDelta::AssistantBlockSealed { model, usage } ==> {
            let t = talked(v, seed, d).sessions[i];
            &&& t.model == Some(model@)
            &&& usage is Some ==> t.usage == usage
            &&& usage is None ==> t.usage == v.sessions[i].usage
            &&& t.streaming == v.sessions[i].streaming
        },
        d is CompactionApplied ==> talked(v, seed, d).sessions[i].compact is None,
        d is InputAccepted ==> talked(v, seed, d).sessions[i] == v.sessions[i],
{
}

/// What a sequence holds, by its last element and the others.
pub proof fn lemma_held_last<T>(v: Seq<T>, x: T)
    requires
        v.len() > 0,
    ensures
        v.contains(x) <==> (v.drop_last().contains(x) || v.last() == x),
{
    let d = v.drop_last();
    if d.contains(x) {
        let k = choose|k: int| 0 <= k < d.len() && d[k] == x;
        assert(v[k] == x);
    }
    if v.last() == x {
        assert(v[v.len() - 1] == x);
    }
    if v.contains(x) {
        let k = choose|k: int| 0 <= k < v.len() && v[k] == x;
        if k < d.len() {
            assert(d[k] == x);
        }
    }
}

/// What a sequence holds with one more element.
pub proof fn lemma_held_more<T>(v: Seq<T>, y: T, x: T)
    ensures
        v.push(y).contains(x) <==> (v.contains(x) || x == y),
{
    lemma_held_last(v.push(y), x);
    assert(v.push(y).drop_last() =~= v);
}

proof fn lemma_unqueued(v: Seq<PermissionView>, id: Seq<char>, p: PermissionView)
    ensures
        unqueued(v, id).contains(p) <==> (v.contains(p) && p.tool_call_id != id),
    decreases v.len(),
{
    if v.len() > 0 {
        lemma_unqueued(v.drop_last(), id, p);
        lemma_held_last(v, p);
        lemma_held_more(unqueued(v.drop_last(), id), v.last(), p);
    }
}

/// A tool call that is done asks for nothing more: the dialogs about it are
/// gone, those about other calls stay, and it is remembered as settled.
#[verifier::rlimit(50)]
pub proof fn law_finished_call_asks_no_more(
    v: AppView,
    seed: Seq<char>,
    i: int,
    call_id: String,
    p: PermissionView,
)
    requires
        is_session(v, seed, i),
    ensures
        ({
            let s = v.sessions[i];
            let a = talked(v, seed, ConversationDelta::ToolFinished { call_id }).sessions[i];
            let b = controlled(v, seed, None, ControlDelta::ToolFinished { call_id }).sessions[i];
            &&& a == b
            &&& a.permissions.contains(p) <==> (s.permissions.contains(p) && p.tool_call_id
                != call_id@)
            &&& a.resolved.contains(call_id@)
            &&& forall|x: Seq<char>| s.resolved.contains(x) ==> #[trigger] a.resolved.contains(x)
            &&& a.ask == s.ask
            &&& a.plan == s.plan
        }),
{
    let s = v.sessions[i];
    let a = settled(s, call_id@);
    lemma_unqueued(s.permissions, call_id@, p);
    if !s.resolved.contains(call_id@) {
        assert(a.resolved.last() == call_id@);
    }
    assert forall|x: Seq<char>| s.resolved.contains(x) implies #[trigger] a.resolved.contains(
        x,
    ) by {
        let k = choose|k: int| 0 <= k < s.resolved.len() && s.resolved[k] == x;
        assert(a.resolved[k] == x);
    }
}

/// A call is one of these blocks.
pub open spec fn in_blocks(blocks: Seq<Block>, t: ToolCard) -> bool {
    exists|k: int| 0 <= k < blocks.len() && (#[trigger] blocks[k]).tool == Some(t)
}

/// A call is in the timeline.
pub open spec fn in_turns(turns: Seq<Turn>, t: ToolCard) -> bool {
    exists|a: int, b: int|
        0 <= a < turns.len() && 0 <= b < turns[a].rounds@.len() && in_blocks(
            (#[trigger] turns[a].rounds@[b]).blocks@,
            t,
        )
}

proof fn lemma_call_in_blocks(blocks: Seq<Block>, id: Seq<char>, k: int)
    requires
        0 <= k,
    ensures
        call_in_blocks(blocks, id, k) matches Some(t) ==> t.tool_call_id@ == id && in_blocks(
            blocks,
            t,
        ),
        (exists|j: int|
            k <= j < blocks.len() && (#[trigger] blocks[j]).tool is Some
                && blocks[j].tool->0.tool_call_id@ == id) ==> call_in_blocks(blocks, id, k) is Some,
    decreases blocks.len() - k,
{
    if k < blocks.len() {
        if blocks[k].tool is Some && blocks[k].tool->0.tool_call_id@ == id {
            assert(blocks[k].tool == Some(blocks[k].tool->0));
        } else {
            lemma_call_in_blocks(blocks, id, k + 1);
        }
    }
}

proof fn lemma_call_in_rounds(rounds: Seq<Round>, id: Seq<char>, k: int)
    requires
        0 <= k,
    ensures
        call_in_rounds(rounds, id, k) matches Some(t) ==> t.tool_call_id@ == id && exists|b: int|
            0 <= b < rounds.len() && in_blocks((#[trigger] rounds[b]).blocks@, t),
        (exists|b: int|
            k <= b < rounds.len() && call_in_blocks((#[trigger] rounds[b]).blocks@, id, 0) is Some)
            ==> call_in_rounds(rounds, id, k) is Some,
    decreases rounds.len() - k,
{
    if k < rounds.len() {
        lemma_call_in_blocks(rounds[k].blocks@, id, 0);
        if !(call_in_blocks(rounds[k].blocks@, id, 0) is Some) {
            lemma_call_in_rounds(rounds, id, k + 1);
        }
    }
}

proof fn lemma_call_in_turns(turns: Seq<Turn>, id: Seq<char>, k: int)
    requires
        0 <= k,
    ensures
        call_in_turns(turns, id, k) matches Some(t) ==> t.tool_call_id@ == id && in_turns(turns, t),
        (exists|a: int|
            k <= a < turns.len() && call_in_rounds((#[trigger] turns[a]).rounds@, id, 0) is Some)
            ==> call_in_turns(turns, id, k) is Some,
    decreases turns.len() - k,
{
    if k < turns.len() {
        lemma_call_in_rounds(turns[k].rounds@, id, 0);
        if call_in_rounds(turns[k].rounds@, id, 0) is Some {
            let t = call_in_rounds(turns[k].rounds@, id, 0)->0;
            let b = choose|b: int|
                0 <= b < turns[k].rounds@.len() && in_blocks(
                    (#[trigger] turns[k].rounds@[b]).blocks@,
                    t,
                );
            assert(in_blocks(turns[k].rounds@[b].blocks@, t));
        } else {
            lemma_call_in_turns(turns, id, k + 1);
        }
    }
}

/// Some call in the timeline has an id.
pub open spec fn known_call(turns: Seq<Turn>, id: Seq<char>) -> bool {
    exists|t: ToolCard| #[trigger] in_turns(turns, t) && t.tool_call_id@ == id
}

/// A permission that is asked for is asked of the user, once, unless its call
/// is settled. The dialog is about that call and named after it, and trusts
/// no folder by itself; a risk that is high in the timeline is high in the
/// dialog.
#[verifier::rlimit(50)]
pub proof fn law_requested_permission_is_asked(
    v: AppView,
    seed: Seq<char>,
    i: int,
    d: ControlDelta,
    id: Seq<char>,
)
    requires
        is_session(v, seed, i),
        d matches ControlDelta::InteractionRequested { interaction_id, call_id, kind, request }
            && kind == InteractionKind::Permission && call_id is Some && call_id->0@ == id,
    ensures
        ({
            let s = v.sessions[i];
            let t = controlled(v, seed, None, d).sessions[i];
            let asked = !s.resolved.contains(id) && !queued(s.permissions, id);
            &&& !asked ==> t == s
            &&& asked ==> {
                let p = t.permissions.last();
                &&& t.permissions == s.permissions.push(p)
                &&& p.tool_call_id == id
                &&& !p.trust_folder
                &&& known_call(s.timeline.turns, id) ==> exists|c: ToolCard| #[trigger]
                    in_turns(s.timeline.turns, c) && c.tool_call_id@ == id && p.tool_name == c.name@
                        && told_risk(p.risk, c)
                &&& !known_call(s.timeline.turns, id) ==> p.tool_name.len() == 0 && p.risk
                    == PermissionRisk::Low
            }
        }),
{
    let s = v.sessions[i];
    let turns = s.timeline.turns;
    lemma_call_in_turns(turns, id, 0);
    let p = permission_for(s.timeline, id);
    match call_in_turns(turns, id, 0) {
        Some(c) => {
            assert(in_turns(turns, c));
            lemma_risk(c);
        },
        None => {
            if known_call(turns, id) {
                let t = choose|t: ToolCard| #[trigger]
                    in_turns(turns, t) && t.tool_call_id@ == id;
                lemma_known(turns, t);
            }
        },
    }
}

proof fn lemma_known(turns: Seq<Turn>, t: ToolCard)
    requires
        in_turns(turns, t),
    ensures
        call_in_turns(turns, t.tool_call_id@, 0) is Some,
{
    let id = t.tool_call_id@;
    let (a, b) = choose|a: int, b: int|
        0 <= a < turns.len() && 0 <= b < turns[a].rounds@.len() && in_blocks(
            (#[trigger] turns[a].rounds@[b]).blocks@,
            t,
        );
    let rounds = turns[a].rounds@;
    let blocks = rounds[b].blocks@;
    let k = choose|k: int| 0 <= k < blocks.len() && (#[trigger] blocks[k]).tool == Some(t);
    assert(blocks[k].tool->0.tool_call_id@ == id);
    lemma_call_in_blocks(blocks, id, 0);
    lemma_call_in_rounds(rounds, id, 0);
    assert(call_in_blocks(rounds[b].blocks@, id, 0) is Some);
    lemma_call_in_turns(turns, id, 0);
    assert(call_in_rounds(turns[a].rounds@, id, 0) is Some);
}

/// The risk shown is the one the timeline tells of.
pub open spec fn told_risk(r: PermissionRisk, c: ToolCard) -> bool {
    &&& r == PermissionRisk::High <==> (c.permission is Some && c.permission->0.risk@ == seq![
        'h',
        'i',
        'g',
        'h',
    ])
    &&& r == PermissionRisk::Medium <==> (c.permission is Some && c.permission->0.risk@ == seq![
        'm',
        'e',
        'd',
        'i',
        'u',
        'm',
    ])
}

proof fn lemma_risk(c: ToolCard)
    ensures
        told_risk(risk_of(c), c),
{
    reveal_strlit("high");
    reveal_strlit("medium");
    assert("high"@ =~= seq!['h', 'i', 'g', 'h']);
    assert("medium"@ =~= seq!['m', 'e', 'd', 'i', 'u', 'm']);
    assert("high"@.len() == 4 && "medium"@.len() == 6);
}

/// An interaction that is over takes its dialog away, and no other one.
#[verifier::rlimit(50)]
pub proof fn law_resolved_interaction_is_closed(
    v: AppView,
    seed: Seq<char>,
    i: int,
    interaction_id: String,
)
    requires
        is_session(v, seed, i),
    ensures
        ({
            let s = v.sessions[i];
            let a = controlled(
                v,
                seed,
                None,
                ControlDelta::InteractionResolved { interaction_id },
            );
            let t = a.sessions[i];
            let id = interaction_id@;
            &&& a == controlled(v, seed, None, ControlDelta::InteractionExpired { interaction_id })
            &&& (s.ask matches Some(q) ==> (q.interaction_id == id ==> t.ask is None))
            &&& (s.ask matches Some(q) ==> (q.interaction_id != id ==> t.ask == s.ask))
            &&& (s.plan matches Some(q) ==> (q.interaction_id == id ==> t.plan is None))
            &&& (s.plan matches Some(q) ==> (q.interaction_id != id ==> t.plan == s.plan))
            &&& t.permissions == s.permissions
            &&& a.effects == v.effects
        }),
{
}

/// A session made on our command is opened and shown, its first message put
/// into its line; one made by others is not.
#[verifier::rlimit(50)]
pub proof fn law_our_session_is_opened(v: AppView, seed: Seq<char>, causation: Option<Seq<char>>)
    requires
        v.tabs.len() < usize::MAX,
    ensures
        ({
            let w = controlled(v, seed, causation, ControlDelta::SessionCreated);
            let ours = causation is Some && is_creating(v.creates, causation->0);
            &&& !ours ==> w == v
            &&& ours ==> {
                &&& w.active_seed() == Some(seed)
                &&& w.effects.contains(EffectView::Attach(seed))
                &&& !is_creating(w.creates, causation->0)
                &&& w.prompt is None
                &&& w.toasts.last().level == NoticeLevel::Info
                &&& occurs(w.toasts.last().text, seed)
            }
            &&& (ours && v.prompt is Some && v.session_at(seed) is None) ==> {
                let at = w.session_at(seed);
                at is Some && w.sessions[at->0].composer.input == v.prompt->0
            }
        }),
{
    if causation is Some && is_creating(v.creates, causation->0) {
        let id = causation->0;
        let b = AppView { creates: creates_without(v.creates, id), ..v };
        law_opening_shows_and_attaches(b, seed);
        let o = b.opened(seed);
        assert(o.session_at(seed) is Some);
        assert(o.active_at() == o.session_at(seed));
        lemma_creates(v.creates, id);
        lemma_index(o.sessions, seed, 0);
        let i = o.active_at()->0;
        if v.prompt is Some {
            let p = v.prompt->0;
            let c = o.sessions[i].composer;
            if v.session_at(seed) is None {
                lemma_new_place(v.sessions, seed, fresh_session(seed), 0);
                assert(c.ok());
                law_inserted_text_is_kept(c, p);
                let d = c.inserted_all(p);
                assert(d.input =~= d.input.take(d.cursor) + d.input.skip(d.cursor));
                assert(c.input.take(c.cursor) + p =~= p);
                assert(d.input =~= p);
            }
            let n = o.prompt_transferred();
            lemma_same_seeds(o.sessions, n.sessions, seed, 0);
        }
        let a = "新会话已创建 "@;
        law_finding_text(a + seed, seed);
        assert(a + seed =~= a + seed + Seq::<char>::empty());
    }
}

proof fn lemma_same_seeds(a: Seq<SessionView>, b: Seq<SessionView>, seed: Seq<char>, k: int)
    requires
        a.len() == b.len(),
        forall|j: int| 0 <= j < a.len() ==> (#[trigger] a[j]).seed == b[j].seed,
        0 <= k,
    ensures
        index_from(a, seed, k) == index_from(b, seed, k),
    decreases a.len() - k,
{
    if k < a.len() {
        assert(a[k].seed == b[k].seed);
        lemma_same_seeds(a, b, seed, k + 1);
    }
}

proof fn lemma_new_place(v: Seq<SessionView>, seed: Seq<char>, s: SessionView, k: int)
    requires
        0 <= k <= v.len(),
        s.seed == seed,
        index_from(v, seed, k) is None,
    ensures
        index_from(v.push(s), seed, k) == Some(v.len() as int),
    decreases v.len() - k,
{
    if k < v.len() {
        assert(v.push(s)[k] == v[k]);
        lemma_new_place(v, seed, s, k + 1);
    } else {
        assert(v.push(s)[k] == s);
    }
}

proof fn lemma_creates(v: Seq<(Seq<char>, u64)>, id: Seq<char>)
    ensures
        !is_creating(creates_without(v, id), id),
        forall|x: (Seq<char>, u64)| #[trigger] creates_without(v, id).contains(x) <==> v.contains(x)
            && x.0 != id,
    decreases v.len(),
{
    let all = creates_without(v, id);
    if v.len() > 0 {
        let d = v.drop_last();
        lemma_creates(d, id);
        assert forall|x: (Seq<char>, u64)| #[trigger] all.contains(x) <==> v.contains(x) && x.0
            != id by {
            assert(creates_without(d, id).contains(x) <==> d.contains(x) && x.0 != id);
            lemma_held_last(v, x);
            lemma_held_more(creates_without(d, id), v.last(), x);
        }
    }
    assert forall|k: int| 0 <= k < all.len() implies (#[trigger] all[k]).0 != id by {
        assert(all.contains(all[k]));
    }
}

/// What a session is doing is noted with it, and the user is told where one
/// that has no tab waits for them.
#[verifier::rlimit(50)]
pub proof fn law_activity_is_noted(v: AppView, seed: Seq<char>, i: int, st: ActivityState)
    requires
        is_session(v, seed, i),
    ensures
        ({
            let w = controlled(v, seed, None, ControlDelta::Activity(st));
            &&& w.sessions[i] == (SessionView { activity: Some(st), ..v.sessions[i] })
            &&& (exists|k: int| 0 <= k < w.activity.len() && #[trigger] w.activity[k] == (seed, st))
            &&& (st is WaitingUser && !v.tabs.contains(seed)) ==> {
                &&& w.toasts.last().level == NoticeLevel::Warn
                &&& occurs(w.toasts.last().text, seed)
            }
            &&& !(st is WaitingUser && !v.tabs.contains(seed)) ==> w.toasts == v.toasts
            &&& w.effects == v.effects
        }),
{
    let w = controlled(v, seed, None, ControlDelta::Activity(st));
    lemma_activity(v.activity, seed, 0);
    match activity_from(v.activity, seed, 0) {
        Some(k) => {
            assert(w.activity[k] == (seed, st));
        },
        None => {
            assert(w.activity[v.activity.len() as int] == (seed, st));
        },
    }
    let a = "会话 "@;
    let b = " 等待输入"@;
    law_finding_text(a + seed + b, seed);
}

proof fn lemma_activity(v: Seq<(Seq<char>, ActivityState)>, seed: Seq<char>, k: int)
    requires
        0 <= k,
    ensures
        activity_from(v, seed, k) matches Some(i) ==> k <= i < v.len() && v[i].0
            == seed,
    decreases v.len() - k,
{
    if k < v.len() && v[k].0 != seed {
        lemma_activity(v, seed, k + 1);
    }
}

/// A subagent that starts gets the session that runs it, by its call; the
/// others keep theirs.
#[verifier::rlimit(50)]
pub proof fn law_spawned_subagent_has_its_session(
    v: AppView,
    seed: Seq<char>,
    i: int,
    child_session_id: String,
    parent_call_id: String,
    k: int,
)
    requires
        is_session(v, seed, i),
        0 <= k < v.sessions[i].subagents.len(),
    ensures
        ({
            let d = ControlDelta::SubagentSpawned { child_session_id, parent_call_id };
            let e = v.sessions[i].subagents[k];
            let t = controlled(v, seed, None, d).sessions[i];
            &&& t.subagents.len() == v.sessions[i].subagents.len()
            &&& e.tool_call_id == parent_call_id@ ==> t.subagents[k] == (SubagentView {
                seed: Some(child_session_id@),
                ..e
            })
            &&& e.tool_call_id != parent_call_id@ ==> t.subagents[k] == e
        }),
{
}

/// A subagent that ended is marked with how it ended, and followed no more;
/// the others run on.
#[verifier::rlimit(50)]
pub proof fn law_finished_subagent_is_marked(
    v: AppView,
    seed: Seq<char>,
    i: int,
    child_session_id: String,
    status: SubagentState,
    k: int,
)
    requires
        is_session(v, seed, i),
        0 <= k < v.sessions[i].subagents.len(),
    ensures
        ({
            let d = ControlDelta::SubagentFinished { child_session_id, status };
            let e = v.sessions[i].subagents[k];
            let w = controlled(v, seed, None, d);
            let t = w.sessions[i];
            &&& e.seed == Some(child_session_id@) ==> {
                &&& t.subagents[k] == (SubagentView { state: status, ..e })
                &&& !w.subagents.contains(child_session_id@)
            }
            &&& e.seed != Some(child_session_id@) ==> t.subagents[k] == e
            &&& forall|x: Seq<char>|
                v.subagents.contains(x) && x != child_session_id@ ==> #[trigger]
                    w.subagents.contains(x)
        }),
{
    let c = child_session_id@;
    let gone = seq![c];
    let d = ControlDelta::SubagentFinished { child_session_id, status };
    let w = controlled(v, seed, None, d);
    let e = v.sessions[i].subagents[k];
    assert forall|x: Seq<char>| gone.contains(x) <==> x == c by {
        if x == c {
            assert(gone[0] == x);
        }
    }
    assert forall|x: Seq<char>|
        v.subagents.contains(x) && x != c implies #[trigger] w.subagents.contains(x) by {
        lemma_texts(v.subagents, gone, x);
    }
    lemma_texts(v.subagents, gone, c);
    if e.seed == Some(c) {
        assert(gone.contains(c));
        assert(has_child(v.sessions[i].subagents, c));
    }
}

pub proof fn lemma_texts(v: Seq<Seq<char>>, gone: Seq<Seq<char>>, x: Seq<char>)
    ensures
        texts_without(v, gone).contains(x) <==> (v.contains(x) && !gone.contains(x)),
    decreases v.len(),
{
    if v.len() > 0 {
        lemma_texts(v.drop_last(), gone, x);
        lemma_held_last(v, x);
        lemma_held_more(texts_without(v.drop_last(), gone), v.last(), x);
    }
}

/// A new title is shown, and the list is fetched again; a deleted session is
/// closed, and the user is told where it had a tab.
#[verifier::rlimit(50)]
pub proof fn law_meta_news(v: AppView, seed: Seq<char>, i: int, title: String)
    requires
        is_session(v, seed, i),
    ensures
        ({
            let w = v.event_seen(
                seed,
                None,
                V2Payload::MetaDelta(MetaDelta::TitleChanged { title }),
            );
            &&& w.sessions[i] == (SessionView { title: Some(title@), ..v.sessions[i] })
            &&& w.flags.list_at is None
            &&& w.effects == v.effects
        }),
        ({
            let w = v.event_seen(seed, None, V2Payload::MetaDelta(MetaDelta::Deleted));
            &&& w.tabs == v.closed(seed).tabs
            &&& w.sessions == v.closed(seed).sessions
            &&& w.flags.list_at is None
            &&& v.tabs.contains(seed) ==> occurs(w.toasts.last().text, seed)
        }),
{
    let a = "会话 "@;
    let b = " 已删除"@;
    law_finding_text(a + seed + b, seed);
}

proof fn lemma_running(turns: Seq<Turn>, k: int)
    requires
        0 <= k <= turns.len(),
    ensures
        running_to(turns, k) matches Some(i) ==> 0 <= i < k && turns[i].state
            == TimelineTurnState::Running && (forall|j: int|
            i < j < k ==> (#[trigger] turns[j]).state != TimelineTurnState::Running),
        running_to(turns, k) is None ==> forall|j: int|
            0 <= j < k ==> (#[trigger] turns[j]).state != TimelineTurnState::Running,
    decreases k,
{
    if k > 0 && turns[k - 1].state != TimelineTurnState::Running {
        lemma_running(turns, k - 1);
    }
}

/// A step of a timeline replaces it. A turn that it ended streams no more, and
/// nothing streams where no turn of the timeline runs. A call it updated is
/// looked at for a subagent, and one about todos brings the side panel up to
/// date.
#[verifier::spinoff_prover]
#[verifier::rlimit(50)]
pub proof fn law_step_replaces_the_timeline(v: AppView, seed: String, i: int, step: TimelineStep)
    requires
        is_session(v, seed@, i),
    ensures
        ({
            let s = v.sessions[i];
            let w = v.runtime_seen(RuntimeMsg::Timeline { seed, step });
            let t = w.sessions[i];
            &&& t.timeline == step.timeline@
            &&& t.composer == s.composer
            &&& t.permissions == s.permissions
            &&& t.scroll == s.scroll
            &&& (step.terminal is Some && s.streaming is Some && s.streaming->0.turn_id
                == step.terminal->0@) ==> t.streaming is None
            &&& (step.timeline@.turns.len() > 0 && forall|j: int|
                0 <= j < step.timeline@.turns.len() ==> (#[trigger] step.timeline@.turns[j]).state
                    != TimelineTurnState::Running) ==> t.streaming is None
            &&& (step.terminal is None && exists|j: int|
                0 <= j < step.timeline@.turns.len() && (#[trigger] step.timeline@.turns[j]).state
                    == TimelineTurnState::Running) ==> t.streaming == s.streaming
            &&& step.turn_sealed ==> w.flags.force_redraw
            &&& step.tool is Some ==> w.effects.contains(
                EffectView::DiscoverSubagent {
                    seed: seed@,
                    tool_call_id: (step.tool->0).0@,
                    tool_name: (step.tool->0).1@,
                },
            )
            &&& step.tool is None ==> w.effects == v.effects
        }),
{
    let turns = step.timeline@.turns;
    lemma_running(turns, turns.len() as int);
    let w = v.runtime_seen(RuntimeMsg::Timeline { seed, step });
    if step.tool is Some {
        let e = EffectView::DiscoverSubagent {
            seed: seed@,
            tool_call_id: (step.tool->0).0@,
            tool_name: (step.tool->0).1@,
        };
        assert(w.effects[v.effects.len() as int] == e);
    }
    assert(stepped(v.sessions[i], step).timeline == step.timeline@);
}

/// A timeline that comes as a whole replaces the old one; the session is ready
/// then, and its subagents are looked for again. A transcript that followed
/// its end, or was shown for the first time, follows it.
#[verifier::rlimit(50)]
pub proof fn law_whole_timeline_is_taken(
    v: AppView,
    seed: String,
    i: int,
    timeline: TimelineModel,
)
    requires
        is_session(v, seed@, i),
    ensures
        ({
            let s = v.sessions[i];
            let w = v.runtime_seen(RuntimeMsg::TimelineRebaseline { seed, timeline });
            let t = w.sessions[i];
            &&& t.timeline == timeline@
            &&& t.ready
            &&& !t.needs_rebaseline
            &&& t.compact is None
            &&& t.block_cache is None
            &&& (!s.ready || s.scroll.follow) ==> t.scroll.follow
            &&& (s.ready && !s.scroll.follow) ==> t.scroll == s.scroll
            &&& t.composer == s.composer
            &&& w.effects == v.effects.push(EffectView::RescanSubagents(seed@))
        }),
{
    assert(loaded(v.sessions[i], timeline).timeline == timeline@);
}

/// A stream that opens, or must start over, has its session's state fetched.
#[verifier::spinoff_prover]
#[verifier::rlimit(50)]
pub proof fn law_opened_stream_is_fetched(v: AppView, seed: String)
    ensures
        v.runtime_seen(RuntimeMsg::V2StreamOpen { seed }) == v.asking(EffectView::Bootstrap(seed@)),
        v.runtime_seen(RuntimeMsg::ResetRequired { seed }) == v.asking(
            EffectView::Bootstrap(seed@),
        ),
{
}

proof fn lemma_without(v: Seq<Alert>, k: StreamId, a: Alert)
    ensures
        without(v, k).contains(a) <==> (v.contains(a) && a.stream != k),
    decreases v.len(),
{
    if v.len() > 0 {
        lemma_without(v.drop_last(), k, a);
        lemma_held_last(v, a);
        lemma_held_more(without(v.drop_last(), k), v.last(), a);
    }
}

/// What is shown of the connection: lost with its reason; in trouble, while
/// connected, with the newest trouble; connected once the last trouble of any
/// stream is over. Trouble of one stream says nothing of another.
#[verifier::rlimit(50)]
pub proof fn law_connection_is_shown(v: AppView, ev: ConnEvent, a: Alert)
    ensures
        ({
            let w = v.conn_seen(ev);
            &&& ev is Opening ==> w.conn.phase is Opening
            &&& ev matches ConnEvent::Lost(reason) ==> w.conn.phase is Lost && w.conn.error == Some(
                reason@,
            )
            &&& ev matches ConnEvent::Ready { epoch, epoch_changed } ==> {
                &&& w.conn.phase is Ready
                &&& w.conn.epoch == epoch@
                &&& w.conn.error is None
                &&& w.conn.issues.len() == 0
                &&& epoch_changed ==> w.toasts.last().level == NoticeLevel::Warn
                &&& !epoch_changed ==> w.toasts == v.toasts
            }
            &&& ev matches ConnEvent::StreamIssue { stream, error } ==> {
                let told = Alert { stream: stream@, message: error@ };
                &&& w.conn.issues.last() == told
                &&& (a != told) ==> (w.conn.issues.contains(a) <==> v.conn.issues.contains(a)
                    && a.stream != stream@)
                &&& (v.conn.phase is Ready || v.conn.phase is ReadyWithIssue) ==> {
                    &&& w.conn.phase is ReadyWithIssue
                    &&& w.conn.error == Some(error@)
                }
                &&& v.conn.phase is Lost ==> w.conn.phase is Lost && w.conn.error == v.conn.error
            }
            &&& ev matches ConnEvent::StreamRecovered { stream } ==> {
                &&& w.conn.issues.contains(a) <==> (v.conn.issues.contains(a) && a.stream
                    != stream@)
                &&& (w.conn.issues.len() == 0 && v.conn.phase is ReadyWithIssue) ==> {
                    &&& w.conn.phase is Ready
                    &&& w.conn.error is None
                }
                &&& (w.conn.issues.len() > 0 && v.conn.phase is ReadyWithIssue) ==> {
                    &&& w.conn.phase is ReadyWithIssue
                    &&& w.conn.error == Some(w.conn.issues.last().message)
                }
            }
        }),
{
    match ev {
        ConnEvent::StreamIssue { stream, error } => {
            let rest = without(v.conn.issues, stream@);
            let told = Alert { stream: stream@, message: error@ };
            lemma_without(v.conn.issues, stream@, a);
            let all = rest.push(told);
            if rest.contains(a) {
                let j = choose|j: int| 0 <= j < rest.len() && rest[j] == a;
                assert(all[j] == a);
            }
            if all.contains(a) && a != told {
                let j = choose|j: int| 0 <= j < all.len() && all[j] == a;
                assert(rest[j] == a);
            }
        },
        ConnEvent::StreamRecovered { stream } => {
            lemma_without(v.conn.issues, stream@, a);
        },
        _ => {},
    }
}

/// A new connection takes every session up again: each tab is resumed and each
/// subagent attached to.
#[verifier::rlimit(50)]
pub proof fn law_new_connection_takes_all_up(v: AppView, ev: ConnEvent, k: int)
    requires
        ev is Ready,
    ensures
        0 <= k < v.tabs.len() ==> v.conn_seen(ev).effects.contains(EffectView::Resume(v.tabs[k])),
        0 <= k < v.subagents.len() ==> v.conn_seen(ev).effects.contains(
            EffectView::Attach(v.subagents[k]),
        ),
        v.conn_seen(ev).effects.len() == v.effects.len() + v.tabs.len() + v.subagents.len(),
        v.conn_seen(ev).effects.take(v.effects.len() as int) == v.effects,
{
    let w = v.conn_seen(ev);
    let n = v.effects.len() as int;
    if 0 <= k < v.tabs.len() {
        assert(w.effects[n + k] == EffectView::Resume(v.tabs[k]));
    }
    if 0 <= k < v.subagents.len() {
        assert(w.effects[n + v.tabs.len() + k] == EffectView::Attach(v.subagents[k]));
    }
    assert(w.effects.take(n) =~= v.effects);
}

/// A stream that is lost is told of, with its session, unless it is that of a
/// subagent whose session is gone: that one is closed.
#[verifier::rlimit(50)]
pub proof fn law_lost_stream_is_told(
    v: AppView,
    seed: String,
    reason: TimelineLostReason,
)
    ensures
        ({
            let w = v.runtime_seen(RuntimeMsg::TimelineLost { seed, reason });
            let child = v.subagents.contains(seed@) && reason is SessionMissing;
            &&& child ==> !w.subagents.contains(seed@) && w.toasts == v.toasts
            &&& !child ==> {
                &&& w.toasts.last().level == NoticeLevel::Error
                &&& occurs(w.toasts.last().text, seed@)
                &&& w.effects == v.effects
                &&& w.sessions == v.sessions
            }
        }),
{
    let gone = seq![seed@];
    assert(gone[0] == seed@);
    lemma_texts(v.subagents, gone, seed@);
    let a = "timeline 断开["@;
    let b = "]: "@ + described(reason);
    law_finding_text(a + seed@ + b, seed@);
    assert(a + seed@ + "]: "@ + described(reason) =~= a + seed@ + b);
}

/// The text of an interaction that is a question puts its questions up, all of
/// them; that of a plan puts the plan up. One that was answered here is not
/// put up again.
#[verifier::rlimit(50)]
pub proof fn law_interaction_is_put_up(
    v: AppView,
    seed: Seq<char>,
    i: int,
    id: Seq<char>,
    m: Seq<(Seq<char>, JsonFieldView)>,
    body: InteractionBody,
)
    requires
        is_session(v, seed, i),
        m.len() > 0,
        m[0].0 == seq!['k', 'i', 'n', 'd'],
    ensures
        ({
            let w = v.body_shown(seed, id, JsonDocView::Object(m), body);
            let t = w.sessions[i];
            let asks = m[0].1 == JsonFieldView::Text(seq!['a', 's', 'k']);
            let plans = m[0].1 == JsonFieldView::Text(seq!['p', 'l', 'a', 'n']);
            &&& v.suppressed.contains(id) ==> w == v
            &&& (!v.suppressed.contains(id) && asks) ==> {
                &&& t.ask is Some
                &&& t.ask->0.interaction_id == id
                &&& body.questions is Some ==> t.ask->0.questions == body.questions->0@
                &&& t.plan == v.sessions[i].plan
                &&& t.scroll.follow
            }
            &&& (!v.suppressed.contains(id) && plans) ==> {
                &&& t.plan is Some
                &&& t.plan->0.interaction_id == id
                &&& !t.plan->0.entering
                &&& t.ask == v.sessions[i].ask
            }
            &&& (!asks && !plans) ==> w == v
            &&& w.effects == v.effects
        }),
{
    reveal_strlit("kind");
    reveal_strlit("ask");
    reveal_strlit("plan");
    assert("kind"@ =~= seq!['k', 'i', 'n', 'd']);
    assert("ask"@ =~= seq!['a', 's', 'k']);
    assert("plan"@ =~= seq!['p', 'l', 'a', 'n']);
    assert("ask"@.len() == 3 && "plan"@.len() == 4);
}

/// Where the text of an interaction lies elsewhere, it is fetched for that
/// session and that interaction.
#[verifier::rlimit(50)]
pub proof fn law_interaction_text_is_fetched(
    v: AppView,
    seed: Seq<char>,
    id: Seq<char>,
    c: ContentValue,
)
    ensures
        c matches ContentValue::Ref(r) ==> v.content_seen(seed, id, c) == v.asking(
            EffectView::DownloadBody { seed, interaction_id: id, content_id: r@ },
        ),
        c matches ContentValue::Inline(b) ==> v.content_seen(seed, id, c) == v.body_shown(
            seed,
            id,
            json_doc(b.text@),
            b,
        ),
        c is Unavailable ==> v.content_seen(seed, id, c) == v,
{
}

} // verus!
