//! A session as the user sees it: its timeline, scroll position, pending
//! interactions and input line.

use crate::approval::{
    permissions_view, PermissionPanel, PermissionRisk, PermissionView, PlanPanel, PlanView,
};
use crate::ask::{AskPanel, AskView};
use crate::composer::{Composer, ComposerView};
use crate::message::ConversationDelta;
use crate::seg::TranscriptCache;
use crate::text::{opt_text, str_eq, texts};
use crate::timeline::{
    Block, Round, TimelineFailure, TimelineModel, TimelineToolHeader, TimelineTurnState,
    TimelineView, ToolCard, Turn,
};
use vstd::prelude::*;

verus! {

/// Whether the agent plans or edits.
#[derive(Clone, Copy, Debug, PartialEq, Eq, Structural)]
pub enum ConversationMode {
    Plan,
    Code,
}

/// The visible part of a transcript: stuck to the end, or so many lines above it.
#[derive(Clone, Copy, Debug, PartialEq, Eq, Structural)]
pub struct Scroll {
    pub follow: bool,
    pub offset: usize,
}

/// A context compaction in progress.
#[derive(Clone, Debug)]
pub struct CompactState {
    pub turns_keeping: u64,
    pub turns_total: u64,
    pub last_delta: Option<String>,
}

/// What a session is doing.
#[derive(Clone, Copy, Debug, PartialEq, Eq, Structural)]
pub enum ActivityState {
    Idle,
    Starting,
    Working,
    WaitingUser,
    Interrupted,
}

/// What the running turn is doing.
#[derive(Clone, Copy, Debug, PartialEq, Eq, Structural)]
pub enum StreamPhase {
    Thinking,
    ToolCalling,
}

/// The running turn.
#[derive(Debug)]
pub struct StreamingState {
    pub turn_id: String,
    pub phase: StreamPhase,
    pub round_num: u32,
    pub tool_name: Option<String>,
    /// When it started, in milliseconds.
    pub armed_at: u64,
}

/// The running turn.
#[verifier::ext_equal]
pub struct StreamingView {
    pub turn_id: Seq<char>,
    pub phase: StreamPhase,
    pub round_num: u32,
    pub tool_name: Option<Seq<char>>,
    pub armed_at: u64,
}

impl View for StreamingState {
    type V = StreamingView;

    open spec fn view(&self) -> StreamingView {
        StreamingView {
            turn_id: self.turn_id@,
            phase: self.phase,
            round_num: self.round_num,
            tool_name: opt_text(self.tool_name),
            armed_at: self.armed_at,
        }
    }
}

/// Tokens used.
#[derive(Clone, Copy, Debug, PartialEq, Eq, Structural)]
pub struct TokenUsage {
    pub input_tokens: u64,
    pub output_tokens: u64,
}

/// What the side panel shows.
#[derive(Debug)]
pub struct Dashboard {
    pub documents: Vec<String>,
    pub recent_edits: Vec<String>,
    pub tasks: Vec<String>,
}

/// How a subagent is doing.
#[derive(Clone, Copy, Debug, PartialEq, Eq, Structural)]
pub enum SubagentState {
    Running,
    Completed,
    Failed,
    Closed,
}

/// A subagent that a session started.
#[derive(Debug)]
pub struct SubagentEntry {
    pub tool_call_id: String,
    /// Its own session, once known.
    pub seed: Option<String>,
    pub name: String,
    pub state: SubagentState,
}

/// A subagent that a session started.
#[verifier::ext_equal]
pub struct SubagentView {
    pub tool_call_id: Seq<char>,
    pub seed: Option<Seq<char>>,
    pub name: Seq<char>,
    pub state: SubagentState,
}

impl View for SubagentEntry {
    type V = SubagentView;

    open spec fn view(&self) -> SubagentView {
        SubagentView {
            tool_call_id: self.tool_call_id@,
            seed: opt_text(self.seed),
            name: self.name@,
            state: self.state,
        }
    }
}

/// Subagents.
pub open spec fn subagents_view(v: Seq<SubagentEntry>) -> Seq<SubagentView> {
    Seq::new(v.len(), |i: int| v[i]@)
}

/// A session.
#[derive(Debug)]
pub struct SessionState {
    pub seed: String,
    pub title: Option<String>,
    pub model: Option<String>,
    pub mode: ConversationMode,
    pub timeline: TimelineModel,
    pub loading_older: bool,
    /// Runs of tool calls that are shown call by call: turn and round.
    pub expanded_groups: Vec<(String, u32)>,
    pub scroll: Scroll,
    pub code_added: u64,
    pub code_removed: u64,
    pub compact: Option<CompactState>,
    pub last_error: Option<TimelineFailure>,
    pub composer: Composer,
    pub pending_ask: Option<AskPanel>,
    pub pending_plan: Option<PlanPanel>,
    /// Calls waiting for permission; the first is shown.
    pub pending_permissions: Vec<PermissionPanel>,
    /// Calls whose permission is settled.
    pub resolved_permissions: Vec<String>,
    pub activity: Option<ActivityState>,
    pub streaming: Option<StreamingState>,
    pub usage: Option<TokenUsage>,
    /// The timeline has been loaded.
    pub ready: bool,
    pub needs_rebaseline: bool,
    pub block_cache: Option<TranscriptCache>,
    pub dashboard: Option<Dashboard>,
    pub subagents: Vec<SubagentEntry>,
    /// Another client drives the session.
    pub read_only: bool,
}

/// A session as the user sees it.
#[verifier::ext_equal]
pub struct SessionView {
    pub seed: Seq<char>,
    pub title: Option<Seq<char>>,
    pub model: Option<Seq<char>>,
    pub mode: ConversationMode,
    pub timeline: TimelineView,
    pub loading_older: bool,
    pub expanded_groups: Seq<(String, u32)>,
    pub scroll: Scroll,
    pub code_added: u64,
    pub code_removed: u64,
    pub compact: Option<CompactState>,
    pub last_error: Option<TimelineFailure>,
    pub composer: ComposerView,
    pub ask: Option<AskView>,
    pub plan: Option<PlanView>,
    pub permissions: Seq<PermissionView>,
    pub resolved: Seq<Seq<char>>,
    pub activity: Option<ActivityState>,
    pub streaming: Option<StreamingView>,
    pub usage: Option<TokenUsage>,
    pub ready: bool,
    pub needs_rebaseline: bool,
    pub block_cache: Option<TranscriptCache>,
    pub dashboard: Option<Dashboard>,
    pub subagents: Seq<SubagentView>,
    pub read_only: bool,
}

impl View for SessionState {
    type V = SessionView;

    open spec fn view(&self) -> SessionView {
        SessionView {
            seed: self.seed@,
            title: opt_text(self.title),
            model: opt_text(self.model),
            mode: self.mode,
            timeline: self.timeline@,
            loading_older: self.loading_older,
            expanded_groups: self.expanded_groups@,
            scroll: self.scroll,
            code_added: self.code_added,
            code_removed: self.code_removed,
            compact: self.compact,
            last_error: self.last_error,
            composer: self.composer@,
            ask: match self.pending_ask {
                Some(p) => Some(p@),
                None => None,
            },
            plan: match self.pending_plan {
                Some(p) => Some(p@),
                None => None,
            },
            permissions: permissions_view(self.pending_permissions@),
            resolved: texts(self.resolved_permissions@),
            activity: self.activity,
            streaming: match self.streaming {
                Some(s) => Some(s@),
                None => None,
            },
            usage: self.usage,
            ready: self.ready,
            needs_rebaseline: self.needs_rebaseline,
            block_cache: self.block_cache,
            dashboard: self.dashboard,
            subagents: subagents_view(self.subagents@),
            read_only: self.read_only,
        }
    }
}

/// The cursor, the question dialog and the block cache are well formed.
pub open spec fn session_ok(s: SessionView) -> bool {
    &&& s.composer.ok()
    &&& s.ask matches Some(a) ==> a.ok()
    &&& s.block_cache matches Some(c) ==> c.wf()
}

/// The tool call with an id, from the `k`th block on.
pub open spec fn call_in_blocks(blocks: Seq<Block>, id: Seq<char>, k: int) -> Option<ToolCard>
    decreases blocks.len() - k,
{
    if k >= blocks.len() {
        None
    } else if blocks[k].tool is Some && blocks[k].tool->0.tool_call_id@ == id {
        blocks[k].tool
    } else {
        call_in_blocks(blocks, id, k + 1)
    }
}

/// The tool call with an id, from the `k`th round on.
pub open spec fn call_in_rounds(rounds: Seq<Round>, id: Seq<char>, k: int) -> Option<ToolCard>
    decreases rounds.len() - k,
{
    if k >= rounds.len() {
        None
    } else if call_in_blocks(rounds[k].blocks@, id, 0) is Some {
        call_in_blocks(rounds[k].blocks@, id, 0)
    } else {
        call_in_rounds(rounds, id, k + 1)
    }
}

/// The tool call with an id, from the `k`th turn on.
pub open spec fn call_in_turns(turns: Seq<Turn>, id: Seq<char>, k: int) -> Option<ToolCard>
    decreases turns.len() - k,
{
    if k >= turns.len() {
        None
    } else if call_in_rounds(turns[k].rounds@, id, 0) is Some {
        call_in_rounds(turns[k].rounds@, id, 0)
    } else {
        call_in_turns(turns, id, k + 1)
    }
}

fn find_in_blocks<'a>(blocks: &'a Vec<Block>, id: &str) -> (r: Option<&'a ToolCard>)
    ensures
        match r {
            Some(t) => call_in_blocks(blocks@, id@, 0) == Some(*t),
            None => call_in_blocks(blocks@, id@, 0) is None,
        },
{
    let n: usize = blocks.len();
    let mut k: usize = 0;
    while k < n
        invariant
            k <= n == blocks@.len(),
            call_in_blocks(blocks@, id@, 0) == call_in_blocks(blocks@, id@, k as int),
        decreases n - k,
    {
        if let Some(t) = &blocks[k].tool {
            if str_eq(t.tool_call_id.as_str(), id) {
                return Some(t);
            }
        }
        k += 1;
    }
    None
}

fn find_in_rounds<'a>(rounds: &'a Vec<Round>, id: &str) -> (r: Option<&'a ToolCard>)
    ensures
        match r {
            Some(t) => call_in_rounds(rounds@, id@, 0) == Some(*t),
            None => call_in_rounds(rounds@, id@, 0) is None,
        },
{
    let n: usize = rounds.len();
    let mut k: usize = 0;
    while k < n
        invariant
            k <= n == rounds@.len(),
            call_in_rounds(rounds@, id@, 0) == call_in_rounds(rounds@, id@, k as int),
        decreases n - k,
    {
        if let Some(t) = find_in_blocks(&rounds[k].blocks, id) {
            return Some(t);
        }
        k += 1;
    }
    None
}

fn find_in_turns<'a>(turns: &'a Vec<Turn>, id: &str) -> (r: Option<&'a ToolCard>)
    ensures
        match r {
            Some(t) => call_in_turns(turns@, id@, 0) == Some(*t),
            None => call_in_turns(turns@, id@, 0) is None,
        },
{
    let n: usize = turns.len();
    let mut k: usize = 0;
    while k < n
        invariant
            k <= n == turns@.len(),
            call_in_turns(turns@, id@, 0) == call_in_turns(turns@, id@, k as int),
        decreases n - k,
    {
        if let Some(t) = find_in_rounds(&turns[k].rounds, id) {
            return Some(t);
        }
        k += 1;
    }
    None
}

/// How risky a call is, as the timeline words it.
pub open spec fn risk_of(t: ToolCard) -> PermissionRisk {
    match t.permission {
        Some(p) => if p.risk@ == "high"@ {
            PermissionRisk::High
        } else if p.risk@ == "medium"@ {
            PermissionRisk::Medium
        } else {
            PermissionRisk::Low
        },
        None => PermissionRisk::Low,
    }
}

/// The paths a call names.
pub open spec fn paths_of(t: ToolCard) -> Seq<Seq<char>> {
    match t.display {
        Some(d) => match d.header {
            Some(TimelineToolHeader::Path { path, .. }) => seq![path@],
            _ => Seq::empty(),
        },
        None => Seq::empty(),
    }
}

/// The permission dialog for a call, filled from the call's card where the
/// timeline has one.
pub open spec fn permission_for(m: TimelineView, id: Seq<char>) -> PermissionView {
    match call_in_turns(m.turns, id, 0) {
        Some(t) => PermissionView {
            tool_call_id: id,
            tool_name: t.name@,
            risk: risk_of(t),
            paths: paths_of(t),
            trust_folder: false,
        },
        None => PermissionView {
            tool_call_id: id,
            tool_name: Seq::empty(),
            risk: PermissionRisk::Low,
            paths: Seq::empty(),
            trust_folder: false,
        },
    }
}

/// Some dialog is about call `id`.
pub open spec fn queued(v: Seq<PermissionView>, id: Seq<char>) -> bool {
    exists|i: int| 0 <= i < v.len() && (#[trigger] v[i]).tool_call_id == id
}

/// The dialogs that are not about call `id`.
pub open spec fn unqueued(v: Seq<PermissionView>, id: Seq<char>) -> Seq<PermissionView>
    decreases v.len(),
{
    if v.len() == 0 {
        v
    } else {
        let rest = unqueued(v.drop_last(), id);
        if v.last().tool_call_id == id {
            rest
        } else {
            rest.push(v.last())
        }
    }
}

/// The session with a dialog queued, unless the call is settled or queued.
pub open spec fn with_permission(s: SessionView, p: PermissionView) -> SessionView {
    if s.resolved.contains(p.tool_call_id) || queued(s.permissions, p.tool_call_id) {
        s
    } else {
        SessionView { permissions: s.permissions.push(p), ..s }
    }
}

/// The session with a dialog from a snapshot, unless the call is queued.
pub open spec fn with_snapshot_permission(s: SessionView, p: PermissionView) -> SessionView {
    if queued(s.permissions, p.tool_call_id) {
        s
    } else {
        SessionView { permissions: s.permissions.push(p), ..s }
    }
}

/// The session once call `id` is settled.
pub open spec fn settled(s: SessionView, id: Seq<char>) -> SessionView {
    SessionView {
        permissions: unqueued(s.permissions, id),
        resolved: if s.resolved.contains(id) {
            s.resolved
        } else {
            s.resolved.push(id)
        },
        ..s
    }
}

/// The session, its first permission dialog trusting the folder or not any
/// more.
pub open spec fn trust_toggled(s: SessionView) -> SessionView {
    let p = s.permissions[0];
    SessionView {
        permissions: s.permissions.update(
            0,
            PermissionView { trust_folder: !p.trust_folder, ..p },
        ),
        ..s
    }
}

/// Once settled, a call is not waiting, and no request for it is queued again.
pub proof fn law_settled_calls_stay_settled(s: SessionView, id: Seq<char>, p: PermissionView)
    requires
        p.tool_call_id == id,
    ensures
        with_permission(settled(s, id), p) == settled(s, id),
        !queued(settled(s, id).permissions, id),
{
    let r = settled(s, id);
    assert(r.resolved.contains(id)) by {
        if !s.resolved.contains(id) {
            assert(r.resolved[s.resolved.len() as int] == id);
        }
    }
    lemma_unqueued(s.permissions, id);
}

proof fn lemma_unqueued(v: Seq<PermissionView>, id: Seq<char>)
    ensures
        !queued(unqueued(v, id), id),
    decreases v.len(),
{
    if v.len() > 0 {
        lemma_unqueued(v.drop_last(), id);
        let rest = unqueued(v.drop_last(), id);
        let w = unqueued(v, id);
        assert forall|i: int| 0 <= i < w.len() implies (#[trigger] w[i]).tool_call_id != id by {
            if i < rest.len() {
                assert(w[i] == rest[i]);
            }
        }
    }
}

/// Whether a list of texts holds one.
pub fn holds(v: &Vec<String>, s: &str) -> (r: bool)
    ensures
        r == texts(v@).contains(s@),
{
    let n: usize = v.len();
    let mut i: usize = 0;
    while i < n
        invariant
            i <= n == v@.len(),
            forall|j: int| 0 <= j < i ==> #[trigger] texts(v@)[j] != s@,
        decreases n - i,
    {
        if str_eq(v[i].as_str(), s) {
            assert(texts(v@)[i as int] == s@);
            return true;
        }
        i += 1;
    }
    false
}

/// The turn that runs, from the `k`th backwards.
pub open spec fn running_to(turns: Seq<Turn>, k: int) -> Option<int>
    decreases k,
{
    if k <= 0 {
        None
    } else if turns[k - 1].state == TimelineTurnState::Running {
        Some(k - 1)
    } else {
        running_to(turns, k - 1)
    }
}

/// The turn that runs: the last that does.
pub open spec fn running(m: TimelineView) -> Option<int> {
    running_to(m.turns, m.turns.len() as int)
}

/// The turn that runs.
pub fn running_turn(m: &TimelineModel) -> (r: Option<usize>)
    ensures
        match r {
            Some(i) => running(m@) == Some(i as int) && i < m.turns@.len(),
            None => running(m@) is None,
        },
{
    let n: usize = m.turns.len();
    let mut k: usize = n;
    while k > 0
        invariant
            k <= n == m.turns@.len(),
            running(m@) == running_to(m.turns@, k as int),
        decreases k,
    {
        if m.turns[k - 1].state == TimelineTurnState::Running {
            return Some(k - 1);
        }
        k -= 1;
    }
    None
}

/// The session once turn `id` is over.
pub open spec fn turn_over(s: SessionView, id: Seq<char>) -> SessionView {
    if s.streaming is Some && s.streaming->0.turn_id == id {
        SessionView { streaming: None, ..s }
    } else {
        s
    }
}

/// The session without dialogs about interaction `id`.
pub open spec fn undialogued(s: SessionView, id: Seq<char>) -> SessionView {
    SessionView {
        ask: if s.ask is Some && s.ask->0.interaction_id == id {
            None
        } else {
            s.ask
        },
        plan: if s.plan is Some && s.plan->0.interaction_id == id {
            None
        } else {
            s.plan
        },
        ..s
    }
}

/// The session after a change of its conversation at time `now`.
pub open spec fn conversed(s: SessionView, d: ConversationDelta, now: u64) -> SessionView {
    match d {
        ConversationDelta::TurnStarted { turn_id } => SessionView {
            streaming: Some(
                StreamingView {
                    turn_id: turn_id@,
                    phase: StreamPhase::Thinking,
                    round_num: 0,
                    tool_name: None,
                    armed_at: now,
                },
            ),
            last_error: None,
            scroll: Scroll { follow: true, offset: 0 },
            ..s
        },
        ConversationDelta::ToolCallDeclared { tool_name } => match s.streaming {
            Some(t) => SessionView {
                streaming: Some(
                    StreamingView {
                        phase: StreamPhase::ToolCalling,
                        tool_name: Some(tool_name@),
                        ..t
                    },
                ),
                ..s
            },
            None => s,
        },
        ConversationDelta::ToolFinished { call_id } => settled(s, call_id@),
        ConversationDelta::AssistantBlockSealed { model, usage } => SessionView {
            model: Some(model@),
            usage: if usage is Some {
                usage
            } else {
                s.usage
            },
            ..s
        },
        ConversationDelta::TurnFinished { turn_id, usage } => SessionView {
            usage: if usage is Some {
                usage
            } else {
                s.usage
            },
            ..turn_over(s, turn_id@)
        },
        ConversationDelta::TurnInterrupted { turn_id } => turn_over(s, turn_id@),
        ConversationDelta::CompactionApplied => SessionView { compact: None, ..s },
        ConversationDelta::InputAccepted => s,
    }
}

/// The session, its running turn forgotten where the timeline has turns and
/// none of them runs.
pub open spec fn synced(s: SessionView) -> SessionView {
    if s.timeline.turns.len() > 0 && running(s.timeline) is None {
        SessionView { streaming: None, ..s }
    } else {
        s
    }
}

impl SessionState {
    /// An empty session.
    pub fn new(seed: String) -> (s: Self)
        ensures
            s.seed@ == seed@,
            s.timeline.turns@.len() == 0,
            !s.loading_older,
            s.expanded_groups@.len() == 0,
            s.scroll == (Scroll { follow: true, offset: 0 }),
            s@ == fresh_session(seed@),
            session_ok(s@),
    {
        let s = SessionState {
            seed,
            title: None,
            model: None,
            mode: ConversationMode::Code,
            timeline: TimelineModel::new(),
            loading_older: false,
            expanded_groups: Vec::new(),
            scroll: Scroll { follow: true, offset: 0 },
            code_added: 0,
            code_removed: 0,
            compact: None,
            last_error: None,
            composer: Composer::default(),
            pending_ask: None,
            pending_plan: None,
            pending_permissions: Vec::new(),
            resolved_permissions: Vec::new(),
            activity: None,
            streaming: None,
            usage: None,
            ready: false,
            needs_rebaseline: false,
            block_cache: None,
            dashboard: None,
            subagents: Vec::new(),
            read_only: false,
        };
        assert(s@ =~= fresh_session(seed@));
        s
    }

    /// The permission dialog shown: the first.
    pub fn active_permission(&self) -> (r: Option<&PermissionPanel>)
        ensures
            match r {
                Some(p) => self@.permissions.len() > 0 && p@ == self@.permissions[0],
                None => self@.permissions.len() == 0,
            },
    {
        if self.pending_permissions.len() > 0 {
            Some(&self.pending_permissions[0])
        } else {
            None
        }
    }

    /// The permission dialog for a call.
    pub fn permission_panel_for(&self, call_id: &str) -> (p: PermissionPanel)
        ensures
            p@ == permission_for(self.timeline@, call_id@),
    {
        let mut panel = PermissionPanel {
            tool_call_id: call_id.to_owned(),
            tool_name: String::new(),
            risk: PermissionRisk::Low,
            paths: Vec::new(),
            trust_folder: false,
        };
        assert(panel.tool_name@ =~= Seq::empty());
        assert(texts(panel.paths@) =~= Seq::empty());
        if let Some(t) = find_in_turns(&self.timeline.turns, call_id) {
            panel.tool_name = t.name.clone();
            if let Some(p) = &t.permission {
                if str_eq(p.risk.as_str(), "high") {
                    panel.risk = PermissionRisk::High;
                } else if str_eq(p.risk.as_str(), "medium") {
                    panel.risk = PermissionRisk::Medium;
                }
            }
            if let Some(d) = &t.display {
                if let Some(TimelineToolHeader::Path { path, .. }) = &d.header {
                    panel.paths.push(path.clone());
                    assert(texts(panel.paths@) =~= seq![path@]);
                }
            }
        }
        panel
    }

    /// Trusts the folder of the first permission dialog, or not any more.
    pub fn toggle_trust(&mut self)
        requires
            old(self)@.permissions.len() > 0,
        ensures
            final(self)@ == trust_toggled(old(self)@),
    {
        let ghost v = self@;
        let n: usize = self.pending_permissions.len();
        assert(v.permissions.len() == n);
        let trust = self.pending_permissions[0].trust_folder;
        self.pending_permissions[0].trust_folder = !trust;
        assert(self.pending_permissions@[0]@ =~= trust_toggled(v).permissions[0]);
        assert(self@.permissions =~= trust_toggled(v).permissions);
        assert(self@ =~= trust_toggled(v));
    }

    fn is_queued(&self, id: &str) -> (r: bool)
        ensures
            r == queued(self@.permissions, id@),
    {
        let n: usize = self.pending_permissions.len();
        let mut i: usize = 0;
        while i < n
            invariant
                i <= n == self.pending_permissions@.len(),
                forall|j: int| 0 <= j < i ==> (#[trigger] self@.permissions[j]).tool_call_id != id@,
            decreases n - i,
        {
            if str_eq(self.pending_permissions[i].tool_call_id.as_str(), id) {
                assert(self@.permissions[i as int].tool_call_id == id@);
                return true;
            }
            i += 1;
        }
        false
    }

    /// Queues a permission dialog, unless its call is settled or queued.
    pub fn queue_permission(&mut self, panel: PermissionPanel)
        ensures
            final(self)@ == with_permission(old(self)@, panel@),
    {
        let known = holds(&self.resolved_permissions, panel.tool_call_id.as_str())
            || self.is_queued(panel.tool_call_id.as_str());
        if !known {
            let ghost v = self@;
            let ghost p = panel@;
            self.pending_permissions.push(panel);
            assert(self@.permissions =~= v.permissions.push(p));
            assert(self@ =~= with_permission(v, p));
        }
    }

    /// Queues a permission dialog that a snapshot holds, unless its call is
    /// queued.
    pub fn restore_permission_from_snapshot(&mut self, panel: PermissionPanel)
        ensures
            final(self)@ == with_snapshot_permission(old(self)@, panel@),
    {
        if !self.is_queued(panel.tool_call_id.as_str()) {
            let ghost v = self@;
            let ghost p = panel@;
            self.pending_permissions.push(panel);
            assert(self@.permissions =~= v.permissions.push(p));
            assert(self@ =~= with_snapshot_permission(v, p));
        }
    }

    /// Notes that the permission of a call is settled.
    pub fn resolve_permission(&mut self, id: &str)
        ensures
            final(self)@ == settled(old(self)@, id@),
    {
        let ghost all = self@.permissions;
        let ghost v = self@;
        let ghost mut seen: int = 0;
        let mut i: usize = 0;
        assert(all.take(0) =~= Seq::empty());
        assert(all =~= unqueued(all.take(0), id@) + all.skip(0));
        assert(self@ =~= SessionView { permissions: self@.permissions, ..v });
        while i < self.pending_permissions.len()
            invariant
                0 <= seen <= all.len(),
                i == unqueued(all.take(seen), id@).len(),
                self@.permissions == unqueued(all.take(seen), id@) + all.skip(seen),
                self@ == (SessionView { permissions: self@.permissions, ..v }),
            decreases all.len() - seen,
        {
            let gone = str_eq(self.pending_permissions[i].tool_call_id.as_str(), id);
            let ghost before = self@;
            let ghost kept = unqueued(all.take(seen), id@);
            proof {
                assert(before.permissions[i as int] == all.skip(seen)[0]);
                assert(all.take(seen + 1).drop_last() =~= all.take(seen));
                assert(all.take(seen + 1).last() == all[seen]);
            }
            if gone {
                self.pending_permissions.remove(i);
                assert(self@.permissions =~= before.permissions.remove(i as int));
                assert((kept + all.skip(seen)).remove(kept.len() as int) =~= kept + all.skip(
                    seen + 1,
                ));
                assert(self@ =~= SessionView { permissions: self@.permissions, ..v });
            } else {
                i += 1;
                assert(kept + all.skip(seen) =~= kept.push(all[seen]) + all.skip(seen + 1));
            }
            proof {
                seen = seen + 1;
            }
        }
        proof {
            assert(self@.permissions.len() == self.pending_permissions@.len());
            assert(all.take(seen) =~= all);
            assert(self@.permissions =~= unqueued(all, id@));
        }
        if !holds(&self.resolved_permissions, id) {
            let ghost mid = self@;
            self.resolved_permissions.push(id.to_owned());
            assert(self@.resolved =~= mid.resolved.push(id@));
        }
        assert(self@ =~= settled(v, id@));
    }

    /// Notes that turn `id` is over.
    pub fn streaming_done(&mut self, id: &str)
        ensures
            final(self)@ == turn_over(old(self)@, id@),
    {
        let over = match &self.streaming {
            Some(s) => str_eq(s.turn_id.as_str(), id),
            None => false,
        };
        if over {
            self.streaming = None;
            assert(self@ =~= turn_over(old(self)@, id@));
        }
    }

    /// Closes the dialogs about interaction `id`.
    pub fn clear_dialogs(&mut self, id: &str)
        ensures
            final(self)@ == undialogued(old(self)@, id@),
    {
        let ask = match &self.pending_ask {
            Some(p) => str_eq(p.interaction_id.as_str(), id),
            None => false,
        };
        let plan = match &self.pending_plan {
            Some(p) => str_eq(p.interaction_id.as_str(), id),
            None => false,
        };
        if ask {
            self.pending_ask = None;
        }
        if plan {
            self.pending_plan = None;
        }
        assert(self@ =~= undialogued(old(self)@, id@));
    }

    fn start_turn(&mut self, turn_id: String, now: u64)
        ensures
            final(self)@ == conversed(
                old(self)@,
                ConversationDelta::TurnStarted { turn_id },
                now,
            ),
    {
        self.streaming =
        Some(
            StreamingState {
                turn_id,
                phase: StreamPhase::Thinking,
                round_num: 0,
                tool_name: None,
                armed_at: now,
            },
        );
        self.last_error = None;
        self.scroll = Scroll { follow: true, offset: 0 };
        assert(self@ =~= conversed(old(self)@, ConversationDelta::TurnStarted { turn_id }, now));
    }

    fn declare_tool(&mut self, tool_name: String)
        ensures
            final(self)@ == conversed(
                old(self)@,
                ConversationDelta::ToolCallDeclared { tool_name },
                0,
            ),
    {
        let running = self.streaming.take();
        self.streaming = match running {
            Some(t) => Some(
                StreamingState {
                    turn_id: t.turn_id,
                    phase: StreamPhase::ToolCalling,
                    round_num: t.round_num,
                    tool_name: Some(tool_name),
                    armed_at: t.armed_at,
                },
            ),
            None => None,
        };
        assert(self@ =~= conversed(
            old(self)@,
            ConversationDelta::ToolCallDeclared { tool_name },
            0,
        ));
    }

    /// A change of the conversation at time `now`.
    pub fn converse(&mut self, d: ConversationDelta, now: u64)
        ensures
            final(self)@ == conversed(old(self)@, d, now),
    {
        let ghost v = self@;
        match d {
            ConversationDelta::TurnStarted { turn_id } => {
                self.start_turn(turn_id, now);
            },
            ConversationDelta::ToolCallDeclared { tool_name } => {
                self.declare_tool(tool_name);
            },
            ConversationDelta::ToolFinished { call_id } => {
                self.resolve_permission(call_id.as_str());
            },
            ConversationDelta::AssistantBlockSealed { model, usage } => {
                self.model = Some(model);
                if usage.is_some() {
                    self.usage = usage;
                }
                assert(self@ =~= conversed(v, d, now));
            },
            ConversationDelta::TurnFinished { turn_id, usage } => {
                self.streaming_done(turn_id.as_str());
                if usage.is_some() {
                    self.usage = usage;
                }
                assert(self@ =~= conversed(v, d, now));
            },
            ConversationDelta::TurnInterrupted { turn_id } => {
                self.streaming_done(turn_id.as_str());
            },
            ConversationDelta::CompactionApplied => {
                self.compact = None;
                assert(self@ =~= conversed(v, d, now));
            },
            ConversationDelta::InputAccepted => {},
        }
    }

    /// Forgets the running turn where the timeline shows that none runs.
    pub fn sync_streaming_from_timeline(&mut self)
        ensures
            final(self)@ == synced(old(self)@),
    {
        if self.timeline.turns.len() > 0 && running_turn(&self.timeline).is_none() {
            self.streaming = None;
            assert(self@ =~= synced(old(self)@));
        }
    }
}

/// A session just opened.
pub open spec fn fresh_session(seed: Seq<char>) -> SessionView {
    SessionView {
        seed,
        title: None,
        model: None,
        mode: ConversationMode::Code,
        loading_older: false,
        scroll: Scroll { follow: true, offset: 0 },
        code_added: 0,
        code_removed: 0,
        compact: None,
        last_error: None,
        composer: ComposerView {
            input: Seq::empty(),
            cursor: 0,
            history: Seq::empty(),
            shown: None,
            attachments: Seq::empty(),
        },
        ask: None,
        plan: None,
        permissions: Seq::empty(),
        resolved: Seq::empty(),
        activity: None,
        streaming: None,
        usage: None,
        ready: false,
        needs_rebaseline: false,
        block_cache: None,
        dashboard: None,
        subagents: Seq::empty(),
        read_only: false,
        timeline: TimelineView {
            turns: Seq::empty(),
            has_more: false,
            truncated_before: false,
            dropped_turns: 0,
        },
        expanded_groups: Seq::empty(),
    }
}

} // verus!
