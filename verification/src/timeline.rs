//! The timeline of a session as the renderer sees it: turns, rounds, blocks
//! and tool cards.

use vstd::prelude::*;

verus! {

#[derive(Clone, Copy, Debug, PartialEq, Eq, Structural)]
pub enum TimelineBlockKind {
    Text,
    Reasoning,
    Tool,
    Notice,
}

#[derive(Clone, Copy, Debug, PartialEq, Eq, Structural)]
pub enum TimelineBlockState {
    Open,
    Sealed,
}

#[derive(Clone, Copy, Debug, PartialEq, Eq, Structural)]
pub enum TimelineToolState {
    Prepared,
    Running,
    Succeeded,
    Failed,
    Cancelled,
    Backgrounded,
}

#[derive(Clone, Copy, Debug, PartialEq, Eq, Structural)]
pub enum TimelineTurnState {
    Running,
    Completed,
    Failed,
    Cancelled,
}

#[derive(Clone, Copy, Debug, PartialEq, Eq, Structural)]
pub enum TimelinePathOp {
    Read,
    Write,
    Edit,
}

#[derive(Clone, Debug)]
pub struct TimelineFailure {
    pub code: String,
    pub message: String,
}

/// A pending permission request of a tool call.
#[derive(Clone, Debug)]
pub struct TimelinePermission {
    pub category: String,
    pub risk: String,
}

#[derive(Clone, Debug)]
pub enum TimelineToolHeader {
    Path { path: String, op: TimelinePathOp },
    Shell { command: String },
    Query { query: String, scope: Option<String> },
    Other { label: String },
    Unknown,
}

#[derive(Clone, Debug)]
pub enum TimelineToolBody {
    Empty,
    Shell { output: String, exit_code: Option<i32>, truncated: bool },
    Streams {
        stdout: String,
        stderr: String,
        exit_code: Option<i32>,
        truncated: bool,
        interleaved: bool,
    },
    Diff { unified: String, truncated: bool },
    Text { text: String, truncated: bool },
    Subagent { name: String },
    Unknown,
}

#[derive(Clone, Copy, Debug, PartialEq, Eq, Structural)]
pub struct TimelineToolMetrics {
    pub elapsed_ms: u64,
    pub output_bytes: u64,
}

/// How the daemon wants a tool call shown.
#[derive(Clone, Debug)]
pub struct TimelineToolDisplay {
    pub summary: Option<String>,
    pub header: Option<TimelineToolHeader>,
    pub body: Option<TimelineToolBody>,
    pub metrics: Option<TimelineToolMetrics>,
}

#[derive(Clone, Debug)]
pub struct ToolCard {
    pub tool_call_id: String,
    pub name: String,
    pub state: TimelineToolState,
    pub summary: Option<String>,
    pub args_json: Option<String>,
    pub output: Option<String>,
    pub diff: Option<String>,
    pub progress: String,
    /// The writer dropped an older part of `progress`.
    pub progress_truncated: bool,
    pub progress_bytes_total: u64,
    pub progress_stream: Option<String>,
    pub failure: Option<TimelineFailure>,
    pub permission: Option<TimelinePermission>,
    pub display: Option<TimelineToolDisplay>,
}

#[derive(Clone, Debug)]
pub struct Block {
    pub block_id: String,
    pub block_order: u32,
    pub kind: TimelineBlockKind,
    pub state: TimelineBlockState,
    pub text: String,
    pub tool: Option<ToolCard>,
    pub last_fragment: u64,
    /// Counts the changes of the block's content.
    pub rev: u64,
}

#[derive(Clone, Debug)]
pub struct Round {
    pub round_num: u32,
    pub sealed: bool,
    pub is_final: bool,
    pub blocks: Vec<Block>,
}

/// How much thinking a turn dropped from the transcript.
#[derive(Clone, Copy, Debug, PartialEq, Eq, Structural)]
pub struct ThinkingStats {
    pub segments: u32,
    pub lines: u64,
}

#[derive(Clone, Debug)]
pub struct Turn {
    pub turn_id: String,
    pub turn_index: Option<u64>,
    pub user_text: String,
    pub state: TimelineTurnState,
    pub failure: Option<TimelineFailure>,
    pub sealed: bool,
    /// Only a preview of the turn is kept in memory.
    pub offloaded: bool,
    pub thinking: ThinkingStats,
    pub rounds: Vec<Round>,
}

/// The turns in memory, and how many older ones were dropped.
#[derive(Clone, Debug)]
pub struct TimelineModel {
    pub turns: Vec<Turn>,
    pub has_more: bool,
    pub truncated_before: bool,
    pub dropped_turns: u64,
}

/// The turns in memory, and how many older ones were dropped.
#[verifier::ext_equal]
pub struct TimelineView {
    pub turns: Seq<Turn>,
    pub has_more: bool,
    pub truncated_before: bool,
    pub dropped_turns: u64,
}

impl View for TimelineModel {
    type V = TimelineView;

    open spec fn view(&self) -> TimelineView {
        TimelineView {
            turns: self.turns@,
            has_more: self.has_more,
            truncated_before: self.truncated_before,
            dropped_turns: self.dropped_turns,
        }
    }
}

impl Block {
    /// Text that still grows.
    pub open spec fn streaming(&self) -> bool {
        self.state == TimelineBlockState::Open
    }

    /// Text that still grows.
    pub fn is_streaming(&self) -> (r: bool)
        ensures
            r == self.streaming(),
    {
        self.state == TimelineBlockState::Open
    }
}

impl TimelineModel {
    /// The number shown for the turn at `idx`: its position in the session,
    /// dropped turns counted, starting at one.
    pub open spec fn number(&self, idx: int) -> u64 {
        let n = self.dropped_turns + idx + 1;
        if n <= u64::MAX {
            n as u64
        } else {
            u64::MAX
        }
    }

    /// How many turns the session has had.
    pub open spec fn total(&self) -> u64 {
        self.number(self.turns@.len() - 1)
    }

    pub fn new() -> (m: Self)
        ensures
            m.turns@.len() == 0,
            !m.has_more,
            !m.truncated_before,
            m.dropped_turns == 0,
    {
        TimelineModel {
            turns: Vec::new(),
            has_more: false,
            truncated_before: false,
            dropped_turns: 0,
        }
    }

    /// The number shown for the turn at `idx`.
    pub fn turn_number(&self, idx: usize) -> (n: u64)
        ensures
            n == self.number(idx as int),
    {
        let at = idx as u64;
        self.dropped_turns.saturating_add(at).saturating_add(1)
    }

    /// How many turns the session has had, dropped ones included.
    pub fn turn_total(&self) -> (n: u64)
        ensures
            n == self.total(),
    {
        let len = self.turns.len() as u64;
        self.dropped_turns.saturating_add(len)
    }

    /// Keeps the newest `max` turns. The dropped ones are counted, and there is
    /// more to load then.
    pub fn cap_turns(&mut self, max: usize)
        ensures
            ({
                let len = old(self).turns@.len() as int;
                let cut = if len > max {
                    len - max
                } else {
                    0
                };
                &&& final(self).turns@ == old(self).turns@.skip(cut)
                &&& final(self).dropped_turns == old(self).number(cut - 1)
                &&& final(self).has_more == (old(self).has_more || cut > 0)
                &&& final(self).truncated_before == old(self).truncated_before
            }),
    {
        let len: usize = self.turns.len();
        if len <= max {
            assert(self.turns@.skip(0) =~= self.turns@);
            return;
        }
        let cut: usize = len - max;
        let kept = self.turns.split_off(cut);
        assert(kept@ =~= old(self).turns@.skip(cut as int));
        self.turns = kept;
        self.dropped_turns = self.dropped_turns.saturating_add(cut as u64);
        self.has_more = true;
    }
}

/// Dropping old turns renumbers none of those that stay.
pub proof fn law_turn_number_survives_cap(before: TimelineModel, after: TimelineModel, cut: int, idx: int)
    requires
        0 <= cut <= before.turns@.len(),
        after.dropped_turns == before.number(cut - 1),
        before.dropped_turns + before.turns@.len() < u64::MAX,
        0 <= idx < before.turns@.len() - cut,
    ensures
        after.number(idx) == before.number(idx + cut),
{
}

/// How many blocks a turn has.
pub open spec fn block_count(rounds: Seq<Round>) -> nat
    decreases rounds.len(),
{
    if rounds.len() == 0 {
        0
    } else {
        block_count(rounds.drop_last()) + rounds.last().blocks@.len()
    }
}

} // verus!
