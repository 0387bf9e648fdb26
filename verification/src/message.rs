//! What reaches the application, and what it asks the outside for.

use crate::ask::{answers_view, AnswerView, AskAnswer, AskMode, AskQuestion};
use crate::composer::ContentRef;
use crate::conn::{StreamKey, TimelineLostReason};
use crate::keymap::KeyEvent;
use crate::session::{ActivityState, Dashboard, SubagentState, TokenUsage};
use crate::text::{opt_text, texts};
use crate::timeline::TimelineModel;
use vstd::prelude::*;

verus! {

/// How much a notice matters.
#[derive(Clone, Copy, Debug, PartialEq, Eq, Structural)]
pub enum NoticeLevel {
    Info,
    Warn,
    Error,
}

/// A notice shown for a while.
#[derive(Debug)]
pub struct Toast {
    pub level: NoticeLevel,
    pub text: String,
    /// When it came, in milliseconds.
    pub at: u64,
}

/// A notice.
#[verifier::ext_equal]
pub struct ToastView {
    pub level: NoticeLevel,
    pub text: Seq<char>,
    pub at: u64,
}

impl View for Toast {
    type V = ToastView;

    open spec fn view(&self) -> ToastView {
        ToastView { level: self.level, text: self.text@, at: self.at }
    }
}

/// Notices.
pub open spec fn toasts_view(v: Seq<Toast>) -> Seq<ToastView> {
    Seq::new(v.len(), |i: int| v[i]@)
}

/// A session in the daemon's list.
#[derive(Debug)]
pub struct SessionListEntry {
    pub seed: String,
    pub title: Option<String>,
    pub cwd: Option<String>,
    pub created_at: u64,
    pub archived: bool,
    pub ephemeral: bool,
    pub running: bool,
}

/// A session in the daemon's list.
#[verifier::ext_equal]
pub struct EntryView {
    pub seed: Seq<char>,
    pub title: Option<Seq<char>>,
    pub cwd: Option<Seq<char>>,
    pub created_at: u64,
    pub archived: bool,
    pub ephemeral: bool,
    pub running: bool,
}

impl View for SessionListEntry {
    type V = EntryView;

    open spec fn view(&self) -> EntryView {
        EntryView {
            seed: self.seed@,
            title: opt_text(self.title),
            cwd: opt_text(self.cwd),
            created_at: self.created_at,
            archived: self.archived,
            ephemeral: self.ephemeral,
            running: self.running,
        }
    }
}

/// Sessions in the daemon's list.
pub open spec fn entries_view(v: Seq<SessionListEntry>) -> Seq<EntryView> {
    Seq::new(v.len(), |i: int| v[i]@)
}

/// A change on the settings page that needs the configuration.
#[derive(Clone, Debug)]
pub enum SettingsOp {
    Commit(Vec<char>),
    StartEdit,
    CycleBack,
    CycleOn,
    /// Turn a switch over, without a word where that cannot be done.
    Flip,
    PortActivate,
    PortBack,
    PortOn,
    MoveUp(u8),
    MoveDown(u8),
    Save,
    /// Forget the changes made, once they are saved.
    DropDraft,
    PermissionLevel(u8),
}

/// A change on the settings page.
#[verifier::ext_equal]
pub enum SettingsOpView {
    Commit(Seq<char>),
    StartEdit,
    CycleBack,
    CycleOn,
    Flip,
    PortActivate,
    PortBack,
    PortOn,
    MoveUp(u8),
    MoveDown(u8),
    Save,
    /// Forget the changes made, once they are saved.
    DropDraft,
    PermissionLevel(u8),
}

impl View for SettingsOp {
    type V = SettingsOpView;

    open spec fn view(&self) -> SettingsOpView {
        match *self {
            SettingsOp::Commit(s) => SettingsOpView::Commit(s@),
            SettingsOp::StartEdit => SettingsOpView::StartEdit,
            SettingsOp::CycleBack => SettingsOpView::CycleBack,
            SettingsOp::CycleOn => SettingsOpView::CycleOn,
            SettingsOp::Flip => SettingsOpView::Flip,
            SettingsOp::PortActivate => SettingsOpView::PortActivate,
            SettingsOp::PortBack => SettingsOpView::PortBack,
            SettingsOp::PortOn => SettingsOpView::PortOn,
            SettingsOp::MoveUp(n) => SettingsOpView::MoveUp(n),
            SettingsOp::MoveDown(n) => SettingsOpView::MoveDown(n),
            SettingsOp::Save => SettingsOpView::Save,
            SettingsOp::DropDraft => SettingsOpView::DropDraft,
            SettingsOp::PermissionLevel(n) => SettingsOpView::PermissionLevel(n),
        }
    }
}

/// Something the application asks for: work of the daemon, of the clock or of
/// the terminal. The outer loop performs these in order.
#[derive(Debug)]
pub enum Effect {
    /// Fetch a session's snapshot.
    Bootstrap(String),
    /// Resume a session after a new connection, then fetch its snapshot.
    Resume(String),
    /// Attach to a running session, then fetch its snapshot.
    Attach(String),
    /// The sessions whose timelines to follow.
    TrackSeeds(Vec<String>),
    Rebaseline(String),
    FetchSessionList,
    FetchDashboard(String),
    FetchConfig,
    DownloadBody { seed: String, interaction_id: String, content_id: String },
    Upload { seed: String, path: String, media_type: String },
    AskRespond { seed: String, interaction_id: String, answers: Vec<AskAnswer> },
    AskDismiss { seed: String, interaction_id: String },
    PlanRespond {
        seed: String,
        interaction_id: String,
        approved: bool,
        message: Option<String>,
        autonomous: bool,
    },
    PermissionRespond { seed: String, tool_call_id: String, approved: bool, trust_folder: bool },
    CreateSession { command_id: String, cwd: Option<String> },
    DeleteSession(String),
    ArchiveSession(String),
    UnarchiveSession(String),
    UndoTurn { seed: String, turn_id: String },
    UndoLast,
    Compact,
    ToggleMode,
    SendMessage,
    CancelTurn,
    ScrollUp(usize),
    ScrollDown(usize),
    ScrollTop,
    ScrollBottom,
    ClickTab(u16),
    ToggleSettings,
    ToggleToolExpand,
    /// Look at the next subagent.
    InspectNext,
    /// A tool call may have started a subagent.
    DiscoverSubagent { seed: String, tool_call_id: String, tool_name: String },
    RescanSubagents(String),
    Settings(SettingsOp),
    Reconnect,
    /// Write an export; `turn` says that it is of one turn.
    WriteFile { path: String, text: String, turn: bool },
}

/// Something the application asks for.
#[verifier::ext_equal]
pub enum EffectView {
    Bootstrap(Seq<char>),
    Resume(Seq<char>),
    Attach(Seq<char>),
    TrackSeeds(Seq<Seq<char>>),
    Rebaseline(Seq<char>),
    FetchSessionList,
    FetchDashboard(Seq<char>),
    FetchConfig,
    DownloadBody { seed: Seq<char>, interaction_id: Seq<char>, content_id: Seq<char> },
    Upload { seed: Seq<char>, path: Seq<char>, media_type: Seq<char> },
    AskRespond { seed: Seq<char>, interaction_id: Seq<char>, answers: Seq<AnswerView> },
    AskDismiss { seed: Seq<char>, interaction_id: Seq<char> },
    PlanRespond {
        seed: Seq<char>,
        interaction_id: Seq<char>,
        approved: bool,
        message: Option<Seq<char>>,
        autonomous: bool,
    },
    PermissionRespond {
        seed: Seq<char>,
        tool_call_id: Seq<char>,
        approved: bool,
        trust_folder: bool,
    },
    CreateSession { command_id: Seq<char>, cwd: Option<Seq<char>> },
    DeleteSession(Seq<char>),
    ArchiveSession(Seq<char>),
    UnarchiveSession(Seq<char>),
    UndoTurn { seed: Seq<char>, turn_id: Seq<char> },
    UndoLast,
    Compact,
    ToggleMode,
    SendMessage,
    CancelTurn,
    ScrollUp(usize),
    ScrollDown(usize),
    ScrollTop,
    ScrollBottom,
    ClickTab(u16),
    ToggleSettings,
    ToggleToolExpand,
    InspectNext,
    DiscoverSubagent { seed: Seq<char>, tool_call_id: Seq<char>, tool_name: Seq<char> },
    RescanSubagents(Seq<char>),
    Settings(SettingsOpView),
    Reconnect,
    WriteFile { path: Seq<char>, text: Seq<char>, turn: bool },
}

impl View for Effect {
    type V = EffectView;

    open spec fn view(&self) -> EffectView {
        match *self {
            Effect::Bootstrap(s) => EffectView::Bootstrap(s@),
            Effect::Resume(s) => EffectView::Resume(s@),
            Effect::Attach(s) => EffectView::Attach(s@),
            Effect::TrackSeeds(v) => EffectView::TrackSeeds(texts(v@)),
            Effect::Rebaseline(s) => EffectView::Rebaseline(s@),
            Effect::FetchSessionList => EffectView::FetchSessionList,
            Effect::FetchDashboard(s) => EffectView::FetchDashboard(s@),
            Effect::FetchConfig => EffectView::FetchConfig,
            Effect::DownloadBody { seed, interaction_id, content_id } => EffectView::DownloadBody {
                seed: seed@,
                interaction_id: interaction_id@,
                content_id: content_id@,
            },
            Effect::Upload { seed, path, media_type } => EffectView::Upload {
                seed: seed@,
                path: path@,
                media_type: media_type@,
            },
            Effect::AskRespond { seed, interaction_id, answers } => EffectView::AskRespond {
                seed: seed@,
                interaction_id: interaction_id@,
                answers: answers_view(answers@),
            },
            Effect::AskDismiss { seed, interaction_id } => EffectView::AskDismiss {
                seed: seed@,
                interaction_id: interaction_id@,
            },
            Effect::PlanRespond { seed, interaction_id, approved, message, autonomous } =>
                EffectView::PlanRespond {
                seed: seed@,
                interaction_id: interaction_id@,
                approved,
                message: opt_text(message),
                autonomous,
            },
            Effect::PermissionRespond { seed, tool_call_id, approved, trust_folder } =>
                EffectView::PermissionRespond {
                seed: seed@,
                tool_call_id: tool_call_id@,
                approved,
                trust_folder,
            },
            Effect::CreateSession { command_id, cwd } => EffectView::CreateSession {
                command_id: command_id@,
                cwd: opt_text(cwd),
            },
            Effect::DeleteSession(s) => EffectView::DeleteSession(s@),
            Effect::ArchiveSession(s) => EffectView::ArchiveSession(s@),
            Effect::UnarchiveSession(s) => EffectView::UnarchiveSession(s@),
            Effect::UndoTurn { seed, turn_id } => EffectView::UndoTurn {
                seed: seed@,
                turn_id: turn_id@,
            },
            Effect::UndoLast => EffectView::UndoLast,
            Effect::Compact => EffectView::Compact,
            Effect::ToggleMode => EffectView::ToggleMode,
            Effect::SendMessage => EffectView::SendMessage,
            Effect::CancelTurn => EffectView::CancelTurn,
            Effect::ScrollUp(n) => EffectView::ScrollUp(n),
            Effect::ScrollDown(n) => EffectView::ScrollDown(n),
            Effect::ScrollTop => EffectView::ScrollTop,
            Effect::ScrollBottom => EffectView::ScrollBottom,
            Effect::ClickTab(n) => EffectView::ClickTab(n),
            Effect::ToggleSettings => EffectView::ToggleSettings,
            Effect::ToggleToolExpand => EffectView::ToggleToolExpand,
            Effect::InspectNext => EffectView::InspectNext,
            Effect::DiscoverSubagent { seed, tool_call_id, tool_name } =>
                EffectView::DiscoverSubagent {
                seed: seed@,
                tool_call_id: tool_call_id@,
                tool_name: tool_name@,
            },
            Effect::RescanSubagents(s) => EffectView::RescanSubagents(s@),
            Effect::Settings(op) => EffectView::Settings(op@),
            Effect::Reconnect => EffectView::Reconnect,
            Effect::WriteFile { path, text, turn } => EffectView::WriteFile {
                path: path@,
                text: text@,
                turn,
            },
        }
    }
}

/// What is asked for.
pub open spec fn effects_view(v: Seq<Effect>) -> Seq<EffectView> {
    Seq::new(v.len(), |i: int| v[i]@)
}

/// News of the connection.
#[derive(Debug)]
pub enum ConnEvent {
    Opening,
    Ready { epoch: String, epoch_changed: bool },
    Lost(String),
    StreamIssue { stream: StreamKey, error: String },
    StreamRecovered { stream: StreamKey },
}

/// What kind of answer an interaction wants.
#[derive(Clone, Copy, Debug, PartialEq, Eq, Structural)]
pub enum InteractionKind {
    Permission,
    Ask,
    Plan,
}

/// Where the text of an interaction is.
#[derive(Debug)]
pub enum ContentValue {
    Inline(InteractionBody),
    /// To be fetched.
    Ref(String),
    Unavailable,
}

/// The text of an interaction, and the lists in it.
#[derive(Debug)]
pub struct InteractionBody {
    /// The JSON text.
    pub text: String,
    /// Its member `mode`, where that is a mode.
    pub mode: Option<AskMode>,
    /// Its member `questions`, where that is a list of questions.
    pub questions: Option<Vec<AskQuestion>>,
    /// Its member `todo_items`, where that is a list of items.
    pub todo_items: Option<Vec<String>>,
}

/// An interaction that waits for an answer.
#[derive(Debug)]
pub struct PendingInteraction {
    pub interaction_id: String,
    pub call_id: String,
    pub kind: InteractionKind,
    pub request: ContentValue,
}

/// A change of the control state.
#[derive(Debug)]
pub enum ControlDelta {
    SessionCreated,
    Activity(ActivityState),
    InteractionRequested {
        interaction_id: String,
        call_id: Option<String>,
        kind: InteractionKind,
        request: ContentValue,
    },
    InteractionResolved { interaction_id: String },
    InteractionExpired { interaction_id: String },
    ToolFinished { call_id: String },
    SubagentSpawned { child_session_id: String, parent_call_id: String },
    SubagentFinished { child_session_id: String, status: SubagentState },
    Other,
}

/// A change of the conversation.
#[derive(Debug)]
pub enum ConversationDelta {
    TurnStarted { turn_id: String },
    ToolCallDeclared { tool_name: String },
    ToolFinished { call_id: String },
    AssistantBlockSealed { model: String, usage: Option<TokenUsage> },
    TurnFinished { turn_id: String, usage: Option<TokenUsage> },
    TurnInterrupted { turn_id: String },
    CompactionApplied,
    InputAccepted,
}

/// A change of what is known about the session.
#[derive(Debug)]
pub enum MetaDelta {
    TitleChanged { title: String },
    Deleted,
    Other,
}

/// A change that an event carries.
#[derive(Debug)]
pub enum V2Payload {
    ControlDelta(ControlDelta),
    ConversationDelta(ConversationDelta),
    MetaDelta(MetaDelta),
    /// Timelines and resources have streams of their own.
    Other,
}

/// A step of a timeline: the timeline after it, and what it was about.
#[derive(Debug)]
pub struct TimelineStep {
    pub timeline: TimelineModel,
    /// The tool call it updated: its id and name.
    pub tool: Option<(String, String)>,
    /// It sealed a turn.
    pub turn_sealed: bool,
    /// The turn that it ended.
    pub terminal: Option<String>,
}

/// News from the daemon.
#[derive(Debug)]
pub enum RuntimeMsg {
    Conn(ConnEvent),
    V2Event { seed: String, causation_id: Option<String>, payload: V2Payload },
    V2StreamOpen { seed: String },
    ResetRequired { seed: String },
    Timeline { seed: String, step: TimelineStep },
    TimelineRebaseline { seed: String, timeline: TimelineModel },
    TimelineLost { seed: String, reason: TimelineLostReason },
}

/// A session's snapshot.
#[derive(Debug)]
pub struct SessionBootstrap {
    pub activity: ActivityState,
    pub model: Option<String>,
    pub usage: Option<TokenUsage>,
    pub interactions: Vec<PendingInteraction>,
}

/// Whether a command was taken.
#[derive(Clone, Copy, Debug, PartialEq, Eq, Structural)]
pub enum AckStatus {
    Accepted,
    Rejected,
}

/// The daemon's first answer to a command.
#[derive(Debug)]
pub struct CommandAck {
    pub command_id: String,
    pub status: AckStatus,
    pub code: Option<String>,
    pub message: Option<String>,
}

/// How far a command is.
#[derive(Clone, Copy, Debug, PartialEq, Eq, Structural)]
pub enum CommandState {
    Accepted,
    Running,
    Succeeded,
    Failed,
    Rejected,
}

/// The outcome of something that was asked for.
#[derive(Debug)]
pub enum ActionResult {
    Bootstrap { seed: String, result: Result<SessionBootstrap, String> },
    InteractionBody {
        seed: String,
        interaction_id: String,
        result: Result<InteractionBody, String>,
    },
    CommandAck { seed: Option<String>, label: String, result: Result<CommandAck, String> },
    SessionList(Result<Vec<SessionListEntry>, String>),
    SessionActivity(Result<Vec<(String, ActivityState)>, String>),
    /// The configuration, as JSON text.
    ConfigLoaded(Result<String, String>),
    /// The configuration came, but could not be read.
    ConfigUnreadable(String),
    ConfigWrite { label: String, result: Result<(), String> },
    Uploaded { seed: String, path: String, result: Result<ContentRef, String> },
    Rebaseline { seed: String, result: Result<TimelineModel, String> },
    LoadOlder { seed: String, result: Result<TimelineModel, String> },
    Receipt { label: String, seed: Option<String>, result: Result<CommandState, String> },
    Dashboard { seed: String, result: Result<Dashboard, String> },
    /// An export was written, or not.
    Written { path: String, turn: bool, result: Result<(), String> },
}

/// What the mouse did.
#[derive(Clone, Copy, Debug, PartialEq, Eq, Structural)]
pub enum MouseKind {
    ScrollUp,
    ScrollDown,
    LeftDown,
    Other,
}

/// What the mouse did, and where.
#[derive(Clone, Copy, Debug, PartialEq, Eq, Structural)]
pub struct MouseEvent {
    pub kind: MouseKind,
    pub column: u16,
    pub row: u16,
}

/// What reaches the application.
#[derive(Debug)]
pub enum AppMsg {
    Runtime(RuntimeMsg),
    Action(ActionResult),
    Key(KeyEvent),
    Mouse(MouseEvent),
    Paste(String),
    Resize,
    Tick,
}

} // verus!
