//! The plan dialog and the permission dialog.

use crate::keymap::{KeyCode, KeyEvent};
use crate::text::{blank, chars_of, is_blank, opt_text, string_of, texts, trim, trimmed};
use vstd::prelude::*;

verus! {

/// A plan to be approved or rejected.
#[derive(Debug)]
pub struct PlanPanel {
    pub interaction_id: String,
    pub turn_id: String,
    pub plan_content: String,
    pub review_type: String,
    pub todo_items: Vec<String>,
    /// Why the plan is rejected.
    pub message: String,
    pub entering_message: bool,
    pub scroll: usize,
}

/// A plan to be approved or rejected.
#[verifier::ext_equal]
pub struct PlanView {
    pub interaction_id: Seq<char>,
    pub turn_id: Seq<char>,
    pub plan_content: Seq<char>,
    pub review_type: Seq<char>,
    pub todo_items: Seq<Seq<char>>,
    pub message: Seq<char>,
    pub entering: bool,
    pub scroll: usize,
}

impl View for PlanPanel {
    type V = PlanView;

    open spec fn view(&self) -> PlanView {
        PlanView {
            interaction_id: self.interaction_id@,
            turn_id: self.turn_id@,
            plan_content: self.plan_content@,
            review_type: self.review_type@,
            todo_items: texts(self.todo_items@),
            message: self.message@,
            entering: self.entering_message,
            scroll: self.scroll,
        }
    }
}

/// What a key does in the plan dialog.
#[derive(Clone, Copy, Debug, PartialEq, Eq, Structural)]
pub enum PlanDecision {
    Approve,
    ApproveAuto,
    StartReject,
    ScrollUp(usize),
    ScrollDown(usize),
    EditChar(char),
    EditBackspace,
    SubmitReject,
    CancelEdit,
    Ignore,
}

/// What a key does in the plan dialog.
pub open spec fn plan_decision(entering: bool, key: KeyEvent) -> PlanDecision {
    if entering {
        match key.code {
            KeyCode::Enter => PlanDecision::SubmitReject,
            KeyCode::Esc => PlanDecision::CancelEdit,
            KeyCode::Backspace => PlanDecision::EditBackspace,
            KeyCode::Char(c) => if !key.modifiers.control {
                PlanDecision::EditChar(c)
            } else {
                PlanDecision::Ignore
            },
            _ => PlanDecision::Ignore,
        }
    } else {
        match key.code {
            KeyCode::Char(c) => if c == 'a' {
                PlanDecision::Approve
            } else if c == 'g' {
                PlanDecision::ApproveAuto
            } else if c == 'r' {
                PlanDecision::StartReject
            } else {
                PlanDecision::Ignore
            },
            KeyCode::Up => PlanDecision::ScrollUp(3),
            KeyCode::Down => PlanDecision::ScrollDown(3),
            KeyCode::PageUp => PlanDecision::ScrollUp(20),
            KeyCode::PageDown => PlanDecision::ScrollDown(20),
            _ => PlanDecision::Ignore,
        }
    }
}

/// What a key does in the plan dialog.
pub fn decide_plan(entering: bool, key: KeyEvent) -> (d: PlanDecision)
    ensures
        d == plan_decision(entering, key),
{
    if entering {
        match key.code {
            KeyCode::Enter => PlanDecision::SubmitReject,
            KeyCode::Esc => PlanDecision::CancelEdit,
            KeyCode::Backspace => PlanDecision::EditBackspace,
            KeyCode::Char(c) if !key.modifiers.control => PlanDecision::EditChar(c),
            _ => PlanDecision::Ignore,
        }
    } else {
        match key.code {
            KeyCode::Char('a') => PlanDecision::Approve,
            KeyCode::Char('g') => PlanDecision::ApproveAuto,
            KeyCode::Char('r') => PlanDecision::StartReject,
            KeyCode::Up => PlanDecision::ScrollUp(3),
            KeyCode::Down => PlanDecision::ScrollDown(3),
            KeyCode::PageUp => PlanDecision::ScrollUp(20),
            KeyCode::PageDown => PlanDecision::ScrollDown(20),
            _ => PlanDecision::Ignore,
        }
    }
}

/// The plan dialog after a decision that does not answer it.
pub open spec fn plan_applied(v: PlanView, d: PlanDecision) -> PlanView {
    match d {
        PlanDecision::StartReject => PlanView { entering: true, ..v },
        PlanDecision::ScrollUp(n) => PlanView {
            scroll: if v.scroll >= n {
                (v.scroll - n) as usize
            } else {
                0
            },
            ..v
        },
        PlanDecision::ScrollDown(n) => PlanView {
            scroll: if v.scroll + n <= usize::MAX {
                (v.scroll + n) as usize
            } else {
                usize::MAX
            },
            ..v
        },
        PlanDecision::EditChar(c) => PlanView { message: v.message.push(c), ..v },
        PlanDecision::EditBackspace => PlanView {
            message: if v.message.len() > 0 {
                v.message.drop_last()
            } else {
                v.message
            },
            ..v
        },
        PlanDecision::CancelEdit => PlanView { entering: false, message: Seq::empty(), ..v },
        _ => v,
    }
}

/// The reason sent with an answer to a plan.
pub open spec fn plan_message(v: PlanView, approved: bool) -> Option<Seq<char>> {
    if approved || blank(v.message) {
        None
    } else {
        Some(trim(v.message))
    }
}

impl PlanPanel {
    /// Does what was decided, where that does not answer the dialog.
    pub fn apply(&mut self, d: PlanDecision)
        ensures
            final(self)@ == plan_applied(old(self)@, d),
    {
        let ghost v = self@;
        match d {
            PlanDecision::StartReject => {
                self.entering_message = true;
            },
            PlanDecision::ScrollUp(n) => {
                self.scroll = self.scroll.saturating_sub(n);
            },
            PlanDecision::ScrollDown(n) => {
                self.scroll = self.scroll.saturating_add(n);
            },
            PlanDecision::EditChar(c) => {
                self.message.push(c);
            },
            PlanDecision::EditBackspace => {
                let chars = chars_of(self.message.as_str());
                let n: usize = chars.len();
                if n > 0 {
                    self.message = string_of(&chars, 0, n - 1);
                    assert(self.message@ =~= v.message.drop_last());
                }
            },
            PlanDecision::CancelEdit => {
                self.entering_message = false;
                self.message = String::new();
                assert(self.message@ =~= Seq::empty());
            },
            PlanDecision::Approve => {},
            PlanDecision::ApproveAuto => {},
            PlanDecision::SubmitReject => {},
            PlanDecision::Ignore => {},
        }
        assert(self@ =~= plan_applied(v, d));
    }

    /// The reason to send with the answer.
    pub fn answer_message(&self, approved: bool) -> (r: Option<String>)
        ensures
            opt_text(r) == plan_message(self@, approved),
    {
        if approved || is_blank(self.message.as_str()) {
            None
        } else {
            Some(trimmed(self.message.as_str()))
        }
    }
}

/// How risky a tool call is.
#[derive(Clone, Copy, Debug, PartialEq, Eq, Structural)]
pub enum PermissionRisk {
    Low,
    Medium,
    High,
}

/// A tool call that needs the user's permission.
#[derive(Debug)]
pub struct PermissionPanel {
    pub tool_call_id: String,
    pub tool_name: String,
    pub risk: PermissionRisk,
    pub paths: Vec<String>,
    pub trust_folder: bool,
}

/// A tool call that needs the user's permission.
#[verifier::ext_equal]
pub struct PermissionView {
    pub tool_call_id: Seq<char>,
    pub tool_name: Seq<char>,
    pub risk: PermissionRisk,
    pub paths: Seq<Seq<char>>,
    pub trust_folder: bool,
}

impl View for PermissionPanel {
    type V = PermissionView;

    open spec fn view(&self) -> PermissionView {
        PermissionView {
            tool_call_id: self.tool_call_id@,
            tool_name: self.tool_name@,
            risk: self.risk,
            paths: texts(self.paths@),
            trust_folder: self.trust_folder,
        }
    }
}

/// Tool calls that need permission.
pub open spec fn permissions_view(v: Seq<PermissionPanel>) -> Seq<PermissionView> {
    Seq::new(v.len(), |i: int| v[i]@)
}

/// What a key does in the permission dialog.
#[derive(Clone, Copy, Debug, PartialEq, Eq, Structural)]
pub enum PermissionDecision {
    Approve,
    Deny,
    ToggleTrust,
    Ignore,
}

/// What a key does in the permission dialog. Trusting a folder is offered for
/// risky calls that name paths only.
pub open spec fn permission_decision(p: PermissionView, code: KeyCode) -> PermissionDecision {
    match code {
        KeyCode::Char(c) => if c == 'a' {
            PermissionDecision::Approve
        } else if c == 'd' {
            PermissionDecision::Deny
        } else if c == 't' && p.risk is High && p.paths.len() > 0 {
            PermissionDecision::ToggleTrust
        } else {
            PermissionDecision::Ignore
        },
        KeyCode::Esc => PermissionDecision::Deny,
        _ => PermissionDecision::Ignore,
    }
}

impl PermissionPanel {
    /// What a key does.
    pub fn decide(&self, code: KeyCode) -> (d: PermissionDecision)
        ensures
            d == permission_decision(self@, code),
    {
        match code {
            KeyCode::Char('a') => PermissionDecision::Approve,
            KeyCode::Char('d') => PermissionDecision::Deny,
            KeyCode::Esc => PermissionDecision::Deny,
            KeyCode::Char('t') if self.risk == PermissionRisk::High && self.paths.len() > 0 =>
                PermissionDecision::ToggleTrust,
            _ => PermissionDecision::Ignore,
        }
    }
}

} // verus!
