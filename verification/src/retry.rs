//! Waiting for the daemon: when to go on and when to give up.

use crate::message::CommandState;
use crate::text::{cat2, cat3, opt_text};
use vstd::prelude::*;

verus! {

/// How long an answer to an interaction may take, in seconds.
pub const INTERACTION_ACK_TIMEOUT: u64 = 10;

/// How often a session's snapshot is asked for while the session is not there
/// yet.
pub const BOOTSTRAP_TRIES: u32 = 120;

/// What a command's state means for whoever waits for it.
#[derive(Debug)]
pub enum PollStep {
    Done,
    Failed(String),
    Wait,
}

/// What a command's state means for whoever waits for it.
pub fn poll_step(state: CommandState, error_code: &Option<String>) -> (r: PollStep)
    ensures
        match r {
            PollStep::Done => state is Succeeded,
            PollStep::Failed(text) => {
                &&& state is Failed || state is Rejected
                &&& text@ == "命令未成功："@ + match *error_code {
                    Some(c) => c@,
                    None => "command_failed"@,
                }
            },
            PollStep::Wait => state is Accepted || state is Running,
        },
{
    match state {
        CommandState::Succeeded => PollStep::Done,
        CommandState::Failed => PollStep::Failed(failure_text(error_code)),
        CommandState::Rejected => PollStep::Failed(failure_text(error_code)),
        CommandState::Accepted => PollStep::Wait,
        CommandState::Running => PollStep::Wait,
    }
}

fn failure_text(error_code: &Option<String>) -> (r: String)
    ensures
        r@ == "命令未成功："@ + match *error_code {
            Some(c) => c@,
            None => "command_failed"@,
        },
{
    match error_code {
        Some(c) => cat2("命令未成功：", c.as_str()),
        None => cat2("命令未成功：", "command_failed"),
    }
}

/// What is said when an answer took too long.
pub fn timeout_text() -> (r: String)
    ensures
        r@ == "应答超时（"@ + crate::text::dec(INTERACTION_ACK_TIMEOUT as nat)
            + "s 未收到 daemon 确认）"@,
{
    let n = crate::text::dec_u64(INTERACTION_ACK_TIMEOUT);
    cat3("应答超时（", n.as_str(), "s 未收到 daemon 确认）")
}

/// Asking for a snapshot: how often that failed because the session was not
/// there yet.
#[derive(Debug)]
pub struct BootstrapRetry {
    pub tried: u32,
}

impl BootstrapRetry {
    /// Nothing asked for yet.
    pub fn new() -> (r: Self)
        ensures
            r.tried == 0,
    {
        BootstrapRetry { tried: 0 }
    }

    /// The snapshot did not come. `None` says to ask again after a while;
    /// else it is given up, for the reason in the result. Only a session that
    /// is not there yet is asked for again, and not forever.
    pub fn failed(&mut self, error: String, not_ready: bool) -> (r: Option<String>)
        requires
            old(self).tried < BOOTSTRAP_TRIES,
        ensures
            opt_text(r) == if !not_ready {
                Some(error@)
            } else if old(self).tried + 1 >= BOOTSTRAP_TRIES {
                Some(
                    "bootstrap: 会话未在预期时间内物化（最后一次："@ + error@ + "）"@,
                )
            } else {
                None
            },
            final(self).tried == old(self).tried + if not_ready {
                1int
            } else {
                0
            },
            r is None ==> final(self).tried < BOOTSTRAP_TRIES,
    {
        if !not_ready {
            return Some(error);
        }
        self.tried = self.tried + 1;
        if self.tried >= BOOTSTRAP_TRIES {
            Some(
                cat3(
                    "bootstrap: 会话未在预期时间内物化（最后一次：",
                    error.as_str(),
                    "）",
                ),
            )
        } else {
            None
        }
    }
}

} // verus!
