//! How the pages of a question dialog are turned, and how turns are numbered.

use crate::ask::{ask_applied, ask_decision, fresh_ask, AskMode, AskQuestion, AskView};
use crate::keymap::{KeyCode, KeyEvent};
use crate::timeline::TimelineModel;
use vstd::prelude::*;

verus! {

/// Nothing is sent, and no answer differs.
pub open spec fn only_moved(v: AskView, after: (AskView, bool)) -> bool {
    &&& !after.1
    &&& after.0.selections == v.selections
    &&& after.0.customs == v.customs
    &&& after.0.questions == v.questions
    &&& after.0.interaction_id == v.interaction_id
    &&& after.0.editing == v.editing
}

/// The arrows turn the pages one by one, and stop at the first and the last;
/// the paging keys scroll within a page. None of them answers anything.
pub proof fn law_pages_are_turned(v: AskView, key: KeyEvent)
    requires
        v.ok(),
        v.questions.len() > 0,
        v.editing is None,
    ensures
        ({
            let after = ask_applied(v, ask_decision(v, key));
            let w = after.0;
            let n = v.questions.len();
            &&& (key.code is Right || key.code is Tab) ==> only_moved(v, after) && w.focus == (
            if v.focus + 1 < n {
                v.focus + 1
            } else {
                v.focus
            })
            &&& (key.code is Left || key.code is BackTab) ==> only_moved(v, after) && w.focus == (
            if v.focus > 0 {
                v.focus - 1
            } else {
                0
            })
            &&& (key.code is Left || key.code is Right) ==> w.scroll == 0 && w.cursors == v.cursors
            &&& (key.code is PageUp || key.code is PageDown) ==> only_moved(v, after) && w.focus
                == v.focus && w.cursors == v.cursors
            &&& key.code is PageUp ==> w.scroll <= v.scroll
            &&& key.code is PageDown ==> w.scroll >= v.scroll
        }),
{
}

/// While a free answer is typed, each character is added at its end, deleting
/// takes the last one, and escape drops what was typed: the answer given before
/// stays.
pub proof fn law_free_answer_is_edited(v: AskView, key: KeyEvent, c: char)
    requires
        v.ok(),
        v.questions.len() > 0,
        v.editing is Some,
    ensures
        ({
            let after = ask_applied(v, ask_decision(v, key));
            let w = after.0;
            &&& (key.code == KeyCode::Char(c) && 'a' <= c <= 'z') ==> {
                &&& w.input == v.input.push(c)
                &&& w.editing == v.editing
                &&& !after.1
            }
            &&& (key.code is Backspace && v.input.len() > 0) ==> w.input == v.input.drop_last()
                && w.editing == v.editing && !after.1
            &&& key.code is Esc ==> {
                &&& w.editing is None
                &&& w.selections == v.selections
                &&& w.customs == v.customs
                &&& !after.1
            }
        }),
{
}

/// A dialog starts on its first question, with nothing answered.
pub proof fn law_dialog_starts_unanswered(
    id: Seq<char>,
    turn_id: Seq<char>,
    mode: AskMode,
    questions: Seq<AskQuestion>,
    q: int,
)
    requires
        0 <= q < questions.len(),
    ensures
        ({
            let v = fresh_ask(id, turn_id, mode, questions);
            &&& v.interaction_id == id
            &&& v.questions == questions
            &&& v.focus == 0
            &&& v.selections[q] is None
            &&& v.customs[q].len() == 0
            &&& v.editing is None
            &&& v.ok()
        }),
{
}

/// Turns are counted from one over the whole session, those that were dropped
/// included; two turns in a row have numbers in a row.
pub proof fn law_turns_are_counted(m: TimelineModel, idx: int)
    requires
        0 <= idx < m.turns@.len(),
        m.dropped_turns + m.turns@.len() < u64::MAX,
    ensures
        m.number(idx) == m.dropped_turns + idx + 1,
        m.number(idx + 1) == m.number(idx) + 1,
        m.total() == m.dropped_turns + m.turns@.len(),
{
}

} // verus!
