//! What answering a dialog does: the answer sent is the one given.

use crate::app::{index_from, AppView};
use crate::approval::{PermissionView, PlanView};
use crate::ask::{AnswerView, AskView};
use crate::keymap::{KeyCode, KeyEvent, ModalRoute};
use crate::message::EffectView;
use crate::session::{unqueued, SessionView};
use crate::text::{blank, dec, occurs, occurs_at, trim};
use vstd::prelude::*;

verus! {

/// Session `i` is the one shown.
pub open spec fn shows_session(v: AppView, i: int) -> bool {
    v.active_at() == Some(i) && 0 <= i < v.sessions.len()
}

/// Everything but session `i`, the effects and the answers noted is the same.
pub open spec fn only_answered(v: AppView, w: AppView, i: int) -> bool {
    &&& w == (AppView {
        sessions: w.sessions,
        effects: w.effects,
        suppressed: w.suppressed,
        ..v
    })
    &&& w.sessions.len() == v.sessions.len()
    &&& forall|j: int| 0 <= j < v.sessions.len() && j != i ==> #[trigger] w.sessions[j] == v.sessions[j]
}

proof fn lemma_index_put(v: Seq<SessionView>, i: int, s: SessionView, seed: Seq<char>, k: int)
    requires
        0 <= i < v.len(),
        s.seed == v[i].seed,
        0 <= k,
    ensures
        index_from(v.update(i, s), seed, k) == index_from(v, seed, k),
    decreases v.len() - k,
{
    if k < v.len() {
        lemma_index_put(v, i, s, seed, k + 1);
    }
}

/// The dialogs of a session come one after the other: permissions first, then
/// the questions, then the plan; without any, none takes the keys.
pub proof fn law_permission_comes_first(v: AppView, i: int)
    requires
        shows_session(v, i),
    ensures
        ({
            let s = v.sessions[i];
            &&& (v.modal() == Some(ModalRoute::Permission)) == (s.permissions.len() > 0)
            &&& (v.modal() == Some(ModalRoute::Ask)) == (s.permissions.len() == 0 && s.ask is Some)
            &&& (v.modal() == Some(ModalRoute::Plan)) == (s.permissions.len() == 0 && s.ask is None
                && s.plan is Some)
        }),
{
}

/// While a dialog waits it gets every key but the two that end the program.
pub proof fn law_dialog_gets_the_keys(v: AppView, key: KeyEvent)
    requires
        v.modal() is Some,
        !(key.modifiers.control && (key.code == KeyCode::Char('c') || key.code == KeyCode::Char('q'))),
    ensures
        v.pressed(key) == v.tapped().modal_keyed(key),
        v.tapped().sessions == v.sessions,
        v.tapped().effects == v.effects,
        v.tapped().active_at() == v.active_at(),
{
    let t = v.tapped();
    assert(t.modal() == v.modal());
    assert(t.modal() is Some);
}

/// The answer to the first waiting permission was sent, and it waits no more.
pub open spec fn permission_sent(v: AppView, w: AppView, i: int, approved: bool) -> bool {
    let p = v.sessions[i].permissions[0];
    &&& w.effects.len() == v.effects.len() + 1
    &&& w.effects.drop_last() == v.effects
    &&& w.effects.last() == (EffectView::PermissionRespond {
        seed: v.sessions[i].seed,
        tool_call_id: p.tool_call_id,
        approved,
        trust_folder: p.trust_folder,
    })
    &&& forall|k: int|
        0 <= k < w.sessions[i].permissions.len() ==> (
        #[trigger] w.sessions[i].permissions[k]).tool_call_id != p.tool_call_id
    &&& w.sessions[i].ask == v.sessions[i].ask && w.sessions[i].plan == v.sessions[i].plan
    &&& w.suppressed.contains(p.tool_call_id)
}

proof fn lemma_unqueued(v: Seq<PermissionView>, id: Seq<char>)
    ensures
        forall|k: int|
            0 <= k < unqueued(v, id).len() ==> (#[trigger] unqueued(v, id)[k]).tool_call_id != id,
        forall|k: int|
            0 <= k < v.len() && (#[trigger] v[k]).tool_call_id != id ==> unqueued(v, id).contains(
                v[k],
            ),
    decreases v.len(),
{
    if v.len() > 0 {
        let rest = v.drop_last();
        lemma_unqueued(rest, id);
        let r = unqueued(rest, id);
        let u = unqueued(v, id);
        assert forall|k: int| 0 <= k < v.len() && (#[trigger] v[k]).tool_call_id != id implies u.contains(
            v[k],
        ) by {
            if k < v.len() - 1 {
                assert(rest[k] == v[k]);
                assert(r.contains(v[k]));
                let j = choose|j: int| 0 <= j < r.len() && r[j] == v[k];
                assert(u[j] == v[k]);
            } else {
                assert(u[u.len() - 1] == v[k]);
            }
        }
    }
}

/// With a permission waiting, 'a' allows the first call and 'd' or Esc refuses
/// it: exactly one answer is sent, for that call, and no other key sends
/// anything; 't' turns the trust in the folder round where the call is risky and
/// names paths, and any other key does nothing.
pub proof fn law_permission_keys_answer(v: AppView, i: int, key: KeyEvent)
    requires
        shows_session(v, i),
        v.sessions[i].permissions.len() > 0,
    ensures
        ({
            let w = v.modal_keyed(key);
            let p = v.sessions[i].permissions[0];
            let offered = p.risk is High && p.paths.len() > 0;
            &&& only_answered(v, w, i)
            &&& key.code == KeyCode::Char('a') ==> permission_sent(v, w, i, true)
            &&& key.code == KeyCode::Char('d') || key.code is Esc ==> permission_sent(v, w, i, false)
            &&& key.code != KeyCode::Char('a') && key.code != KeyCode::Char('d') && !(key.code is Esc)
                ==> w.effects == v.effects
            &&& key.code == KeyCode::Char('t') && offered ==> {
                &&& w.sessions[i].permissions.len() == v.sessions[i].permissions.len()
                &&& w.sessions[i].permissions[0].trust_folder == !p.trust_folder
                &&& w.sessions[i].permissions[0].tool_call_id == p.tool_call_id
                &&& w.sessions[i].permissions.skip(1) == v.sessions[i].permissions.skip(1)
            }
            &&& key.code != KeyCode::Char('a') && key.code != KeyCode::Char('d') && !(key.code is Esc)
                && !(key.code == KeyCode::Char('t') && offered) ==> w == v
        }),
{
    let w = v.modal_keyed(key);
    let p = v.sessions[i].permissions[0];
    lemma_unqueued(v.sessions[i].permissions, p.tool_call_id);
    assert(v.modal() == Some(ModalRoute::Permission));
    assert(v.session_at(v.active_seed()->0) == Some(i));
    if key.code == KeyCode::Char('a') || key.code == KeyCode::Char('d') || key.code is Esc {
        assert(w.effects.drop_last() =~= v.effects);
        if !v.suppressed.contains(p.tool_call_id) {
            assert(w.suppressed[v.suppressed.len() as int] == p.tool_call_id);
        }
    } else if key.code == KeyCode::Char('t') {
        assert(w.sessions[i].permissions.skip(1) =~= v.sessions[i].permissions.skip(1));
    }
}

/// Calls other than the one answered keep waiting.
pub proof fn law_other_permissions_wait(v: AppView, i: int, approved: bool, k: int)
    requires
        shows_session(v, i),
        0 < k < v.sessions[i].permissions.len(),
        v.sessions[i].permissions[k].tool_call_id != v.sessions[i].permissions[0].tool_call_id,
    ensures
        v.permission_answered(approved).sessions[i].permissions.contains(
            v.sessions[i].permissions[k],
        ),
{
    lemma_unqueued(v.sessions[i].permissions, v.sessions[i].permissions[0].tool_call_id);
}

/// The answers that were sent: for every question its id, and what was typed, or
/// else the option that was chosen.
pub open spec fn answers_of(a: AskView, answers: Seq<AnswerView>) -> bool {
    &&& answers.len() == a.questions.len()
    &&& forall|q: int|
        0 <= q < a.questions.len() ==> {
            let r = #[trigger] answers[q];
            &&& r.question_id == a.questions[q].id@
            &&& !blank(a.customs[q]) ==> r.answer == a.customs[q]
            &&& blank(a.customs[q]) ==> (a.selections[q] matches Some(o)
                && r.answer == a.questions[q].options@[o as int]@)
        }
}

/// The answers of dialog `a` were sent, and the dialog is gone.
pub open spec fn ask_sent(v: AppView, w: AppView, i: int, a: AskView) -> bool {
    &&& w.effects.len() == v.effects.len() + 1
    &&& w.effects.drop_last() == v.effects
    &&& w.effects.last() matches EffectView::AskRespond { seed, interaction_id, answers }
    &&& seed == v.sessions[i].seed
    &&& interaction_id == a.interaction_id
    &&& answers_of(a, answers)
    &&& w.sessions[i].ask is None
    &&& w.sessions[i].plan == v.sessions[i].plan
    &&& w.suppressed.contains(a.interaction_id)
}

/// A question without an answer was pointed out: the first one, by its number.
pub open spec fn missing_shown(w: AppView, i: int, a: AskView, q: int) -> bool {
    &&& 0 <= q < a.questions.len()
    &&& a.selections[q] is None && blank(a.customs[q])
    &&& forall|k: int|
        0 <= k < q ==> (#[trigger] a.selections[k]) is Some || !blank(a.customs[k])
    &&& w.sessions[i].ask matches Some(n)
    &&& n.focus == q
    &&& n.selections == a.selections && n.customs == a.customs
    &&& n.error matches Some(e)
    &&& occurs(e, dec((q + 1) as nat))
}

proof fn lemma_missing(a: AskView, from: int)
    requires
        a.ok(),
        0 <= from,
    ensures
        a.missing_from(from) matches Some(q) ==> from <= q < a.questions.len() && a.selections[q] is None
            && blank(a.customs[q]) && forall|k: int|
            from <= k < q ==> (#[trigger] a.selections[k]) is Some || !blank(a.customs[k]),
        a.missing_from(from) is None ==> forall|k: int|
            from <= k < a.questions.len() ==> (#[trigger] a.selections[k]) is Some || !blank(
                a.customs[k],
            ),
    decreases a.questions.len() - from,
{
    if from < a.questions.len() && a.answered(from) {
        lemma_missing(a, from + 1);
    }
}

/// Sending the answers sends each as it was given, where every question has one;
/// else the first without one is pointed out and nothing is sent.
pub proof fn law_answers_are_sent_as_given(v: AppView, i: int, a: AskView)
    requires
        shows_session(v, i),
        v.sessions[i].ask == Some(a),
        a.ok(),
    ensures
        ({
            let w = v.ask_submitted();
            let open = exists|q: int|
                0 <= q < a.questions.len() && (#[trigger] a.selections[q]) is None && blank(a.customs[q]);
            &&& only_answered(v, w, i)
            &&& !open ==> ask_sent(v, w, i, a)
            &&& open ==> w.effects == v.effects && exists|q: int| missing_shown(w, i, a, q)
        }),
{
    let w = v.ask_submitted();
    lemma_missing(a, 0);
    match a.missing_from(0) {
        None => {
            assert(w.effects.drop_last() =~= v.effects);
            if !v.suppressed.contains(a.interaction_id) {
                assert(w.suppressed[v.suppressed.len() as int] == a.interaction_id);
            }
        },
        Some(q) => {
            let e = w.sessions[i].ask->0.error->0;
            let d = dec((q + 1) as nat);
            let at = "第 "@.len() as int;
            assert(e.subrange(at, at + d.len()) =~= d);
            assert(occurs_at(e, d, at));
            assert(missing_shown(w, i, a, q));
        },
    }
}

/// The option that was chosen for the question shown, with no typed answer to it.
pub open spec fn chose(a: AskView, n: AskView, o: usize) -> bool {
    &&& n.selections == a.selections.update(a.focus, Some(o))
    &&& n.customs == a.customs.update(a.focus, Seq::empty())
    &&& n.questions == a.questions
    &&& n.interaction_id == a.interaction_id
}

/// A digit chooses the option of that number: the dialog goes on to the next
/// question, or at the last one sends all answers.
pub proof fn law_digit_chooses_its_option(v: AppView, i: int, key: KeyEvent, c: char)
    requires
        shows_session(v, i),
        v.modal() == Some(ModalRoute::Ask),
        v.sessions[i].ask->0.ok(),
        v.sessions[i].ask->0.editing is None,
        key.code == KeyCode::Char(c),
        key.modifiers.bare(),
        '1' <= c <= '9',
        v.sessions[i].ask->0.questions.len() > 0,
        (c as int - '1' as int) < v.sessions[i].ask->0.questions[v.sessions[i].ask->0.focus].options@.len(),
    ensures
        ({
            let w = v.modal_keyed(key);
            let a = v.sessions[i].ask->0;
            let o = (c as int - '1' as int) as usize;
            &&& only_answered(v, w, i)
            &&& a.focus + 1 < a.questions.len() ==> w.effects == v.effects
                && (w.sessions[i].ask matches Some(n) && chose(a, n, o) && n.focus == a.focus + 1)
            &&& a.focus + 1 >= a.questions.len() ==> exists|n: AskView|
                {
                    &&& #[trigger] chose(a, n, o)
                    &&& ask_sent(v, w, i, n) || (w.effects == v.effects && exists|q: int|
                        missing_shown(w, i, n, q))
                }
        }),
{
    let a = v.sessions[i].ask->0;
    let o = (c as int - '1' as int) as usize;
    let n = a.selected(a.focus, o).next_page();
    assert(v.session_at(v.active_seed()->0) == Some(i));
    let s = SessionView { ask: Some(n), ..v.sessions[i] };
    lemma_index_put(v.sessions, i, s, v.active_seed()->0, 0);
    let x = v.put_ask(i, Some(n));
    assert(x.active_at() == Some(i));
    if a.focus + 1 >= a.questions.len() {
        assert(chose(a, n, o));
        assert(n.ok());
        law_answers_are_sent_as_given(x, i, n);
        let w = v.modal_keyed(key);
        assert(w == x.ask_submitted());
        assert forall|j: int| 0 <= j < v.sessions.len() && j != i implies #[trigger] w.sessions[j]
            == v.sessions[j] by {
            assert(w.sessions[j] == x.sessions[j]);
        }
        if ask_sent(x, w, i, n) {
            assert(ask_sent(v, w, i, n));
        }
    }
}

/// The letters from a to i choose like the digits from 1 to 9, but for e and g,
/// which mean something else.
pub proof fn law_letters_choose_like_digits(a: AskView, key: KeyEvent, digit: KeyEvent, c: char, d: char)
    requires
        a.ok(),
        a.editing is None,
        a.questions.len() > 0,
        key.code == KeyCode::Char(c),
        digit.code == KeyCode::Char(d),
        key.modifiers.bare(),
        digit.modifiers.bare(),
        'a' <= c <= 'i',
        c != 'e',
        c != 'g',
        '1' <= d <= '9',
        c as int - 'a' as int == d as int - '1' as int,
    ensures
        crate::ask::ask_decision(a, key) == crate::ask::ask_decision(a, digit),
{
}

/// Enter chooses the option that is marked, like the digit of its number; on the
/// row for a free answer it begins to type one.
pub proof fn law_enter_chooses_the_mark(a: AskView, key: KeyEvent, digit: KeyEvent, d: char)
    requires
        a.ok(),
        a.editing is None,
        a.questions.len() > 0,
        key.code is Enter,
        digit.code == KeyCode::Char(d),
        digit.modifiers.bare(),
        '1' <= d <= '9',
        a.cursors[a.focus] == d as int - '1' as int,
        a.cursors[a.focus] < a.questions[a.focus].options@.len(),
    ensures
        crate::ask::ask_decision(a, key) == crate::ask::ask_decision(a, digit),
{
}

/// Up and down move the mark by one row and never past the rows there are; no
/// answer changes, and nothing is sent.
pub proof fn law_arrows_move_the_mark(v: AppView, i: int, key: KeyEvent)
    requires
        shows_session(v, i),
        v.modal() == Some(ModalRoute::Ask),
        v.sessions[i].ask->0.ok(),
        v.sessions[i].ask->0.editing is None,
        v.sessions[i].ask->0.questions.len() > 0,
        key.code is Up || key.code is Down,
        key.modifiers.bare(),
    ensures
        ({
            let w = v.modal_keyed(key);
            let a = v.sessions[i].ask->0;
            let q = a.questions[a.focus];
            let rows = q.options@.len() + if q.allow_custom {
                1int
            } else {
                0
            };
            let at = a.cursors[a.focus] as int;
            &&& only_answered(v, w, i)
            &&& w.effects == v.effects
            &&& w.sessions[i].ask matches Some(n)
            &&& n.selections == a.selections && n.customs == a.customs && n.focus == a.focus
            &&& key.code is Down && at + 1 < rows ==> n.cursors[a.focus] == at + 1
            &&& key.code is Up && 0 < at < rows ==> n.cursors[a.focus] == at - 1
            &&& key.code is Up && at == 0 ==> n.cursors[a.focus] == 0
            &&& key.code is Down && at + 1 == rows ==> n.cursors[a.focus] == at
        }),
{
    let a = v.sessions[i].ask->0;
    let options = a.questions[a.focus].options;
    assert(options@.len() == options.len());
    assert(v.session_at(v.active_seed()->0) == Some(i));
}

/// A free answer is typed character by character; Backspace takes the last one
/// away, Esc leaves the answer as it was, and Enter makes the typed text,
/// without white space around it, the answer, in place of any option.
pub proof fn law_free_answer_is_typed(a: AskView, key: KeyEvent, q: usize)
    requires
        a.ok(),
        a.editing == Some(q),
        a.questions.len() > 0,
    ensures
        ({
            let d = crate::ask::ask_decision(a, key);
            let (n, send) = crate::ask::ask_applied(a, d);
            let last = a.focus + 1 >= a.questions.len();
            &&& (key.code matches KeyCode::Char(c) ==> (c >= ' ' && !('\u{7f}' <= c <= '\u{9f}')
                ==> n == (AskView { input: a.input.push(c), ..a }) && !send))
            &&& key.code is Backspace && a.input.len() > 0 ==> n == (AskView {
                input: a.input.drop_last(),
                ..a
            }) && !send
            &&& key.code is Esc ==> n.customs == a.customs && n.selections == a.selections
                && n.editing is None && !send
            &&& key.code is Enter && !blank(a.input) ==> {
                &&& n.customs == a.customs.update(q as int, trim(a.input))
                &&& n.selections == a.selections.update(q as int, None)
                &&& n.editing is None
                &&& send == last
            }
            &&& key.code is Enter && blank(a.input) ==> {
                &&& n.customs == a.customs.update(q as int, Seq::empty())
                &&& n.selections == a.selections
                &&& send == last
            }
        }),
{
}

/// The space turns the marked option on or, where it is chosen, off; it sends
/// nothing and stays at its question.
pub proof fn law_space_turns_an_option(v: AppView, i: int, key: KeyEvent)
    requires
        shows_session(v, i),
        v.modal() == Some(ModalRoute::Ask),
        v.sessions[i].ask->0.ok(),
        v.sessions[i].ask->0.editing is None,
        v.sessions[i].ask->0.questions.len() > 0,
        key.code == KeyCode::Char(' '),
        v.sessions[i].ask->0.cursors[v.sessions[i].ask->0.focus]
            < v.sessions[i].ask->0.questions[v.sessions[i].ask->0.focus].options@.len(),
    ensures
        ({
            let w = v.modal_keyed(key);
            let a = v.sessions[i].ask->0;
            let at = a.cursors[a.focus];
            &&& only_answered(v, w, i)
            &&& w.effects == v.effects
            &&& w.sessions[i].ask matches Some(n)
            &&& n.focus == a.focus
            &&& n.selections == a.selections.update(
                a.focus,
                if a.selections[a.focus] == Some(at) {
                    None
                } else {
                    Some(at)
                },
            )
        }),
{
    assert(v.session_at(v.active_seed()->0) == Some(i));
}

/// Esc leaves the questions without an answer, and says so.
pub proof fn law_esc_leaves_the_questions(v: AppView, i: int, key: KeyEvent)
    requires
        shows_session(v, i),
        v.modal() == Some(ModalRoute::Ask),
        v.sessions[i].ask->0.editing is None,
        v.sessions[i].ask->0.questions.len() > 0,
        key.code is Esc,
    ensures
        ({
            let w = v.modal_keyed(key);
            let a = v.sessions[i].ask->0;
            &&& only_answered(v, w, i)
            &&& w.effects.len() == v.effects.len() + 1
            &&& w.effects.drop_last() == v.effects
            &&& w.effects.last() == (EffectView::AskDismiss {
                seed: v.sessions[i].seed,
                interaction_id: a.interaction_id,
            })
            &&& w.sessions[i].ask is None
        }),
{
    let a = v.sessions[i].ask->0;
    assert(v.session_at(v.active_seed()->0) == Some(i));
    let s = SessionView { ask: Some(a), ..v.sessions[i] };
    lemma_index_put(v.sessions, i, s, v.active_seed()->0, 0);
    let w = v.modal_keyed(key);
    assert(w.effects.drop_last() =~= v.effects);
}

/// The answer to a plan was sent, and the plan is gone.
pub open spec fn plan_sent(
    v: AppView,
    w: AppView,
    i: int,
    approved: bool,
    autonomous: bool,
    message: Option<Seq<char>>,
) -> bool {
    &&& w.effects.len() == v.effects.len() + 1
    &&& w.effects.drop_last() == v.effects
    &&& w.effects.last() == (EffectView::PlanRespond {
        seed: v.sessions[i].seed,
        interaction_id: v.sessions[i].plan->0.interaction_id,
        approved,
        message,
        autonomous,
    })
    &&& w.sessions[i].plan is None
    &&& w.suppressed.contains(v.sessions[i].plan->0.interaction_id)
}

/// A plan is approved by 'a', approved to be carried out alone by 'g', and
/// rejected by 'r', a reason and Enter; the reason sent is what was typed,
/// without white space around it, or none where that is blank. No other key
/// sends anything, and Esc takes the reason back.
pub proof fn law_plan_keys_answer(v: AppView, i: int, key: KeyEvent)
    requires
        shows_session(v, i),
        v.modal() == Some(ModalRoute::Plan),
    ensures
        ({
            let w = v.modal_keyed(key);
            let p = v.sessions[i].plan->0;
            let n = w.sessions[i].plan;
            &&& only_answered(v, w, i)
            &&& !p.entering ==> {
                &&& key.code == KeyCode::Char('a') ==> plan_sent(v, w, i, true, false, None)
                &&& key.code == KeyCode::Char('g') ==> plan_sent(v, w, i, true, true, None)
                &&& key.code == KeyCode::Char('r') ==> w.effects == v.effects && n == Some(
                    PlanView { entering: true, ..p },
                )
                &&& key.code != KeyCode::Char('a') && key.code != KeyCode::Char('g') ==> w.effects
                    == v.effects && n is Some && n->0.message == p.message && n->0.plan_content
                    == p.plan_content
                &&& key.code is Esc ==> w.sessions[i] == v.sessions[i]
            }
            &&& p.entering ==> {
                &&& key.code is Enter ==> plan_sent(
                    v,
                    w,
                    i,
                    false,
                    false,
                    if blank(p.message) {
                        None
                    } else {
                        Some(trim(p.message))
                    },
                )
                &&& !(key.code is Enter) ==> w.effects == v.effects && n is Some
                &&& (key.code matches KeyCode::Char(c) ==> (!key.modifiers.control ==> n == Some(
                    PlanView { message: p.message.push(c), ..p },
                )))
                &&& key.code is Backspace && p.message.len() > 0 ==> n == Some(
                    PlanView { message: p.message.drop_last(), ..p },
                )
                &&& key.code is Esc ==> n == Some(
                    PlanView { entering: false, message: Seq::empty(), ..p },
                )
            }
        }),
{
    let w = v.modal_keyed(key);
    let p = v.sessions[i].plan->0;
    assert(v.session_at(v.active_seed()->0) == Some(i));
    if w.effects.len() > v.effects.len() {
        assert(w.effects.drop_last() =~= v.effects);
        if !v.suppressed.contains(p.interaction_id) {
            assert(w.suppressed[v.suppressed.len() as int] == p.interaction_id);
        }
    }
}

} // verus!
