//! What holds of the session model whatever has reached it.

use crate::ringing::{
    closed, driver_step, end_step, event_step, fresh_model, in_order, is_open,
    law_new_start_is_in_order, law_placing_keeps_order, lemma_closed_ids, lemma_placed_ids,
    pendings, request_step, reset_step, start_step, BootstrapSnapshot, DriverView, EventMeta,
    InteractionOutcome, PendingView, ResetSignal, RingingView,
};
use vstd::prelude::*;

verus! {

/// Something that changes a model: one for each of its methods that do.
pub enum RingingCall {
    Bootstrap(BootstrapSnapshot),
    Reset(ResetSignal),
    Event(EventMeta),
    Requested(PendingView),
    Resolved(Seq<char>),
    Expired(Seq<char>),
    Driver(DriverView),
}

/// The model after a call.
pub open spec fn called(m: RingingView, c: RingingCall) -> RingingView {
    match c {
        RingingCall::Bootstrap(b) => start_step(m, b),
        RingingCall::Reset(r) => reset_step(m, r),
        RingingCall::Event(e) => event_step(m, e).0,
        RingingCall::Requested(p) => request_step(m, p).0,
        RingingCall::Resolved(id) => end_step(m, id, InteractionOutcome::Resolved).0,
        RingingCall::Expired(id) => end_step(m, id, InteractionOutcome::Expired).0,
        RingingCall::Driver(d) => driver_step(m, d).0,
    }
}

/// The model of a session after calls, one after the other.
pub open spec fn reached(seed: Seq<char>, calls: Seq<RingingCall>) -> RingingView
    decreases calls.len(),
{
    if calls.len() == 0 {
        fresh_model(seed)
    } else {
        called(reached(seed, calls.drop_last()), calls.last())
    }
}

/// The open interactions stand in the order of their ids, each id once, and
/// none of them is over.
pub open spec fn sound(m: RingingView) -> bool {
    &&& in_order(m.pending)
    &&& forall|id: Seq<char>| m.terminal.contains(id) ==> !#[trigger] is_open(m.pending, id)
}

/// Closing an interaction keeps the order of the others, and closes no other.
pub proof fn law_closing_keeps_the_others(s: Seq<PendingView>, id: Seq<char>)
    requires
        in_order(s),
    ensures
        in_order(closed(s, id)),
        !is_open(closed(s, id), id),
        forall|x: Seq<char>|
            x != id ==> #[trigger] is_open(closed(s, id), x) == is_open(s, x),
        forall|p: PendingView|
            p.id != id ==> #[trigger] closed(s, id).contains(p) == s.contains(p),
    decreases s.len(),
{
    let c = closed(s, id);
    lemma_closed_ids(s, id);
    lemma_closed_part(s, id);
    if s.len() > 0 {
        let t = s.drop_last();
        assert forall|i: int, j: int| 0 <= i < j < t.len() implies crate::ringing::before(
            (#[trigger] t[i]).id,
            (#[trigger] t[j]).id,
        ) by {
            assert(t[i] == s[i] && t[j] == s[j]);
        }
        law_closing_keeps_the_others(t, id);
        lemma_closed_part(t, id);
        let d = closed(t, id);
        assert forall|i: int, j: int| 0 <= i < j < c.len() implies crate::ringing::before(
            (#[trigger] c[i]).id,
            (#[trigger] c[j]).id,
        ) by {
            if j < d.len() {
                assert(c[i] == d[i] && c[j] == d[j]);
            } else {
                assert(c[i] == d[i]);
                assert(d.contains(d[i]));
                let k = choose|k: int| 0 <= k < t.len() && t[k] == d[i];
                assert(crate::ringing::before(s[k].id, s[s.len() - 1].id));
            }
        }
    }
    assert forall|p: PendingView| p.id != id implies #[trigger] c.contains(p) == s.contains(p) by {
        if s.contains(p) {
            lemma_closed_keeps(s, id, p);
        }
        if c.contains(p) {
            assert(s.contains(p));
        }
    }
    assert forall|x: Seq<char>| x != id implies #[trigger] is_open(c, x) == is_open(s, x) by {
        if is_open(c, x) {
            let i = choose|i: int| 0 <= i < c.len() && (#[trigger] c[i]).id == x;
            assert(c.contains(c[i]));
            let k = choose|k: int| 0 <= k < s.len() && s[k] == c[i];
            assert(s[k].id == x);
        }
        if is_open(s, x) {
            let i = choose|i: int| 0 <= i < s.len() && (#[trigger] s[i]).id == x;
            assert(s.contains(s[i]));
            assert(c.contains(s[i]));
            let k = choose|k: int| 0 <= k < c.len() && c[k] == s[i];
            assert(c[k].id == x);
        }
    }
}

/// What is left was there.
proof fn lemma_closed_part(s: Seq<PendingView>, id: Seq<char>)
    ensures
        forall|p: PendingView| #[trigger] closed(s, id).contains(p) ==> s.contains(p),
    decreases s.len(),
{
    if s.len() > 0 {
        let t = s.drop_last();
        lemma_closed_part(t, id);
        assert forall|p: PendingView| #[trigger] closed(s, id).contains(p) implies s.contains(p) by {
            let c = closed(s, id);
            let d = closed(t, id);
            let i = choose|i: int| 0 <= i < c.len() && c[i] == p;
            if i < d.len() {
                assert(d[i] == p);
                assert(d.contains(p));
                let k = choose|k: int| 0 <= k < t.len() && t[k] == p;
                assert(s[k] == p);
            } else {
                assert(s[s.len() - 1] == p);
            }
        }
    }
}

/// What has another id is left.
proof fn lemma_closed_keeps(s: Seq<PendingView>, id: Seq<char>, p: PendingView)
    requires
        s.contains(p),
        p.id != id,
    ensures
        closed(s, id).contains(p),
    decreases s.len(),
{
    let k = choose|k: int| 0 <= k < s.len() && s[k] == p;
    let t = s.drop_last();
    let c = closed(s, id);
    if k < t.len() {
        assert(t[k] == p);
        lemma_closed_keeps(t, id, p);
        let d = closed(t, id);
        let i = choose|i: int| 0 <= i < d.len() && d[i] == p;
        assert(c[i] == p);
    } else {
        assert(c[c.len() - 1] == p);
    }
}

proof fn lemma_call_keeps_sound(m: RingingView, c: RingingCall)
    requires
        sound(m),
    ensures
        sound(called(m, c)),
{
    let n = called(m, c);
    match c {
        RingingCall::Bootstrap(b) => {
            law_new_start_is_in_order(pendings(b.pending_interactions@));
        },
        RingingCall::Requested(p) => {
            law_placing_keeps_order(m.pending, p);
            assert forall|id: Seq<char>| n.terminal.contains(id) implies !#[trigger] is_open(
                n.pending,
                id,
            ) by {
                lemma_placed_ids(m.pending, p, id);
                assert(!is_open(m.pending, id));
            }
        },
        RingingCall::Resolved(id) => {
            lemma_end_keeps_sound(m, id, InteractionOutcome::Resolved);
        },
        RingingCall::Expired(id) => {
            lemma_end_keeps_sound(m, id, InteractionOutcome::Expired);
        },
        _ => {},
    }
}

proof fn lemma_end_keeps_sound(m: RingingView, id: Seq<char>, done: InteractionOutcome)
    requires
        sound(m),
    ensures
        sound(end_step(m, id, done).0),
{
    let n = end_step(m, id, done).0;
    law_closing_keeps_the_others(m.pending, id);
    assert forall|x: Seq<char>| n.terminal.contains(x) implies !#[trigger] is_open(n.pending, x) by {
        if x != id {
            assert(m.terminal.contains(x));
            assert(!is_open(m.pending, x));
        }
    }
}

/// In every model that calls lead to, the open interactions stand in the order
/// of their ids, each id once, and none of them is over.
pub proof fn law_reached_models_are_sound(seed: Seq<char>, calls: Seq<RingingCall>)
    ensures
        sound(reached(seed, calls)),
    decreases calls.len(),
{
    if calls.len() > 0 {
        law_reached_models_are_sound(seed, calls.drop_last());
        lemma_call_keeps_sound(reached(seed, calls.drop_last()), calls.last());
    }
}

/// The first end of an open interaction wins, in every model that calls lead
/// to: it closes that interaction and no other, and a second end of it,
/// answered or not, changes nothing.
pub proof fn law_first_end_wins(
    seed: Seq<char>,
    calls: Seq<RingingCall>,
    id: Seq<char>,
    first: InteractionOutcome,
    second: InteractionOutcome,
)
    requires
        is_open(reached(seed, calls).pending, id),
    ensures
        ({
            let m = reached(seed, calls);
            let (n, outcome) = end_step(m, id, first);
            &&& outcome == first
            &&& n == RingingView {
                pending: closed(m.pending, id),
                terminal: m.terminal.insert(id),
                ..m
            }
            &&& !is_open(n.pending, id)
            &&& forall|x: Seq<char>|
                x != id ==> #[trigger] is_open(n.pending, x) == is_open(m.pending, x)
            &&& in_order(n.pending)
            &&& end_step(n, id, second) == (n, InteractionOutcome::AlreadyTerminal)
        }),
{
    law_reached_models_are_sound(seed, calls);
    law_closing_keeps_the_others(reached(seed, calls).pending, id);
}

/// An open interaction can be asked for again and ended, in every model that
/// calls lead to: neither finds it over or unknown.
pub proof fn law_open_is_not_over(
    seed: Seq<char>,
    calls: Seq<RingingCall>,
    p: PendingView,
    done: InteractionOutcome,
)
    requires
        is_open(reached(seed, calls).pending, p.id),
    ensures
        ({
            let m = reached(seed, calls);
            &&& request_step(m, p) == (m, InteractionOutcome::Duplicate)
            &&& end_step(m, p.id, done).1 == done
        }),
{
    law_reached_models_are_sound(seed, calls);
}

} // verus!
