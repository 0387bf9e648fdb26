//! Which news the session model takes, and what it takes of it.

use crate::event_laws::{lemma_held_last, lemma_held_more};
use crate::ringing::{
    before, bootstrap_outcome, closed, driver_step, end_step, event_step, is_open, pendings, placed,
    placed_all, request_step, reset_step, start_step, BootstrapOutcome, BootstrapSnapshot,
    DriverView, EventMeta, InteractionOutcome, PendingView, ResetSignal, RingingView,
};
use crate::text::{blank, opt_text};
use vstd::prelude::*;

verus! {

/// The model reads events of this epoch, and no new start is due.
pub open spec fn following(m: RingingView, epoch: Seq<char>) -> bool {
    m.reset is None && m.epoch == Some(epoch)
}

/// A reliable event with all that it needs.
pub open spec fn complete(e: EventMeta) -> bool {
    &&& e.delivery is Reliable
    &&& e.log_id is Some
    &&& e.fact_seq is Some
    &&& e.projection_index is Some
    &&& e.cursor is Some
    &&& e.revision is Some
}

/// An event comes later in the log than the last one read.
pub open spec fn comes_later(m: RingingView, e: EventMeta) -> bool {
    ||| e.fact_seq->0 > m.fact_seq
    ||| e.fact_seq->0 == m.fact_seq && e.projection_index->0 > m.projection_index
}

/// A reliable event counts exactly where it comes later in the same log than
/// the last one. Then the model has read up to it, and its revision never goes
/// back; otherwise it has read as far as before.
pub proof fn law_later_event_is_read(m: RingingView, e: EventMeta)
    requires
        following(m, e.server_epoch@),
        complete(e),
        m.log is None || m.log == Some(e.log_id->0@),
    ensures
        ({
            let (n, out) = event_step(m, e);
            &&& comes_later(m, e) ==> {
                &&& out is ReliableApplied
                &&& n.cursor == Some(e.cursor->0@)
                &&& n.fact_seq == e.fact_seq->0
                &&& n.projection_index == e.projection_index->0
                &&& n.revision >= m.revision && n.revision >= e.revision->0
                &&& n.revision == m.revision || n.revision == e.revision->0
            }
            &&& !comes_later(m, e) ==> {
                &&& n.cursor == m.cursor
                &&& n.fact_seq == m.fact_seq
                &&& n.projection_index == m.projection_index
                &&& n.revision == m.revision
                &&& (out is Duplicate <==> e.fact_seq->0 == m.fact_seq && e.projection_index->0
                    == m.projection_index)
                &&& out is Duplicate || out is Stale
            }
            &&& n.log == Some(e.log_id->0@)
            &&& n.epoch == m.epoch
            &&& n.pending == m.pending
            &&& n.terminal == m.terminal
            &&& n.driver == m.driver
            &&& n.reset == m.reset
        }),
{
}

/// What does not belong to the stream that is read changes nothing: an event
/// of another epoch or another log, one that lacks a part, and any event while
/// a new start is due or none was taken.
pub proof fn law_foreign_event_changes_nothing(m: RingingView, e: EventMeta)
    ensures
        ({
            let (n, out) = event_step(m, e);
            &&& m.reset is Some ==> n == m && out is ResetPending
            &&& (m.reset is None && m.epoch is None) ==> n == m && out is NotInitialized
            &&& (m.reset is None && m.epoch is Some && m.epoch->0 != e.server_epoch@) ==> n == m
                && out is EpochMismatch
            &&& (following(m, e.server_epoch@) && e.delivery is Reliable && !complete(e)) ==> n == m
                && out is Malformed
            &&& (following(m, e.server_epoch@) && complete(e) && m.log is Some && m.log->0
                != e.log_id->0@) ==> n == m && out is LogMismatch
            &&& (following(m, e.server_epoch@) && e.delivery is Ephemeral) ==> n == m
                && out is Ephemeral
        }),
{
}

/// A replaceable event counts exactly where its revision is newer, and moves
/// nothing but the revision.
pub proof fn law_newer_revision_is_taken(m: RingingView, e: EventMeta)
    requires
        following(m, e.server_epoch@),
        e.delivery is Replaceable,
        e.revision is Some,
    ensures
        ({
            let (n, out) = event_step(m, e);
            let r = e.revision->0;
            &&& r > m.revision ==> n == (RingingView { revision: r, ..m }) && out
                is ReplaceableApplied
            &&& r == m.revision ==> n == m && out is Duplicate
            &&& r < m.revision ==> n == m && out is Stale
        }),
{
}

proof fn lemma_placed(s: Seq<PendingView>, p: PendingView, x: PendingView)
    ensures
        placed(s, p).contains(p),
        x.id != p.id && s.contains(x) ==> placed(s, p).contains(x),
        placed(s, p).contains(x) ==> x == p || s.contains(x),
    decreases s.len(),
{
    let all = placed(s, p);
    if s.len() == 0 {
        assert(all =~= seq![p]);
        assert(all[0] == p);
    } else {
        let r = s.drop_first();
        lemma_first(s, x);
        if s[0].id == p.id {
            lemma_in_front(p, r, x);
            lemma_in_front(p, r, p);
        } else if before(p.id, s[0].id) {
            lemma_in_front(p, s, x);
            lemma_in_front(p, s, p);
        } else {
            lemma_placed(r, p, x);
            lemma_in_front(s[0], placed(r, p), x);
            lemma_in_front(s[0], placed(r, p), p);
        }
    }
}

proof fn lemma_first(s: Seq<PendingView>, x: PendingView)
    requires
        s.len() > 0,
    ensures
        s.contains(x) <==> (s[0] == x || s.drop_first().contains(x)),
{
    let r = s.drop_first();
    if s.contains(x) {
        let k = choose|k: int| 0 <= k < s.len() && s[k] == x;
        if k > 0 {
            assert(r[k - 1] == x);
        }
    }
    if r.contains(x) {
        let k = choose|k: int| 0 <= k < r.len() && r[k] == x;
        assert(s[k + 1] == x);
    }
}

proof fn lemma_in_front(y: PendingView, s: Seq<PendingView>, x: PendingView)
    ensures
        (seq![y] + s).contains(x) <==> (y == x || s.contains(x)),
{
    lemma_first(seq![y] + s, x);
    assert((seq![y] + s).drop_first() =~= s);
}

proof fn lemma_placed_all(new: Seq<PendingView>, id: Seq<char>)
    ensures
        is_open(placed_all(new), id) <==> exists|i: int|
            0 <= i < new.len() && (#[trigger] new[i]).id == id,
    decreases new.len(),
{
    if new.len() > 0 {
        let d = new.drop_last();
        let p = new.last();
        lemma_placed_all(d, id);
        let first = placed_all(d);
        let all = placed_all(new);
        if is_open(first, id) {
            let k = choose|k: int| 0 <= k < first.len() && (#[trigger] first[k]).id == id;
            lemma_placed(first, p, first[k]);
            if p.id == id {
                let j = choose|j: int| 0 <= j < all.len() && all[j] == p;
                assert(all[j].id == id);
            } else {
                let j = choose|j: int| 0 <= j < all.len() && all[j] == first[k];
                assert(all[j].id == id);
            }
            let i = choose|i: int| 0 <= i < d.len() && (#[trigger] d[i]).id == id;
            assert(new[i].id == id);
        }
        lemma_placed(first, p, p);
        if p.id == id {
            let j = choose|j: int| 0 <= j < all.len() && all[j] == p;
            assert(all[j].id == id);
            assert(new[new.len() - 1].id == id);
        }
        if is_open(all, id) {
            let j = choose|j: int| 0 <= j < all.len() && (#[trigger] all[j]).id == id;
            lemma_placed(first, p, all[j]);
            if all[j] != p {
                let k = choose|k: int| 0 <= k < first.len() && first[k] == all[j];
                assert(first[k].id == id);
            }
        }
        if exists|i: int| 0 <= i < new.len() && (#[trigger] new[i]).id == id {
            let i = choose|i: int| 0 <= i < new.len() && (#[trigger] new[i]).id == id;
            if i < d.len() {
                assert(d[i].id == id);
            }
        }
    }
}

/// A new start is taken exactly where it is of the same session, says where
/// it stands, answers the reset that is due, and without one is not older than
/// what is known of the same epoch.
pub proof fn law_fitting_start_is_taken(m: RingingView, b: BootstrapSnapshot)
    ensures
        bootstrap_outcome(m, b) == BootstrapOutcome::Applied <==> ({
            &&& b.seed@ == m.seed
            &&& !blank(b.server_epoch@)
            &&& !blank(b.snapshot_cursor@)
            &&& m.reset is None ==> m.epoch != Some(b.server_epoch@) || b.state_revision
                >= m.revision
            &&& m.reset matches Some(r) ==> {
                &&& b.server_epoch@ == r.server_epoch
                &&& r.log_id is Some ==> opt_text(b.log_id) == r.log_id
                &&& r.snapshot_fact_seq is Some ==> b.snapshot_fact_seq >= r.snapshot_fact_seq->0
            }
        }),
        bootstrap_outcome(m, b) != BootstrapOutcome::Applied ==> start_step(m, b) == m,
{
}

/// A new start that is taken sets everything: the epoch, the log and the
/// cursor to read on from, and which interactions are open: those it tells of
/// and no others. None is over, and no reset is due any more.
pub proof fn law_taken_start_sets_all(m: RingingView, b: BootstrapSnapshot, id: Seq<char>)
    requires
        bootstrap_outcome(m, b) == BootstrapOutcome::Applied,
    ensures
        ({
            let n = start_step(m, b);
            &&& n.seed == m.seed
            &&& n.epoch == Some(b.server_epoch@)
            &&& n.log == opt_text(b.log_id)
            &&& n.cursor == Some(b.snapshot_cursor@)
            &&& n.revision == b.state_revision
            &&& n.fact_seq == 0 && n.projection_index == 0
            &&& n.reset is None
            &&& !n.terminal.contains(id)
            &&& (is_open(n.pending, id) <==> exists|i: int|
                0 <= i < b.pending_interactions@.len() && (#[trigger] pendings(
                    b.pending_interactions@,
                )[i]).id == id)
            &&& b.driver is None ==> n.driver is None
            &&& b.driver matches Some(d) ==> n.driver == Some(d@)
        }),
{
    lemma_placed_all(pendings(b.pending_interactions@), id);
}

/// A sign that a new start is due is kept, if it is for this session.
pub proof fn law_due_start_is_kept(m: RingingView, r: ResetSignal)
    ensures
        r.seed@ == m.seed ==> reset_step(m, r) == (RingingView { reset: Some(r@), ..m }),
        r.seed@ != m.seed ==> reset_step(m, r) == m,
{
}

/// An interaction that is asked for is open from then on, unless it is over;
/// the others stay as they are.
pub proof fn law_requested_is_open(m: RingingView, p: PendingView, x: PendingView)
    ensures
        ({
            let (n, out) = request_step(m, p);
            &&& m.terminal.contains(p.id) ==> n == m && out is AlreadyTerminal
            &&& !m.terminal.contains(p.id) ==> is_open(n.pending, p.id)
            &&& (!m.terminal.contains(p.id) && !is_open(m.pending, p.id)) ==> {
                &&& out is Requested
                &&& n.pending.contains(p)
            }
            &&& (!m.terminal.contains(p.id) && is_open(m.pending, p.id)) ==> n == m && out
                is Duplicate
            &&& x.id != p.id ==> (n.pending.contains(x) <==> m.pending.contains(x))
            &&& n.terminal == m.terminal
            &&& n.cursor == m.cursor
        }),
{
    lemma_placed(m.pending, p, x);
    let all = placed(m.pending, p);
    let j = choose|j: int| 0 <= j < all.len() && all[j] == p;
    assert(all[j].id == p.id);
}

/// An interaction that ended is open no more and over for good; the one who
/// ends it learns whether it was open. The others stay open.
pub proof fn law_ended_is_over(
    m: RingingView,
    id: Seq<char>,
    done: InteractionOutcome,
    x: PendingView,
)
    requires
        !m.terminal.contains(id),
    ensures
        ({
            let (n, out) = end_step(m, id, done);
            &&& n.terminal == m.terminal.insert(id)
            &&& !is_open(n.pending, id)
            &&& x.id != id ==> (n.pending.contains(x) <==> m.pending.contains(x))
            &&& out == (if is_open(m.pending, id) {
                done
            } else {
                InteractionOutcome::Unknown
            })
            &&& end_step(n, id, done).1 is AlreadyTerminal
            &&& n.cursor == m.cursor
        }),
{
    lemma_closed(m.pending, id, x);
    let c = closed(m.pending, id);
    assert forall|i: int| 0 <= i < c.len() implies (#[trigger] c[i]).id != id by {
        lemma_closed(m.pending, id, c[i]);
        assert(c.contains(c[i]));
    }
}

proof fn lemma_closed(s: Seq<PendingView>, id: Seq<char>, x: PendingView)
    ensures
        closed(s, id).contains(x) <==> (s.contains(x) && x.id != id),
    decreases s.len(),
{
    if s.len() > 0 {
        lemma_closed(s.drop_last(), id, x);
        lemma_held_last(s, x);
        lemma_held_more(closed(s.drop_last(), id), s.last(), x);
    }
}

/// Two texts are alike up to `k`, where the first is smaller or at its end.
pub open spec fn parts_at(a: Seq<char>, b: Seq<char>, k: int) -> bool {
    &&& 0 <= k <= a.len() && k < b.len()
    &&& a.take(k) == b.take(k)
    &&& k < a.len() ==> a[k] < b[k]
}

/// One id comes before another as words stand in a dictionary: by the first
/// character in which they differ, and a beginning before the whole.
pub proof fn law_ids_are_in_dictionary_order(a: Seq<char>, b: Seq<char>)
    ensures
        before(a, b) <==> exists|k: int| #[trigger] parts_at(a, b, k),
    decreases a.len(),
{
    if b.len() > 0 {
        if a.len() == 0 {
            assert(a.take(0) =~= b.take(0));
            assert(parts_at(a, b, 0));
        } else if a[0] == b[0] {
            let x = a.drop_first();
            let y = b.drop_first();
            law_ids_are_in_dictionary_order(x, y);
            if before(x, y) {
                let k = choose|k: int| #[trigger] parts_at(x, y, k);
                assert(a.take(k + 1) =~= seq![a[0]] + x.take(k));
                assert(b.take(k + 1) =~= seq![b[0]] + y.take(k));
                assert(parts_at(a, b, k + 1));
            }
            if exists|k: int| #[trigger] parts_at(a, b, k) {
                let k = choose|k: int| #[trigger] parts_at(a, b, k);
                assert(k > 0);
                assert(x.take(k - 1) =~= a.take(k).skip(1));
                assert(y.take(k - 1) =~= b.take(k).skip(1));
                assert(parts_at(x, y, k - 1));
            }
        } else {
            if a[0] < b[0] {
                assert(a.take(0) =~= b.take(0));
                assert(parts_at(a, b, 0));
            }
            if exists|k: int| #[trigger] parts_at(a, b, k) {
                let k = choose|k: int| #[trigger] parts_at(a, b, k);
                if k > 0 {
                    assert(a.take(k)[0] == a[0]);
                    assert(b.take(k)[0] == b[0]);
                }
            }
        }
    }
}

/// The driver changes only for one of a newer driver epoch, or where there was
/// none; two different ones of the same epoch are in conflict, and the first
/// stays.
pub proof fn law_newer_driver_drives(m: RingingView, d: DriverView)
    ensures
        ({
            let (n, out) = driver_step(m, d);
            &&& m.driver is None ==> n.driver == Some(d) && out is Applied
            &&& m.driver matches Some(c) ==> {
                &&& d.driver_epoch > c.driver_epoch ==> n.driver == Some(d) && out is Applied
                &&& d.driver_epoch < c.driver_epoch ==> n.driver == m.driver && out is Stale
                &&& d.driver_epoch == c.driver_epoch ==> n.driver == m.driver && (out is Duplicate
                    <==> d == c) && (out is Duplicate || out is Conflict)
            }
            &&& n == (RingingView { driver: n.driver, ..m })
        }),
{
}

} // verus!
