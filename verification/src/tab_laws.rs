//! What the tabs and the keys that mean the same everywhere do.

use crate::app::{index_from, place_from, AppView};
use crate::app_tabs::{
    active_after, all_closed, child_seeds, followed, sessions_without, states_set,
};
use crate::keymap::{global_key, GlobalKey, KeyCode, KeyEvent};
use crate::message::{EffectView, NoticeLevel};
use crate::overlay::{ConfirmView, OverlayView};
use crate::session::{fresh_session, SessionView, SubagentState, SubagentView};
use vstd::prelude::*;

verus! {

pub proof fn lemma_index(v: Seq<SessionView>, seed: Seq<char>, k: int)
    requires
        0 <= k,
    ensures
        index_from(v, seed, k) matches Some(i) ==> k <= i < v.len() && v[i].seed == seed,
        (exists|i: int| k <= i < v.len() && (#[trigger] v[i]).seed == seed) ==> index_from(
            v,
            seed,
            k,
        ) is Some,
    decreases v.len() - k,
{
    if k < v.len() && v[k].seed != seed {
        lemma_index(v, seed, k + 1);
    }
}

pub proof fn lemma_place_of(v: Seq<Seq<char>>, s: Seq<char>, k: int)
    requires
        0 <= k,
    ensures
        place_from(v, s, k) matches Some(i) ==> k <= i < v.len() && v[i] == s,
        (exists|i: int| k <= i < v.len() && #[trigger] v[i] == s) ==> place_from(v, s, k) is Some,
    decreases v.len() - k,
{
    if k < v.len() && v[k] != s {
        lemma_place_of(v, s, k + 1);
    }
}

pub proof fn lemma_default_cwd(v: AppView, w: AppView)
    requires
        v.list == w.list,
        v.tabs == w.tabs,
        v.flags == w.flags,
        v.initial_cwd == w.initial_cwd,
    ensures
        v.default_cwd() == w.default_cwd(),
{
    if v.flags.active < v.tabs.len() {
        lemma_listed_cwd(v, w, v.tabs[v.flags.active as int], 0);
    }
}

proof fn lemma_listed_cwd(v: AppView, w: AppView, seed: Seq<char>, k: int)
    requires
        v.list == w.list,
        0 <= k,
    ensures
        v.listed_cwd(seed, k) == w.listed_cwd(seed, k),
    decreases v.list.len() - k,
{
    if k < v.list.len() {
        lemma_listed_cwd(v, w, seed, k + 1);
    }
}

/// A session is found exactly where there is one, and it is that one.
#[verifier::rlimit(50)]
pub proof fn law_session_is_found_by_its_seed(v: AppView, seed: Seq<char>)
    ensures
        v.session_at(seed) is Some <==> exists|i: int|
            0 <= i < v.sessions.len() && (#[trigger] v.sessions[i]).seed == seed,
        v.session_at(seed) matches Some(i) ==> 0 <= i < v.sessions.len() && v.sessions[i].seed
            == seed,
        v.active_at() matches Some(i) ==> v.flags.active < v.tabs.len() && v.sessions[i].seed
            == v.tabs[v.flags.active as int],
{
    lemma_index(v.sessions, seed, 0);
    if v.flags.active < v.tabs.len() {
        lemma_index(v.sessions, v.tabs[v.flags.active as int], 0);
    }
}

/// Opening a session gives it one tab and shows it, attaches to it and follows
/// it; a session known already stays as it was, and so do the others.
#[verifier::rlimit(50)]
pub proof fn law_opening_shows_and_attaches(v: AppView, seed: Seq<char>)
    requires
        v.tabs.len() < usize::MAX,
    ensures
        ({
            let w = v.opened(seed);
            &&& w.active_seed() == Some(seed)
            &&& w.inspect is None
            &&& w.tabs == (if v.tabs.contains(seed) {
                v.tabs
            } else {
                v.tabs.push(seed)
            })
            &&& w.effects.len() == v.effects.len() + 2
            &&& w.effects.take(v.effects.len() as int) == v.effects
            &&& w.effects.contains(EffectView::Attach(seed))
            &&& w.effects.last() is TrackSeeds
            &&& w.effects.last()->TrackSeeds_0.contains(seed)
            &&& w.session_at(seed) is Some
            &&& v.session_at(seed) is Some ==> w.sessions == v.sessions
            &&& v.session_at(seed) is None ==> w.sessions == v.sessions.push(fresh_session(seed))
        }),
{
    let w = v.opened(seed);
    lemma_place_of(v.tabs, seed, 0);
    lemma_index(v.sessions, seed, 0);
    lemma_index(w.sessions, seed, 0);
    assert(w.tabs.contains(seed)) by {
        if v.tabs.contains(seed) {
            let i = choose|i: int| 0 <= i < v.tabs.len() && v.tabs[i] == seed;
            assert(v.tabs[i] == seed);
        } else {
            assert(w.tabs.last() == seed);
        }
    }
    if v.session_at(seed) is None {
        assert(w.sessions[v.sessions.len() as int].seed == seed);
    }
    assert(w.effects[v.effects.len() as int] == EffectView::Attach(seed));
    assert(w.effects.take(v.effects.len() as int) =~= v.effects);
    law_followed_sessions(w.tabs, w.subagents, w.subagents.len(), seed);
    assert(w.subagents == v.subagents);
}

/// Followed are the sessions of all tabs and all subagents, and no others.
pub proof fn law_followed_sessions(
    tabs: Seq<Seq<char>>,
    subs: Seq<Seq<char>>,
    n: nat,
    seed: Seq<char>,
)
    requires
        n <= subs.len(),
    ensures
        followed(tabs, subs, n).contains(seed) <==> (tabs.contains(seed) || exists|i: int|
            0 <= i < n && #[trigger] subs[i] == seed),
    decreases n,
{
    if n > 0 {
        let m = (n - 1) as nat;
        law_followed_sessions(tabs, subs, m, seed);
        let rest = followed(tabs, subs, m);
        let all = followed(tabs, subs, n);
        if rest.contains(seed) {
            let k = choose|k: int| 0 <= k < rest.len() && rest[k] == seed;
            assert(all[k] == seed);
        }
        if !rest.contains(subs[n - 1]) {
            assert(all.last() == subs[n - 1]);
            if all.contains(seed) && !rest.contains(seed) {
                let k = choose|k: int| 0 <= k < all.len() && all[k] == seed;
                assert(k == rest.len());
            }
        }
    }
}

proof fn lemma_kept_sessions(v: Seq<SessionView>, gone: Seq<Seq<char>>, s: SessionView)
    ensures
        sessions_without(v, gone).contains(s) <==> (v.contains(s) && !gone.contains(s.seed)),
    decreases v.len(),
{
    if v.len() > 0 {
        let d = v.drop_last();
        lemma_kept_sessions(d, gone, s);
        let rest = sessions_without(d, gone);
        let all = sessions_without(v, gone);
        assert(v =~= d.push(v.last()));
        if d.contains(s) {
            let k = choose|k: int| 0 <= k < d.len() && d[k] == s;
            assert(v[k] == s);
        }
        if v.contains(s) && !d.contains(s) {
            let k = choose|k: int| 0 <= k < v.len() && v[k] == s;
            assert(k == d.len());
        }
        if rest.contains(s) {
            let k = choose|k: int| 0 <= k < rest.len() && rest[k] == s;
            assert(all[k] == s);
        }
        if !gone.contains(v.last().seed) {
            assert(all.last() == v.last());
            if all.contains(s) && !rest.contains(s) {
                let k = choose|k: int| 0 <= k < all.len() && all[k] == s;
                assert(k == rest.len());
            }
            if v.last() == s {
                assert(v[v.len() - 1] == s);
            }
        }
        if v.last() == s {
            assert(v[v.len() - 1] == s);
        }
    }
}

/// The sessions of a session's subagents: each that has one.
pub proof fn law_children_are_the_subagents(v: Seq<SubagentView>, n: nat, seed: Seq<char>)
    requires
        n <= v.len(),
    ensures
        child_seeds(v, n).contains(seed) <==> exists|i: int|
            0 <= i < n && (#[trigger] v[i]).seed == Some(seed),
    decreases n,
{
    if n > 0 {
        let m = (n - 1) as nat;
        law_children_are_the_subagents(v, m, seed);
        let rest = child_seeds(v, m);
        let all = child_seeds(v, n);
        if rest.contains(seed) {
            let k = choose|k: int| 0 <= k < rest.len() && rest[k] == seed;
            assert(all[k] == seed);
        }
        if v[n - 1].seed is Some {
            assert(all.last() == v[n - 1].seed->0);
            if all.contains(seed) && !rest.contains(seed) {
                let k = choose|k: int| 0 <= k < all.len() && all[k] == seed;
                assert(k == rest.len());
            }
        }
    }
}

/// Closing a session keeps every session that is neither it nor one of its
/// subagents: nothing is lost of it but the mark that a closed subagent ran.
#[verifier::rlimit(50)]
pub proof fn law_closing_keeps_the_other_sessions(v: AppView, seed: Seq<char>, j: int)
    requires
        0 <= j < v.sessions.len(),
    ensures
        ({
            let s = v.sessions[j];
            let gone = v.going(seed);
            let kept = SessionView {
                subagents: states_set(s.subagents, gone, SubagentState::Closed),
                ..s
            };
            v.closed(seed).sessions.contains(kept) <==> !gone.contains(s.seed)
        }),
        v.going(seed).contains(seed),
        v.session_at(seed) matches Some(i) ==> forall|x: Seq<char>| #[trigger]
            v.going(seed).contains(x) <==> x == seed || child_seeds(
                v.sessions[i].subagents,
                v.sessions[i].subagents.len(),
            ).contains(x),
{
    let gone = v.going(seed);
    let all = all_closed(v.sessions, gone);
    let s = v.sessions[j];
    let kept = all[j];
    assert(kept == (SessionView {
        subagents: states_set(s.subagents, gone, SubagentState::Closed),
        ..s
    }));
    assert(all.contains(kept));
    lemma_kept_sessions(all, gone, kept);
    assert(v.tab_gone(seed).sessions == v.sessions);
    assert(gone.last() == seed);
    assert(gone.contains(seed));
    if v.session_at(seed) is Some {
        let i = v.session_at(seed)->0;
        let c = child_seeds(v.sessions[i].subagents, v.sessions[i].subagents.len());
        assert forall|x: Seq<char>| #[trigger] gone.contains(x) <==> x == seed || c.contains(x) by {
            if c.contains(x) {
                let k = choose|k: int| 0 <= k < c.len() && c[k] == x;
                assert(gone[k] == x);
            }
            if gone.contains(x) && x != seed {
                let k = choose|k: int| 0 <= k < gone.len() && gone[k] == x;
                assert(c[k] == x);
            }
        }
    }
}

/// Closing a session takes its tab out. The other tabs keep their order, and
/// the one shown stays the one shown unless it was the one closed; then its
/// neighbour is shown.
#[verifier::rlimit(50)]
pub proof fn law_closing_keeps_the_shown_tab(v: AppView, seed: Seq<char>, at: int)
    requires
        place_from(v.tabs, seed, 0) == Some(at),
        v.flags.active < v.tabs.len() <= usize::MAX,
    ensures
        ({
            let w = v.closed(seed);
            &&& w.tabs == v.tabs.remove(at)
            &&& v.tabs[at] == seed
            &&& (v.flags.active != at) ==> w.active_seed() == v.active_seed()
            &&& (v.flags.active == at && v.tabs.len() > 1) ==> w.active_seed() is Some && (
            w.active_seed() == Some(
                v.tabs[if at + 1 < v.tabs.len() {
                    at + 1
                } else {
                    at - 1
                }],
            ))
            &&& v.tabs.len() == 1 ==> w.active_seed() is None
        }),
{
    lemma_place_of(v.tabs, seed, 0);
    let w = v.closed(seed);
    assert(w.tabs == v.tabs.remove(at));
    let a = active_after(v.flags.active, at, (v.tabs.len() - 1) as nat);
    assert(w.flags.active == a);
}

/// A new session works where it is told to, else where the session shown
/// does, else where the program was started.
#[verifier::rlimit(50)]
pub proof fn law_new_session_works_here(v: AppView, cwd: Option<Seq<char>>, j: int)
    ensures
        ({
            let w = v.creating_in(cwd);
            let e = w.effects.last();
            &&& w.effects == v.effects.push(e)
            &&& e is CreateSession
            &&& e->command_id == v.fresh_id
            &&& w.creates == v.creates.push((v.fresh_id, v.flags.now))
            &&& cwd is Some ==> e->cwd == cwd
            &&& (cwd is None && v.active_seed() is None) ==> e->cwd == v.initial_cwd
            &&& (cwd is None && v.active_seed() is Some && 0 <= j < v.list.len()
                && v.list[j].seed == v.active_seed()->0 && (forall|k: int|
                0 <= k < j ==> (#[trigger] v.list[k]).seed != v.active_seed()->0)) ==> e->cwd == (
            if v.list[j].cwd is Some {
                v.list[j].cwd
            } else {
                v.initial_cwd
            })
            &&& (cwd is None && v.active_seed() is Some && forall|k: int|
                0 <= k < v.list.len() ==> (#[trigger] v.list[k]).seed != v.active_seed()->0)
                ==> e->cwd == v.initial_cwd
        }),
{
    if v.active_seed() is Some {
        let seed = v.active_seed()->0;
        if 0 <= j < v.list.len() && v.list[j].seed == seed && (forall|k: int|
            0 <= k < j ==> (#[trigger] v.list[k]).seed != seed) {
            lemma_first_listed(v, seed, 0, j);
        }
        if forall|k: int| 0 <= k < v.list.len() ==> (#[trigger] v.list[k]).seed != seed {
            lemma_none_listed(v, seed, 0);
        }
    }
}

proof fn lemma_first_listed(v: AppView, seed: Seq<char>, k: int, j: int)
    requires
        0 <= k <= j < v.list.len(),
        v.list[j].seed == seed,
        forall|i: int| 0 <= i < j ==> (#[trigger] v.list[i]).seed != seed,
    ensures
        v.listed_cwd(seed, k) == v.list[j].cwd,
    decreases j - k,
{
    if k < j {
        assert(v.list[k].seed != seed);
        lemma_first_listed(v, seed, k + 1, j);
    }
}

proof fn lemma_none_listed(v: AppView, seed: Seq<char>, k: int)
    requires
        0 <= k,
        forall|i: int| 0 <= i < v.list.len() ==> (#[trigger] v.list[i]).seed != seed,
    ensures
        v.listed_cwd(seed, k) is None,
    decreases v.list.len() - k,
{
    if k < v.list.len() {
        assert(v.list[k].seed != seed);
        lemma_none_listed(v, seed, k + 1);
    }
}

/// Held down with Alt, a digit shows the tab it counts, and an arrow the tab
/// beside, going round.
#[verifier::rlimit(50)]
pub proof fn law_alt_shows_another_tab(v: AppView, key: KeyEvent, ch: char)
    requires
        v.modal() is None,
        key.modifiers.alt,
        !key.modifiers.control,
        v.flags.active < v.tabs.len() <= usize::MAX,
    ensures
        ({
            let w = v.pressed(key);
            let n = v.tabs.len();
            let at = v.flags.active;
            &&& (key.code == KeyCode::Char(ch) && '1' <= ch <= '9' && (ch as int) - ('1' as int)
                < n) ==> w.active_seed() == Some(v.tabs[(ch as int) - ('1' as int)])
            &&& (key.code == KeyCode::Char(ch) && '1' <= ch <= '9' && (ch as int) - ('1' as int)
                >= n) ==> w.active_seed() == v.active_seed()
            &&& key.code is Right ==> w.active_seed() == Some(
                v.tabs[if at + 1 < n {
                    at + 1
                } else {
                    0
                }],
            )
            &&& key.code is Left ==> w.active_seed() == Some(
                v.tabs[if at > 0 {
                    at - 1
                } else {
                    n - 1
                }],
            )
            &&& (key.code is Left || key.code is Right) ==> w.tabs == v.tabs && w.effects
                == v.effects && w.sessions == v.sessions
        }),
{
    let t = v.tapped();
    assert(t.modal() == v.modal());
}

/// What the keys do that mean the same everywhere, while no dialog is open.
#[verifier::rlimit(50)]
pub proof fn law_global_keys(v: AppView, key: KeyEvent)
    requires
        v.modal() is None,
        key.modifiers.control,
        !key.modifiers.alt,
    ensures
        ({
            let w = v.pressed(key);
            &&& key.code == KeyCode::Char('q') ==> w.flags.quit && w.effects == v.effects
            &&& (key.code == KeyCode::Char('c') && v.flags.quit_armed is Some) ==> w.flags.quit
            &&& (key.code == KeyCode::Char('c') && v.flags.quit_armed is None) ==> {
                &&& w.flags.quit == v.flags.quit
                &&& w.flags.quit_armed == Some(v.flags.now)
                &&& w.toasts.last().level == NoticeLevel::Info
            }
            &&& (key.code == KeyCode::Char('t') && v.tabs.len() > 0) ==> w.effects
                == v.effects.push(
                EffectView::CreateSession { command_id: v.fresh_id, cwd: v.default_cwd() },
            )
            &&& (key.code == KeyCode::Char('l') && v.overlays.len() == 0) ==> w.overlays == seq![
                OverlayView::SessionList { selected: 0, show_archived: false },
            ]
            &&& (key.code == KeyCode::Char('l') && v.overlays.len() > 0
                && v.overlays.last() is SessionList) ==> w.overlays == v.overlays.drop_last()
                && w.effects == v.effects
            &&& key.code == KeyCode::Char(',') ==> w.effects == v.effects.push(
                EffectView::ToggleSettings,
            )
        }),
{
    let t = v.tapped();
    assert(t.modal() == v.modal());
    lemma_default_cwd(v, t);
    if v.overlays.len() == 0 {
        assert(v.overlays =~= Seq::empty());
        assert(Seq::empty().push(OverlayView::SessionList { selected: 0, show_archived: false })
            =~= seq![OverlayView::SessionList { selected: 0, show_archived: false }]);
    }
}

/// The function keys, and closing a tab, which is asked about first.
#[verifier::rlimit(50)]
pub proof fn law_function_keys(v: AppView, key: KeyEvent)
    requires
        v.modal() is None,
    ensures
        ({
            let w = v.pressed(key);
            let f = v.flags;
            &&& (key.code == KeyCode::F(1) && v.overlays.len() == 0) ==> w.overlays == seq![
                OverlayView::Help,
            ]
            &&& (key.code == KeyCode::F(1) && v.overlays.len() > 0 && v.overlays.last() is Help)
                ==> w.overlays == v.overlays.drop_last()
            &&& key.code == KeyCode::F(3) ==> {
                &&& w.flags.show_activity == !f.show_activity
                &&& forall|i: int|
                    0 <= i < v.sessions.len() ==> (#[trigger] w.sessions[i]).block_cache is None
                        && w.sessions[i].timeline == v.sessions[i].timeline
            }
            &&& key.code == KeyCode::F(4) ==> w.flags.show_workspace == !f.show_workspace
            &&& key.code == KeyCode::F(6) ==> w.flags.show_todo_detail == !f.show_todo_detail
            &&& key.code == KeyCode::F(7) ==> w.effects == v.effects.push(
                EffectView::ToggleToolExpand,
            )
            &&& key.code == KeyCode::F(10) ==> w.effects == v.effects.push(
                EffectView::ToggleSettings,
            )
            &&& (key.code == KeyCode::Char('w') && key.modifiers.alt && !key.modifiers.control
                && v.active_seed() is Some) ==> {
                &&& w.overlays == v.overlays.push(
                    OverlayView::Confirm { action: ConfirmView::CloseTab(v.active_seed()->0) },
                )
                &&& w.tabs == v.tabs
                &&& w.sessions == v.sessions
            }
        }),
{
    let t = v.tapped();
    assert(t.modal() == v.modal());
    if v.overlays.len() == 0 {
        assert(v.overlays =~= Seq::empty());
        assert(Seq::empty().push(OverlayView::Help) =~= seq![OverlayView::Help]);
    }
}

/// Asking for a new connection does so only while there is none.
#[verifier::rlimit(50)]
pub proof fn law_reconnecting_is_for_the_lost(v: AppView)
    ensures
        v.conn.phase is Lost ==> v.global_pressed(GlobalKey::Reconnect).effects == v.effects.push(
            EffectView::Reconnect,
        ),
        !(v.conn.phase is Lost) ==> v.global_pressed(GlobalKey::Reconnect).effects == v.effects,
{
}

/// While a subagent is looked at, escape leads back to the session, the
/// arrows scroll, and nothing is typed.
#[verifier::rlimit(50)]
pub proof fn law_looking_at_a_subagent(v: AppView, key: KeyEvent)
    requires
        v.inspect is Some,
        v.modal() is None,
        v.overlays.len() == 0,
        !key.modifiers.alt,
        !key.modifiers.control,
    ensures
        ({
            let w = v.pressed(key);
            &&& key.code is Esc ==> w.inspect is None && w.view_seed() == v.active_seed()
                && w.effects == v.effects
            &&& key.code is Up ==> w.effects == v.effects.push(EffectView::ScrollUp(1))
            &&& key.code is Down ==> w.effects == v.effects.push(EffectView::ScrollDown(1))
            &&& key.code is PageUp ==> w.effects == v.effects.push(EffectView::ScrollUp(20))
            &&& key.code is PageDown ==> w.effects == v.effects.push(EffectView::ScrollDown(20))
            &&& (key.code is Char || key.code is Enter || key.code is Backspace) ==> w.sessions
                == v.sessions && w.effects == v.effects
        }),
{
    let t = v.tapped();
    assert(t.modal() == v.modal());
    assert(global_key(key) is None || key.code is F);
}

} // verus!
