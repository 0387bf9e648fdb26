//! Which session is shown, and what the others keep meanwhile.
//!
//! Only the session shown has a block cache. The sessions shown last keep
//! their transcripts; the ones before them keep all but the transcript, which
//! is fetched again when they are shown.

use crate::app::{index_from, place_from, App, AppView};
use crate::app_events::lemma_session_put;
use crate::highlight::Highlighter;
use crate::message::{Effect, EffectView};
use crate::seg::{CacheView, TranscriptCache};
use crate::session::{session_ok, SessionState, SessionView};
use crate::text::{str_eq, texts};
use crate::timeline::{TimelineModel, TimelineView};
use crate::viewport::{cache_top, refresh_at_viewport, viewed, VIEWPORT_FIXPOINT_PASSES};
use vstd::prelude::*;

verus! {

/// How many of the sessions shown last keep their transcripts.
pub const ACTIVE_MODELS: usize = 4;

/// The sessions in `v` that are still there, without the one with `seed`.
pub open spec fn others(
    v: Seq<Seq<char>>,
    sessions: Seq<SessionView>,
    seed: Seq<char>,
) -> Seq<Seq<char>>
    decreases v.len(),
{
    if v.len() == 0 {
        v
    } else {
        let rest = others(v.drop_last(), sessions, seed);
        if v.last() == seed || index_from(sessions, v.last(), 0) is None {
            rest
        } else {
            rest.push(v.last())
        }
    }
}

/// An order with the session that is shown now in front.
pub open spec fn brought_front(
    v: Seq<Seq<char>>,
    sessions: Seq<SessionView>,
    seed: Seq<char>,
) -> Seq<Seq<char>> {
    seq![seed] + others(v, sessions, seed)
}

/// A session was shown, but too many others since.
pub open spec fn faded(order: Seq<Seq<char>>, seed: Seq<char>) -> bool {
    place_from(order, seed, 0) matches Some(i) && i >= ACTIVE_MODELS
}

/// A session once the one with `seed` is shown.
pub open spec fn rested(s: SessionView, seed: Seq<char>, order: Seq<Seq<char>>) -> SessionView {
    if s.seed == seed {
        SessionView { needs_rebaseline: false, ..s }
    } else if faded(order, s.seed) {
        SessionView {
            timeline: TimelineView {
                turns: Seq::empty(),
                has_more: false,
                truncated_before: false,
                dropped_turns: 0,
            },
            needs_rebaseline: true,
            block_cache: None,
            ..s
        }
    } else {
        SessionView { block_cache: None, ..s }
    }
}

impl AppView {
    /// The session with a seed shown: it comes first, the others rest, and its
    /// transcript is asked for where it was given up.
    pub open spec fn focus_moved(self, seed: Seq<char>) -> AppView {
        let order = brought_front(self.focus, self.sessions, seed);
        let v = AppView {
            focus: order,
            last_focused: Some(seed),
            sessions: Seq::new(
                self.sessions.len(),
                |i: int| rested(self.sessions[i], seed, order),
            ),
            ..self
        };
        match self.session_at(seed) {
            Some(i) => if self.sessions[i].needs_rebaseline {
                v.asking(EffectView::Rebaseline(seed))
            } else {
                v
            },
            None => v,
        }
    }

    /// What is shown followed to another session, if it moved.
    pub open spec fn focus_followed(self) -> AppView {
        match self.view_seed() {
            Some(seed) => if self.last_focused == Some(seed) {
                self
            } else {
                self.focus_moved(seed)
            },
            None => self,
        }
    }
}

fn fades(order: &Vec<String>, seed: &str) -> (r: bool)
    ensures
        r == faded(texts(order@), seed@),
{
    let n: usize = order.len();
    let mut k: usize = 0;
    while k < n
        invariant
            k <= n == order@.len(),
            place_from(texts(order@), seed@, 0) == place_from(texts(order@), seed@, k as int),
        decreases n - k,
    {
        assert(texts(order@)[k as int] == order@[k as int]@);
        if str_eq(order[k].as_str(), seed) {
            return k >= ACTIVE_MODELS;
        }
        k += 1;
    }
    false
}

/// Puts a session at rest while the one with `seed` is shown.
fn rest(s: &mut SessionState, seed: &str, order: &Vec<String>)
    ensures
        final(s)@ == rested(old(s)@, seed@, texts(order@)),
        old(s).seed@ == seed@ ==> *final(s) == (SessionState {
            needs_rebaseline: false,
            ..*old(s)
        }),
{
    let ghost v = s@;
    if str_eq(s.seed.as_str(), seed) {
        s.needs_rebaseline = false;
    } else {
        if fades(order, s.seed.as_str()) {
            s.timeline = TimelineModel::new();
            s.needs_rebaseline = true;
            assert(s.timeline@ =~= TimelineView {
                turns: Seq::empty(),
                has_more: false,
                truncated_before: false,
                dropped_turns: 0,
            });
        }
        s.block_cache = None;
    }
    assert(s@ =~= rested(v, seed@, texts(order@)));
}

impl App {
    fn focus_order_with(&self, seed: &str) -> (order: Vec<String>)
        ensures
            texts(order@) == brought_front(self@.focus, self@.sessions, seed@),
    {
        let mut order: Vec<String> = Vec::new();
        order.push(seed.to_owned());
        let ghost f = self@.focus;
        let ghost ss = self@.sessions;
        let n: usize = self.focus_order.len();
        let mut k: usize = 0;
        assert(f.take(0) =~= Seq::empty());
        assert(texts(order@) =~= seq![seed@] + others(f.take(0), ss, seed@));
        while k < n
            invariant
                k <= n == self.focus_order@.len(),
                f == self@.focus,
                ss == self@.sessions,
                texts(order@) == seq![seed@] + others(f.take(k as int), ss, seed@),
            decreases n - k,
        {
            let ghost rest = others(f.take(k as int), ss, seed@);
            proof {
                assert(f.take(k + 1).drop_last() =~= f.take(k as int));
                assert(f.take(k + 1).last() == self.focus_order@[k as int]@);
            }
            if !str_eq(self.focus_order[k].as_str(), seed) && self.find_session(
                self.focus_order[k].as_str(),
            ).is_some() {
                let ghost before = texts(order@);
                order.push(self.focus_order[k].clone());
                assert(texts(order@) =~= before.push(f[k as int]));
                assert(before.push(f[k as int]) =~= seq![seed@] + rest.push(f[k as int]));
            }
            k += 1;
        }
        assert(f.take(n as int) =~= f);
        order
    }

    /// Shows the session with a seed.
    pub fn touch_focus(&mut self, seed: &str)
        requires
            old(self).wf(),
        ensures
            final(self).wf(),
            final(self)@ == old(self)@.focus_moved(seed@),
            final(self).sessions@.len() == old(self).sessions@.len(),
            forall|i: int|
                0 <= i < old(self).sessions@.len() && (#[trigger] old(self).sessions@[i]).seed@
                    == seed@ ==> final(self).sessions@[i] == (SessionState {
                    needs_rebaseline: false,
                    ..old(self).sessions@[i]
                }),
    {
        let ghost v = self@;
        let ghost before = self.sessions@;
        let stale = match self.find_session(seed) {
            Some(i) => {
                assert(v.sessions[i as int] == self.sessions@[i as int]@);
                self.sessions[i].needs_rebaseline
            },
            None => false,
        };
        let order = self.focus_order_with(seed);
        let ghost o = texts(order@);
        let ghost w = Seq::new(v.sessions.len(), |i: int| rested(v.sessions[i], seed@, o));
        let n: usize = self.sessions.len();
        let mut i: usize = 0;
        assert(self@ =~= AppView { sessions: self@.sessions, ..v });
        while i < n
            invariant
                i <= n == self.sessions@.len() == v.sessions.len() == before.len(),
                v.ok(),
                o == texts(order@),
                w == Seq::new(v.sessions.len(), |i: int| rested(v.sessions[i], seed@, o)),
                self.stream_issues.wf(),
                forall|j: int| 0 <= j < n ==> (#[trigger] before[j])@ == v.sessions[j],
                forall|j: int| 0 <= j < i ==> (#[trigger] self.sessions@[j])@ == w[j],
                forall|j: int|
                    0 <= j < i && (#[trigger] before[j]).seed@ == seed@ ==> self.sessions@[j] == (
                    SessionState { needs_rebaseline: false, ..before[j] }),
                forall|j: int| i <= j < n ==> (#[trigger] self.sessions@[j]) == before[j],
                self@ == (AppView { sessions: self@.sessions, ..v }),
            decreases n - i,
        {
            assert(before[i as int]@ == v.sessions[i as int]);
            rest(&mut self.sessions[i], seed, &order);
            i += 1;
            assert(self@ =~= AppView { sessions: self@.sessions, ..v });
        }
        self.focus_order = order;
        self.last_focused = Some(seed.to_owned());
        proof {
            assert(self@.sessions =~= w);
            assert forall|j: int| 0 <= j < self@.sessions.len() implies session_ok(
                #[trigger] self@.sessions[j],
            ) by {
                assert(session_ok(v.sessions[j]));
            }
            assert(self@ =~= AppView {
                focus: o,
                last_focused: Some(seed@),
                sessions: w,
                ..v
            });
        }
        if stale {
            self.emit(Effect::Rebaseline(seed.to_owned()));
        }
    }

    fn follow_focus(&mut self)
        requires
            old(self).wf(),
        ensures
            final(self).wf(),
            final(self)@ == old(self)@.focus_followed(),
            final(self).sessions@.len() == old(self).sessions@.len(),
            forall|i: int|
                0 <= i < old(self).sessions@.len() && old(self)@.view_seed() == Some(
                    (#[trigger] old(self).sessions@[i]).seed@,
                ) ==> final(self).sessions@[i] == (SessionState {
                    needs_rebaseline: old(self)@.last_focused == old(self)@.view_seed() && old(
                        self,
                    ).sessions@[i].needs_rebaseline,
                    ..old(self).sessions@[i]
                }),
    {
        let seed = match self.view_seed() {
            Some(s) => s,
            None => {
                return;
            },
        };
        let same = match &self.last_focused {
            Some(s) => str_eq(s.as_str(), seed.as_str()),
            None => false,
        };
        if !same {
            self.touch_focus(seed.as_str());
        }
    }

    /// Follows what is shown, then draws what is seen of it into the block
    /// cache of its session, for a transcript of `width` columns and `height`
    /// lines.
    pub fn ensure_render_caches(&mut self, hl: &Highlighter, width: u16, height: usize)
        requires
            old(self).wf(),
        ensures
            final(self).wf(),
            ({
                let v = old(self)@.focus_followed();
                match v.view_seed() {
                    Some(seed) => match v.session_at(seed) {
                        Some(i) => {
                            let s = old(self).sessions@[i];
                            let start = match s.block_cache {
                                Some(c) => c@,
                                None => CacheView {
                                    width,
                                    banner: None,
                                    empty: None,
                                    turns: Seq::empty(),
                                },
                            };
                            let drawn = final(self).sessions@[i].block_cache;
                            &&& drawn is Some
                            &&& drawn->0@ == viewed(
                                start,
                                SessionState {
                                    block_cache: None,
                                    needs_rebaseline: v.sessions[i].needs_rebaseline,
                                    ..s
                                },
                                width,
                                height,
                                cache_top(start, height, s.scroll),
                                VIEWPORT_FIXPOINT_PASSES as nat,
                            )
                            &&& final(self)@ == v.put(
                                i,
                                SessionView { block_cache: drawn, ..v.sessions[i] },
                            )
                        },
                        None => final(self)@ == v,
                    },
                    None => final(self)@ == v,
                }
            }),
    {
        let ghost first = *self;
        self.follow_focus();
        let ghost before = *self;
        let seed = match self.view_seed() {
            Some(s) => s,
            None => {
                return;
            },
        };
        let i = match self.find_session(seed.as_str()) {
            Some(i) => i,
            None => {
                return;
            },
        };
        let ghost s0 = self.sessions@[i as int];
        proof {
            assert(self@.sessions[i as int] == s0@);
            assert(session_ok(s0@));
            assert(first@.sessions[i as int] == first.sessions@[i as int]@);
            assert(first.sessions@[i as int].seed@ == seed@);
            assert(first@.view_seed() == Some(seed@));
        }
        let taken = self.sessions[i].block_cache.take();
        assert(self.sessions@[i as int] == SessionState { block_cache: None, ..s0 });
        let mut cache = match taken {
            Some(c) => c,
            None => TranscriptCache::new(width),
        };
        refresh_at_viewport(hl, &self.sessions[i], width, height, &mut cache);
        self.sessions[i].block_cache = Some(cache);
        proof {
            let s = SessionView { block_cache: Some(cache), ..s0@ };
            assert(self.sessions@[i as int]@ =~= s);
            lemma_session_put(before, *self, i as int, s);
        }
    }
}

/// The session shown comes first, and a second look changes nothing.
pub proof fn law_shown_is_first(v: AppView)
    requires
        v.last_focused != v.view_seed(),
    ensures
        v.view_seed() matches Some(seed) ==> v.focus_followed().focus[0] == seed,
        v.focus_followed().focus_followed() == v.focus_followed(),
{
}

/// Only the session shown keeps its block cache.
pub proof fn law_only_shown_has_cache(v: AppView, seed: Seq<char>, i: int)
    requires
        0 <= i < v.sessions.len(),
        v.sessions[i].seed != seed,
    ensures
        v.focus_moved(seed).sessions[i].block_cache is None,
{
}

/// A session whose place in the order is among the first few keeps its
/// transcript; one behind them gives it up, to be fetched when it is shown.
pub proof fn law_recent_transcripts_stay(v: AppView, seed: Seq<char>, i: int, k: int)
    requires
        0 <= i < v.sessions.len(),
        0 <= k < v.focus_moved(seed).focus.len(),
        v.focus_moved(seed).focus[k] == v.sessions[i].seed,
        forall|j: int| 0 <= j < k ==> (#[trigger] v.focus_moved(seed).focus[j])
            != v.sessions[i].seed,
    ensures
        k < ACTIVE_MODELS ==> v.focus_moved(seed).sessions[i].timeline == v.sessions[i].timeline,
        k >= ACTIVE_MODELS ==> v.focus_moved(seed).sessions[i].timeline.turns.len() == 0
            && v.focus_moved(seed).sessions[i].needs_rebaseline,
{
    lemma_first_place(v.focus_moved(seed).focus, v.sessions[i].seed, 0, k);
}

/// Giving up a transcript takes nothing else from a session: what is typed,
/// asked and known of it stays.
pub proof fn law_light_state_stays(v: AppView, seed: Seq<char>, i: int)
    requires
        0 <= i < v.sessions.len(),
    ensures
        ({
            let s = v.focus_moved(seed).sessions[i];
            v.sessions[i] == SessionView {
                timeline: v.sessions[i].timeline,
                needs_rebaseline: v.sessions[i].needs_rebaseline,
                block_cache: v.sessions[i].block_cache,
                ..s
            }
        }),
{
}

/// A session that gave up its transcript asks for it when it is shown.
pub proof fn law_shown_again_is_fetched(v: AppView, seed: Seq<char>)
    requires
        v.session_at(seed) is Some,
        v.sessions[v.session_at(seed)->0].needs_rebaseline,
    ensures
        v.focus_moved(seed).effects == v.effects.push(EffectView::Rebaseline(seed)),
        !v.focus_moved(seed).sessions[v.session_at(seed)->0].needs_rebaseline,
{
    crate::app::lemma_index(v.sessions, seed, 0);
}

proof fn lemma_first_place(v: Seq<Seq<char>>, s: Seq<char>, k: int, at: int)
    requires
        0 <= k <= at < v.len(),
        v[at] == s,
        forall|j: int| k <= j < at ==> (#[trigger] v[j]) != s,
    ensures
        place_from(v, s, k) == Some(at),
    decreases at - k,
{
    if k < at {
        lemma_first_place(v, s, k + 1, at);
    }
}

} // verus!
