//! Tabs, sessions and subagents: opening, closing, and what is followed.

use crate::app::{place_from, sessions_view, App, AppView, Flags};
use crate::app_modal::lemma_put_ok;
use crate::message::{Effect, EffectView, EntryView};
use crate::overlay::{lemma_pruned_ok, prune_seed_bound_overlays, pruned};
use crate::session::{
    fresh_session, holds, session_ok, subagents_view, SessionState, SessionView, SubagentEntry,
    SubagentState, SubagentView,
};
use crate::text::{
    blank, cat2, has_prefix, is_blank, opt_text, starts_with, str_eq, texts, trim, trimmed,
};
use vstd::prelude::*;

verus! {

/// A directory is `filter` or lies below it.
pub open spec fn in_tree(cwd: Option<Seq<char>>, filter: Option<Seq<char>>) -> bool {
    match filter {
        Some(f) => cwd is Some && (cwd->0 == f || starts_with(cwd->0, f + "/"@)),
        None => true,
    }
}

/// A session that is listed.
pub open spec fn listed(e: EntryView, show_archived: bool, filter: Option<Seq<char>>) -> bool {
    (show_archived || !e.archived) && !e.ephemeral && in_tree(e.cwd, filter)
}

/// The places of the sessions that are listed, among the first `n`.
pub open spec fn listed_to(
    list: Seq<EntryView>,
    show_archived: bool,
    filter: Option<Seq<char>>,
    n: nat,
) -> Seq<usize>
    decreases n,
{
    if n == 0 {
        Seq::empty()
    } else {
        let rest = listed_to(list, show_archived, filter, (n - 1) as nat);
        if listed(list[n - 1], show_archived, filter) {
            rest.push((n - 1) as usize)
        } else {
            rest
        }
    }
}

/// The places of the sessions that are listed.
pub open spec fn listed_in(
    list: Seq<EntryView>,
    show_archived: bool,
    filter: Option<Seq<char>>,
) -> Seq<usize> {
    listed_to(list, show_archived, filter, list.len())
}

fn is_in_tree(cwd: &Option<String>, filter: &Option<String>) -> (r: bool)
    ensures
        r == in_tree(opt_text(*cwd), opt_text(*filter)),
{
    match filter {
        Some(f) => match cwd {
            Some(c) => {
                let below = cat2(f.as_str(), "/");
                str_eq(c.as_str(), f.as_str()) || has_prefix(c.as_str(), below.as_str())
            },
            None => false,
        },
        None => true,
    }
}

/// The seeds to follow: those of the tabs, then those of the first `n`
/// subagents that are not among them.
pub open spec fn followed(tabs: Seq<Seq<char>>, subs: Seq<Seq<char>>, n: nat) -> Seq<Seq<char>>
    decreases n,
{
    if n == 0 {
        tabs
    } else {
        let rest = followed(tabs, subs, (n - 1) as nat);
        if rest.contains(subs[n - 1]) {
            rest
        } else {
            rest.push(subs[n - 1])
        }
    }
}

/// Texts without those in `gone`.
pub open spec fn texts_without(v: Seq<Seq<char>>, gone: Seq<Seq<char>>) -> Seq<Seq<char>>
    decreases v.len(),
{
    if v.len() == 0 {
        v
    } else {
        let rest = texts_without(v.drop_last(), gone);
        if gone.contains(v.last()) {
            rest
        } else {
            rest.push(v.last())
        }
    }
}

/// Sessions without those whose seed is in `gone`.
pub open spec fn sessions_without(v: Seq<SessionView>, gone: Seq<Seq<char>>) -> Seq<SessionView>
    decreases v.len(),
{
    if v.len() == 0 {
        v
    } else {
        let rest = sessions_without(v.drop_last(), gone);
        if gone.contains(v.last().seed) {
            rest
        } else {
            rest.push(v.last())
        }
    }
}

/// A subagent whose session is in `gone` is put in a state.
pub open spec fn state_set(e: SubagentView, gone: Seq<Seq<char>>, st: SubagentState) -> SubagentView {
    if e.seed is Some && gone.contains(e.seed->0) {
        SubagentView { state: st, ..e }
    } else {
        e
    }
}

/// Subagents whose sessions are in `gone` are put in a state.
pub open spec fn states_set(
    v: Seq<SubagentView>,
    gone: Seq<Seq<char>>,
    st: SubagentState,
) -> Seq<SubagentView> {
    Seq::new(v.len(), |i: int| state_set(v[i], gone, st))
}

/// A session whose subagents in `gone` are closed.
pub open spec fn with_closed(s: SessionView, gone: Seq<Seq<char>>) -> SessionView {
    SessionView { subagents: states_set(s.subagents, gone, SubagentState::Closed), ..s }
}

/// Sessions whose subagents in `gone` are closed.
pub open spec fn all_closed(v: Seq<SessionView>, gone: Seq<Seq<char>>) -> Seq<SessionView> {
    Seq::new(v.len(), |i: int| with_closed(v[i], gone))
}

/// The sessions of the first `n` subagents.
pub open spec fn child_seeds(v: Seq<SubagentView>, n: nat) -> Seq<Seq<char>>
    decreases n,
{
    if n == 0 {
        Seq::empty()
    } else {
        let rest = child_seeds(v, (n - 1) as nat);
        match v[n - 1].seed {
            Some(s) => rest.push(s),
            None => rest,
        }
    }
}

/// The tab shown after the tab at `at` is gone, of `n` that stay.
pub open spec fn active_after(active: usize, at: int, n: nat) -> usize {
    if n == 0 {
        0
    } else if at < active {
        (active - 1) as usize
    } else if active >= n {
        (n - 1) as usize
    } else {
        active
    }
}

impl AppView {
    /// The places of the sessions that are listed.
    pub open spec fn shown_list(self, show_archived: bool) -> Seq<usize> {
        listed_in(self.list, show_archived, self.cwd_filter)
    }

    /// The seeds to follow asked for.
    pub open spec fn tracking(self) -> AppView {
        self.asking(
            EffectView::TrackSeeds(followed(self.tabs, self.subagents, self.subagents.len())),
        )
    }

    /// Layers of other sessions gone.
    pub open spec fn tidied(self) -> AppView {
        AppView { overlays: pruned(self.overlays, self.active_seed()), ..self }
    }

    /// A session with a seed, made if there is none.
    pub open spec fn ensured(self, seed: Seq<char>) -> AppView {
        if self.session_at(seed) is Some {
            self
        } else {
            AppView { sessions: self.sessions.push(fresh_session(seed)), ..self }
        }
    }

    /// The tab of a seed shown, made if there is none.
    pub open spec fn tab_shown(self, seed: Seq<char>) -> AppView {
        match place_from(self.tabs, seed, 0) {
            Some(i) => self.flagged(Flags { active: i as usize, ..self.flags }),
            None => AppView {
                tabs: self.tabs.push(seed),
                flags: Flags { active: self.tabs.len() as usize, ..self.flags },
                ..self
            },
        }
    }

    /// A session opened in a tab.
    pub open spec fn opened(self, seed: Seq<char>) -> AppView {
        let v = AppView { inspect: None, ..self.tab_shown(seed).ensured(seed) };
        v.tidied().asking(EffectView::Attach(seed)).tracking()
    }

    /// The tab of a seed gone.
    pub open spec fn tab_gone(self, seed: Seq<char>) -> AppView {
        match place_from(self.tabs, seed, 0) {
            Some(i) => AppView {
                tabs: self.tabs.remove(i),
                flags: Flags {
                    active: active_after(self.flags.active, i, (self.tabs.len() - 1) as nat),
                    ..self.flags
                },
                ..self
            },
            None => self,
        }
    }

    /// The seeds that go with a session: its own, and those of its subagents.
    pub open spec fn going(self, seed: Seq<char>) -> Seq<Seq<char>> {
        match self.session_at(seed) {
            Some(i) => child_seeds(
                self.sessions[i].subagents,
                self.sessions[i].subagents.len(),
            ).push(seed),
            None => seq![seed],
        }
    }

    /// A session closed, with its subagents.
    pub open spec fn closed(self, seed: Seq<char>) -> AppView {
        let gone = self.going(seed);
        let v = self.tab_gone(seed);
        let w = AppView {
            sessions: sessions_without(all_closed(v.sessions, gone), gone),
            subagents: texts_without(v.subagents, gone),
            inspect: if v.inspect is Some && gone.contains(v.inspect->0) {
                None
            } else {
                v.inspect
            },
            ..v
        };
        w.tidied().tracking()
    }

    /// A subagent marked as closed and not followed any more.
    pub open spec fn subagent_closed(self, seed: Seq<char>) -> AppView {
        let gone = seq![seed];
        AppView {
            sessions: all_closed(self.sessions, gone),
            subagents: texts_without(self.subagents, gone),
            ..self
        }.tracking()
    }

    /// A subagent not followed any more.
    pub open spec fn untracked(self, seed: Seq<char>) -> AppView {
        AppView { subagents: texts_without(self.subagents, seq![seed]), ..self }.tracking()
    }

    /// The side panel of a session asked for, unless that is under way.
    pub open spec fn dashboard_asked(self, seed: Seq<char>) -> AppView {
        if self.fetching.contains(seed) {
            self
        } else {
            AppView { fetching: self.fetching.push(seed), ..self }.asking(
                EffectView::FetchDashboard(seed),
            )
        }
    }

    /// A new session asked for.
    pub open spec fn creating(self, cwd: Option<Seq<char>>) -> AppView {
        AppView { creates: self.creates.push((self.fresh_id, self.flags.now)), ..self }.asking(
            EffectView::CreateSession { command_id: self.fresh_id, cwd },
        )
    }

    /// A new session asked for, in a directory or where the session shown
    /// works.
    pub open spec fn creating_in(self, cwd: Option<Seq<char>>) -> AppView {
        if cwd is Some {
            self.creating(cwd)
        } else {
            self.creating(self.default_cwd())
        }
    }

    /// The cwd of the listed session with a seed, from place `k` on.
    pub open spec fn listed_cwd(self, seed: Seq<char>, k: int) -> Option<Seq<char>>
        decreases self.list.len() - k,
    {
        if k >= self.list.len() {
            None
        } else if self.list[k].seed == seed {
            self.list[k].cwd
        } else {
            self.listed_cwd(seed, k + 1)
        }
    }

    /// Where a new session works when nothing else is said: where the session
    /// shown does, else where the program was started.
    pub open spec fn default_cwd(self) -> Option<Seq<char>> {
        let of_tab = match self.active_seed() {
            Some(s) => self.listed_cwd(s, 0),
            None => None,
        };
        if of_tab is Some {
            of_tab
        } else {
            self.initial_cwd
        }
    }

    /// The draft kept as the first message of a new session, unless it is
    /// blank.
    pub open spec fn draft_started(self) -> AppView {
        if blank(self.draft.input) {
            self
        } else {
            AppView {
                prompt: Some(trim(self.draft.input)),
                draft: self.draft.cleared(),
                ..self
            }.creating(self.default_cwd())
        }
    }

    /// The first message put into the input line of the session shown.
    pub open spec fn prompt_transferred(self) -> AppView {
        if self.prompt is Some && self.active_at() is Some {
            let i = self.active_at()->0;
            AppView {
                prompt: None,
                ..self.put_composer(
                    i,
                    self.sessions[i].composer.inserted_all(self.prompt->0),
                )
            }
        } else {
            self
        }
    }
}

/// Puts subagents whose sessions are in `gone` in a state; the result says
/// whether there was any.
pub fn set_states(entries: &mut Vec<SubagentEntry>, gone: &Vec<String>, st: SubagentState) -> (any:
    bool)
    ensures
        subagents_view(final(entries)@) == states_set(
            subagents_view(old(entries)@),
            texts(gone@),
            st,
        ),
        any == exists|i: int|
            0 <= i < old(entries)@.len() && (#[trigger] subagents_view(old(entries)@)[i]).seed is Some
                && texts(gone@).contains(subagents_view(old(entries)@)[i].seed->0),
{
    let ghost v = subagents_view(entries@);
    let n: usize = entries.len();
    let mut i: usize = 0;
    let mut any = false;
    while i < n
        invariant
            i <= n == entries@.len() == v.len(),
            forall|j: int| 0 <= j < i ==> (#[trigger] entries@[j])@ == state_set(v[j], texts(gone@), st),
            forall|j: int| i <= j < n ==> (#[trigger] entries@[j])@ == v[j],
            any == exists|j: int|
                0 <= j < i && (#[trigger] v[j]).seed is Some && texts(gone@).contains(v[j].seed->0),
        decreases n - i,
    {
        let hit = match &entries[i].seed {
            Some(s) => holds(gone, s.as_str()),
            None => false,
        };
        assert(entries@[i as int]@ == v[i as int]);
        assert(hit == (v[i as int].seed is Some && texts(gone@).contains(v[i as int].seed->0)));
        if hit {
            entries[i].state = st;
            any = true;
            assert(entries@[i as int]@ =~= state_set(v[i as int], texts(gone@), st));
        }
        i += 1;
    }
    assert(subagents_view(entries@) =~= states_set(v, texts(gone@), st));
    any
}

fn next_active(active: usize, at: usize, n: usize) -> (r: usize)
    ensures
        r == active_after(active, at as int, n as nat),
{
    if n == 0 {
        0
    } else if at < active {
        active - 1
    } else if active >= n {
        n - 1
    } else {
        active
    }
}

impl App {
    /// The places of the sessions that are listed.
    pub fn filtered_sessions(&self, show_archived: bool) -> (out: Vec<usize>)
        ensures
            out@ == self@.shown_list(show_archived),
            forall|k: int| 0 <= k < out@.len() ==> #[trigger] out@[k] < self.session_list_cache@.len(),
    {
        let mut out: Vec<usize> = Vec::new();
        let n: usize = self.session_list_cache.len();
        let mut i: usize = 0;
        while i < n
            invariant
                i <= n == self.session_list_cache@.len(),
                out@ == listed_to(self@.list, show_archived, self@.cwd_filter, i as nat),
                forall|k: int| 0 <= k < out@.len() ==> #[trigger] out@[k] < n,
            decreases n - i,
        {
            assert(self@.list[i as int] == self.session_list_cache@[i as int]@);
            let e = &self.session_list_cache[i];
            if (show_archived || !e.archived) && !e.ephemeral && is_in_tree(
                &e.cwd,
                &self.session_cwd_filter,
            ) {
                out.push(i);
            }
            i += 1;
        }
        out
    }

    /// Asks for the sessions to follow.
    pub fn sync_tracked(&mut self)
        requires
            old(self).wf(),
        ensures
            final(self).wf(),
            final(self)@ == old(self)@.tracking(),
    {
        let mut seeds: Vec<String> = Vec::new();
        let n: usize = self.tabs.len();
        let mut i: usize = 0;
        while i < n
            invariant
                i <= n == self.tabs@.len(),
                texts(seeds@) == texts(self.tabs@).take(i as int),
            decreases n - i,
        {
            let ghost before = seeds@;
            seeds.push(self.tabs[i].clone());
            assert(texts(seeds@) =~= texts(before).push(texts(self.tabs@)[i as int]));
            i += 1;
            assert(texts(seeds@) =~= texts(self.tabs@).take(i as int));
        }
        assert(texts(seeds@) =~= self@.tabs);
        let m: usize = self.subagent_seeds.len();
        let mut k: usize = 0;
        while k < m
            invariant
                k <= m == self.subagent_seeds@.len(),
                texts(seeds@) == followed(self@.tabs, self@.subagents, k as nat),
            decreases m - k,
        {
            assert(self@.subagents[k as int] == self.subagent_seeds@[k as int]@);
            let known = holds(&seeds, self.subagent_seeds[k].as_str());
            let ghost before = seeds@;
            if !known {
                seeds.push(self.subagent_seeds[k].clone());
                assert(texts(seeds@) =~= texts(before).push(self@.subagents[k as int]));
            }
            k += 1;
        }
        self.emit(Effect::TrackSeeds(seeds));
    }

    /// Removes the layers of other sessions than that of the tab shown.
    pub fn prune_overlays_for_active_seed(&mut self)
        requires
            old(self).wf(),
        ensures
            final(self).wf(),
            final(self)@ == old(self)@.tidied(),
    {
        let ghost v = self@;
        let seed = self.active_seed();
        match &seed {
            Some(s) => prune_seed_bound_overlays(&mut self.overlays, Some(s.as_str())),
            None => prune_seed_bound_overlays(&mut self.overlays, None),
        }
        proof {
            lemma_pruned_ok(v.overlays, v.active_seed());
            assert(self@ =~= v.tidied());
        }
    }

    fn tab_place(&self, seed: &str) -> (r: Option<usize>)
        ensures
            match r {
                Some(i) => place_from(self@.tabs, seed@, 0) == Some(i as int) && i
                    < self.tabs@.len(),
                None => place_from(self@.tabs, seed@, 0) is None,
            },
    {
        let n: usize = self.tabs.len();
        let mut k: usize = 0;
        while k < n
            invariant
                k <= n == self.tabs@.len(),
                place_from(self@.tabs, seed@, 0) == place_from(self@.tabs, seed@, k as int),
            decreases n - k,
        {
            assert(self@.tabs[k as int] == self.tabs@[k as int]@);
            if str_eq(self.tabs[k].as_str(), seed) {
                return Some(k);
            }
            k += 1;
        }
        None
    }

    fn show_tab(&mut self, seed: &str)
        requires
            old(self).wf(),
        ensures
            final(self).wf(),
            final(self)@ == old(self)@.tab_shown(seed@),
    {
        let ghost v = self@;
        match self.tab_place(seed) {
            Some(i) => {
                self.active = i;
            },
            None => {
                let n: usize = self.tabs.len();
                self.tabs.push(seed.to_owned());
                self.active = n;
                assert(texts(self.tabs@) =~= v.tabs.push(seed@));
            },
        }
        assert(self@ =~= v.tab_shown(seed@));
    }

    fn ensure_session(&mut self, seed: &str)
        requires
            old(self).wf(),
        ensures
            final(self).wf(),
            final(self)@ == old(self)@.ensured(seed@),
    {
        let ghost v = self@;
        if self.find_session(seed).is_none() {
            let s = SessionState::new(seed.to_owned());
            self.sessions.push(s);
            assert(sessions_view(self.sessions@) =~= v.sessions.push(fresh_session(seed@)));
            assert(self@ =~= v.ensured(seed@));
        }
    }

    /// Opens a session in a tab and shows it.
    pub fn open_session_tab(&mut self, seed: &str)
        requires
            old(self).wf(),
        ensures
            final(self).wf(),
            final(self)@ == old(self)@.opened(seed@),
    {
        self.show_tab(seed);
        self.ensure_session(seed);
        let ghost v = self@;
        self.inspect = None;
        assert(self@ =~= AppView { inspect: None, ..v });
        self.prune_overlays_for_active_seed();
        self.emit(Effect::Attach(seed.to_owned()));
        self.sync_tracked();
    }

    fn drop_tab(&mut self, seed: &str)
        requires
            old(self).wf(),
        ensures
            final(self).wf(),
            final(self)@ == old(self)@.tab_gone(seed@),
    {
        let ghost v = self@;
        if let Some(i) = self.tab_place(seed) {
            self.tabs.remove(i);
            let n: usize = self.tabs.len();
            let next = next_active(self.active, i, n);
            self.active = next;
            assert(texts(self.tabs@) =~= v.tabs.remove(i as int));
            assert(self@ =~= v.tab_gone(seed@));
        }
    }

    fn gone_with(&self, seed: &str) -> (gone: Vec<String>)
        ensures
            texts(gone@) == self@.going(seed@),
    {
        let mut gone: Vec<String> = Vec::new();
        if let Some(i) = self.find_session(seed) {
            assert(self@.sessions[i as int] == self.sessions@[i as int]@);
            let ghost v = self@.sessions[i as int].subagents;
            let entries = &self.sessions[i].subagents;
            let n: usize = entries.len();
            let mut k: usize = 0;
            assert(texts(gone@) =~= child_seeds(v, 0));
            while k < n
                invariant
                    k <= n == entries@.len(),
                    v == subagents_view(entries@),
                    texts(gone@) == child_seeds(v, k as nat),
                decreases n - k,
            {
                let ghost before = gone@;
                assert(v[k as int] == entries@[k as int]@);
                if let Some(s) = &entries[k].seed {
                    gone.push(s.clone());
                    assert(texts(gone@) =~= texts(before).push(s@));
                }
                k += 1;
            }
        }
        let ghost before = gone@;
        gone.push(seed.to_owned());
        assert(texts(gone@) =~= texts(before).push(seed@));
        assert(self@.session_at(seed@) is None ==> texts(gone@) =~= seq![seed@]);
        gone
    }

    /// Marks the subagents in `gone` as closed, in every session.
    fn close_entries(&mut self, gone: &Vec<String>)
        requires
            old(self).wf(),
        ensures
            final(self).wf(),
            final(self)@ == (AppView {
                sessions: all_closed(old(self)@.sessions, texts(gone@)),
                ..old(self)@
            }),
    {
        let ghost v = self@;
        let n: usize = self.sessions.len();
        let mut i: usize = 0;
        assert(self@ =~= AppView { sessions: self@.sessions, ..v });
        while i < n
            invariant
                i <= n == self.sessions@.len() == v.sessions.len(),
                self.stream_issues.wf(),
                v.ok(),
                forall|j: int|
                    0 <= j < i ==> (#[trigger] self.sessions@[j])@ == with_closed(
                        v.sessions[j],
                        texts(gone@),
                    ),
                forall|j: int| i <= j < n ==> (#[trigger] self.sessions@[j])@ == v.sessions[j],
                self@ == (AppView { sessions: self@.sessions, ..v }),
            decreases n - i,
        {
            assert(self.sessions@[i as int]@ == v.sessions[i as int]);
            set_states(&mut self.sessions[i].subagents, gone, SubagentState::Closed);
            assert(self.sessions@[i as int]@ =~= with_closed(v.sessions[i as int], texts(gone@)));
            i += 1;
            assert(self@ =~= AppView { sessions: self@.sessions, ..v });
        }
        proof {
            assert(self@.sessions =~= all_closed(v.sessions, texts(gone@)));
            assert forall|j: int| 0 <= j < self@.sessions.len() implies session_ok(
                #[trigger] self@.sessions[j],
            ) by {
                assert(session_ok(v.sessions[j]));
            }
        }
    }

    /// Removes the sessions in `gone`.
    fn drop_sessions(&mut self, gone: &Vec<String>)
        requires
            old(self).wf(),
        ensures
            final(self).wf(),
            final(self)@ == (AppView {
                sessions: sessions_without(old(self)@.sessions, texts(gone@)),
                ..old(self)@
            }),
    {
        let ghost v = self@;
        let ghost all = v.sessions;
        let ghost g = texts(gone@);
        let ghost mut seen: int = 0;
        let mut i: usize = 0;
        assert(all.take(0) =~= Seq::empty());
        assert(all =~= sessions_without(all.take(0), g) + all.skip(0));
        assert(self@ =~= AppView { sessions: self@.sessions, ..v });
        while i < self.sessions.len()
            invariant
                0 <= seen <= all.len(),
                g == texts(gone@),
                i == sessions_without(all.take(seen), g).len(),
                self@.sessions == sessions_without(all.take(seen), g) + all.skip(seen),
                self@ == (AppView { sessions: self@.sessions, ..v }),
                self.stream_issues.wf(),
                v.ok(),
                forall|j: int|
                    0 <= j < self@.sessions.len() ==> session_ok(#[trigger] self@.sessions[j]),
            decreases all.len() - seen,
        {
            let ghost before = self@;
            let ghost kept = sessions_without(all.take(seen), g);
            let hit = holds(gone, self.sessions[i].seed.as_str());
            proof {
                assert(before.sessions[i as int] == all.skip(seen)[0]);
                assert(before.sessions[i as int] == self.sessions@[i as int]@);
                assert(all.take(seen + 1).drop_last() =~= all.take(seen));
                assert(all.take(seen + 1).last() == all[seen]);
            }
            if hit {
                self.sessions.remove(i);
                proof {
                    assert(self@.sessions =~= before.sessions.remove(i as int));
                    assert((kept + all.skip(seen)).remove(kept.len() as int) =~= kept + all.skip(
                        seen + 1,
                    ));
                    assert(self@ =~= AppView { sessions: self@.sessions, ..v });
                    assert forall|j: int| 0 <= j < self@.sessions.len() implies session_ok(
                        #[trigger] self@.sessions[j],
                    ) by {
                        let x = if j < i {
                            j
                        } else {
                            j + 1
                        };
                        assert(session_ok(before.sessions[x]));
                    }
                }
            } else {
                i += 1;
                assert(kept + all.skip(seen) =~= kept.push(all[seen]) + all.skip(seen + 1));
            }
            proof {
                seen = seen + 1;
            }
        }
        proof {
            assert(self@.sessions.len() == self.sessions@.len());
            assert(all.take(seen) =~= all);
            assert(self@.sessions =~= sessions_without(all, g));
        }
    }

    /// Stops following the subagents in `gone`.
    fn drop_subagents(&mut self, gone: &Vec<String>)
        requires
            old(self).wf(),
        ensures
            final(self).wf(),
            final(self)@ == (AppView {
                subagents: texts_without(old(self)@.subagents, texts(gone@)),
                ..old(self)@
            }),
    {
        let ghost v = self@;
        let ghost g = texts(gone@);
        let ghost all = v.subagents;
        let n: usize = self.subagent_seeds.len();
        let mut kept: Vec<String> = Vec::new();
        let mut i: usize = 0;
        assert(all.take(0) =~= Seq::empty());
        assert(texts(kept@) =~= Seq::empty());
        while i < n
            invariant
                i <= n == self.subagent_seeds@.len(),
                all == texts(self.subagent_seeds@),
                g == texts(gone@),
                texts(kept@) == texts_without(all.take(i as int), g),
            decreases n - i,
        {
            let ghost before = kept@;
            assert(all[i as int] == self.subagent_seeds@[i as int]@);
            assert(all.take(i + 1).drop_last() =~= all.take(i as int));
            if !holds(gone, self.subagent_seeds[i].as_str()) {
                kept.push(self.subagent_seeds[i].clone());
                assert(texts(kept@) =~= texts(before).push(all[i as int]));
            }
            i += 1;
        }
        assert(all.take(n as int) =~= all);
        self.subagent_seeds = kept;
        assert(self@ =~= AppView { subagents: texts_without(all, g), ..v });
    }

    /// Closes a session and the subagents it started.
    pub fn close_tab_by_seed(&mut self, seed: &str)
        requires
            old(self).wf(),
        ensures
            final(self).wf(),
            final(self)@ == old(self)@.closed(seed@),
    {
        let gone = self.gone_with(seed);
        let ghost g = texts(gone@);
        self.drop_tab(seed);
        let ghost v = self@;
        self.close_entries(&gone);
        self.drop_sessions(&gone);
        self.drop_subagents(&gone);
        let ghost mid = self@;
        let left = match &self.inspect {
            Some(s) => holds(&gone, s.as_str()),
            None => false,
        };
        if left {
            self.inspect = None;
        }
        assert(self@ =~= AppView {
            sessions: sessions_without(all_closed(v.sessions, g), g),
            subagents: texts_without(v.subagents, g),
            inspect: if v.inspect is Some && g.contains(v.inspect->0) {
                None
            } else {
                v.inspect
            },
            ..v
        });
        self.prune_overlays_for_active_seed();
        self.sync_tracked();
    }

    /// Marks a subagent as closed and stops following it.
    pub fn mark_subagent_closed(&mut self, seed: &str)
        requires
            old(self).wf(),
        ensures
            final(self).wf(),
            final(self)@ == old(self)@.subagent_closed(seed@),
    {
        let mut gone: Vec<String> = Vec::new();
        gone.push(seed.to_owned());
        assert(texts(gone@) =~= seq![seed@]);
        self.close_entries(&gone);
        self.drop_subagents(&gone);
        self.sync_tracked();
    }

    /// Stops following a subagent.
    pub fn untrack_subagent(&mut self, seed: &str)
        requires
            old(self).wf(),
        ensures
            final(self).wf(),
            final(self)@ == old(self)@.untracked(seed@),
    {
        let mut gone: Vec<String> = Vec::new();
        gone.push(seed.to_owned());
        assert(texts(gone@) =~= seq![seed@]);
        self.drop_subagents(&gone);
        self.sync_tracked();
    }

    /// Asks for the side panel of a session, unless that is under way.
    pub fn fetch_dashboard(&mut self, seed: &str)
        requires
            old(self).wf(),
        ensures
            final(self).wf(),
            final(self)@ == old(self)@.dashboard_asked(seed@),
    {
        if !holds(&self.dashboard_fetching, seed) {
            let ghost v = self@;
            self.dashboard_fetching.push(seed.to_owned());
            assert(texts(self.dashboard_fetching@) =~= v.fetching.push(seed@));
            assert(self@ =~= AppView { fetching: v.fetching.push(seed@), ..v });
            self.emit(Effect::FetchDashboard(seed.to_owned()));
        }
    }

    /// Asks for a new session that works in a directory.
    fn create_session(&mut self, cwd: Option<String>)
        requires
            old(self).wf(),
        ensures
            final(self).wf(),
            final(self)@ == old(self)@.creating(opt_text(cwd)),
    {
        let ghost v = self@;
        let id = self.fresh_id.clone();
        self.pending_creates.push((id.clone(), self.now));
        assert(self@.creates =~= v.creates.push((v.fresh_id, v.flags.now)));
        assert(self@ =~= AppView { creates: v.creates.push((v.fresh_id, v.flags.now)), ..v });
        self.emit(Effect::CreateSession { command_id: id, cwd });
    }

    fn cwd_in_list(&self, seed: &str) -> (r: Option<String>)
        ensures
            opt_text(r) == self@.listed_cwd(seed@, 0),
    {
        let n: usize = self.session_list_cache.len();
        let mut k: usize = 0;
        while k < n
            invariant
                k <= n == self.session_list_cache@.len(),
                self@.listed_cwd(seed@, 0) == self@.listed_cwd(seed@, k as int),
            decreases n - k,
        {
            assert(self@.list[k as int] == self.session_list_cache@[k as int]@);
            if str_eq(self.session_list_cache[k].seed.as_str(), seed) {
                return match &self.session_list_cache[k].cwd {
                    Some(c) => Some(c.clone()),
                    None => None,
                };
            }
            k += 1;
        }
        None
    }

    /// Where a new session works when nothing else is said.
    pub fn effective_cwd(&self) -> (r: Option<String>)
        ensures
            opt_text(r) == self@.default_cwd(),
    {
        let of_tab = match self.active_seed() {
            Some(s) => self.cwd_in_list(s.as_str()),
            None => None,
        };
        match of_tab {
            Some(c) => Some(c),
            None => match &self.initial_cwd {
                Some(c) => Some(c.clone()),
                None => None,
            },
        }
    }

    /// Asks for a new session that works in a directory, or where the session
    /// shown does.
    pub fn new_session_with_cwd(&mut self, cwd: Option<String>)
        requires
            old(self).wf(),
        ensures
            final(self).wf(),
            final(self)@ == old(self)@.creating_in(opt_text(cwd)),
    {
        match cwd {
            Some(c) => {
                self.create_session(Some(c));
            },
            None => {
                let cwd = self.effective_cwd();
                self.create_session(cwd);
            },
        }
    }

    /// Asks for a new session where the session shown works.
    pub fn new_session(&mut self)
        requires
            old(self).wf(),
        ensures
            final(self).wf(),
            final(self)@ == old(self)@.creating_in(None),
    {
        self.new_session_with_cwd(None);
    }

    /// Asks for a session for the drafted message, unless it is blank.
    pub fn start_draft_conversation(&mut self)
        requires
            old(self).wf(),
        ensures
            final(self).wf(),
            final(self)@ == old(self)@.draft_started(),
    {
        let ghost v = self@;
        let text = self.draft_composer.value();
        if is_blank(text.as_str()) {
            return;
        }
        let cwd = self.effective_cwd();
        self.pending_initial_prompt = Some(trimmed(text.as_str()));
        self.draft_composer.clear();
        assert(self@ =~= AppView {
            prompt: Some(trim(v.draft.input)),
            draft: v.draft.cleared(),
            ..v
        });
        self.create_session(cwd);
    }

    /// Puts the drafted message into the input line of the session shown.
    pub fn transfer_pending_initial_prompt(&mut self)
        requires
            old(self).wf(),
        ensures
            final(self).wf(),
            final(self)@ == old(self)@.prompt_transferred(),
    {
        let ghost v = self@;
        if self.pending_initial_prompt.is_none() {
            return;
        }
        let i = match self.active_index() {
            Some(i) => i,
            None => {
                return;
            },
        };
        let ghost s0 = v.sessions[i as int];
        assert(s0 == self.sessions@[i as int]@);
        assert(session_ok(s0));
        let text = match self.pending_initial_prompt.take() {
            Some(t) => t,
            None => String::new(),
        };
        self.sessions[i].composer.insert_str(text.as_str());
        proof {
            let s = SessionView { composer: s0.composer.inserted_all(text@), ..s0 };
            assert(self.sessions@[i as int]@ =~= s);
            assert(self@.sessions =~= v.sessions.update(i as int, s));
            assert(self@ =~= v.prompt_transferred());
            lemma_put_ok(v, i as int, s);
        }
    }
}

/// A session opened in a tab is the one shown.
pub proof fn law_opened_tab_is_shown(v: AppView, seed: Seq<char>)
    requires
        v.tabs.len() < usize::MAX,
    ensures
        v.opened(seed).active_seed() == Some(seed),
        v.opened(seed).inspect is None,
{
    lemma_place(v.tabs, seed, 0);
}

proof fn lemma_place(v: Seq<Seq<char>>, s: Seq<char>, k: int)
    requires
        0 <= k,
    ensures
        place_from(v, s, k) matches Some(i) ==> k <= i < v.len() && v[i] == s,
    decreases v.len() - k,
{
    if k < v.len() && v[k] != s {
        lemma_place(v, s, k + 1);
    }
}

/// A closed session is gone: no session has its seed, and it is not followed.
pub proof fn law_closed_session_is_gone(v: AppView, seed: Seq<char>)
    ensures
        !v.closed(seed).subagents.contains(seed),
        forall|i: int|
            0 <= i < v.closed(seed).sessions.len() ==> (#[trigger] v.closed(seed).sessions[i]).seed
                != seed,
{
    let gone = v.going(seed);
    assert(gone.contains(seed)) by {
        assert(gone.last() == seed);
    }
    lemma_texts_without(v.tab_gone(seed).subagents, gone, seed);
    lemma_sessions_without(all_closed(v.tab_gone(seed).sessions, gone), gone, seed);
}

proof fn lemma_texts_without(v: Seq<Seq<char>>, gone: Seq<Seq<char>>, s: Seq<char>)
    requires
        gone.contains(s),
    ensures
        !texts_without(v, gone).contains(s),
    decreases v.len(),
{
    if v.len() > 0 {
        lemma_texts_without(v.drop_last(), gone, s);
        let rest = texts_without(v.drop_last(), gone);
        let w = texts_without(v, gone);
        assert forall|i: int| 0 <= i < w.len() implies w[i] != s by {
            if i < rest.len() {
                assert(w[i] == rest[i]);
                assert(rest.contains(rest[i]));
            }
        }
    }
}

proof fn lemma_sessions_without(v: Seq<SessionView>, gone: Seq<Seq<char>>, s: Seq<char>)
    requires
        gone.contains(s),
    ensures
        forall|i: int|
            0 <= i < sessions_without(v, gone).len() ==> (#[trigger] sessions_without(
                v,
                gone,
            )[i]).seed != s,
    decreases v.len(),
{
    if v.len() > 0 {
        lemma_sessions_without(v.drop_last(), gone, s);
        let rest = sessions_without(v.drop_last(), gone);
        let w = sessions_without(v, gone);
        assert forall|i: int| 0 <= i < w.len() implies (#[trigger] w[i]).seed != s by {
            if i < rest.len() {
                assert(w[i] == rest[i]);
            }
        }
    }
}

} // verus!
