//! A guard against pastes that arrive as single keys: a flood of keys is no
//! typing, and Enter in it sends nothing.

use vstd::prelude::*;

verus! {

/// Only keys of the last so many milliseconds count.
pub const PASTE_BURST_WINDOW: u64 = 200;

/// So many keys in the window are a flood.
pub const PASTE_BURST_KEYS: usize = 40;

/// The keys that are not older than the window at `now`: the oldest of the rest
/// first gone.
pub open spec fn recent(taps: Seq<u64>, now: u64) -> Seq<u64>
    decreases taps.len(),
{
    if taps.len() > 0 && now - taps[0] > PASTE_BURST_WINDOW {
        recent(taps.drop_first(), now)
    } else {
        taps
    }
}

/// The guard: the times of the keys in the window, and whether the present
/// flood was already told of.
#[verifier::ext_equal]
pub struct GuardView {
    pub taps: Seq<u64>,
    pub toasted: bool,
}

/// A key at `now`.
pub open spec fn observed(g: GuardView, now: u64) -> GuardView {
    let taps = recent(g.taps, now).push(now);
    GuardView { taps, toasted: g.toasted && taps.len() >= PASTE_BURST_KEYS }
}

/// The keys in the window are a flood.
pub open spec fn is_flood(g: GuardView) -> bool {
    g.taps.len() >= PASTE_BURST_KEYS
}

/// The guard.
#[derive(Debug)]
pub struct PasteGuard {
    taps: Vec<u64>,
    toasted: bool,
}

impl View for PasteGuard {
    type V = GuardView;

    closed spec fn view(&self) -> GuardView {
        GuardView { taps: self.taps@, toasted: self.toasted }
    }
}

impl Default for PasteGuard {
    fn default() -> (g: Self)
        ensures
            g@ == (GuardView { taps: Seq::empty(), toasted: false }),
    {
        let g = PasteGuard { taps: Vec::new(), toasted: false };
        assert(g@.taps =~= Seq::empty());
        g
    }
}

impl PasteGuard {
    /// Takes note of a key at `now`, in milliseconds.
    pub fn observe(&mut self, now: u64)
        ensures
            final(self)@ == observed(old(self)@, now),
    {
        let n: usize = self.taps.len();
        let mut k: usize = 0;
        assert(self.taps@.skip(0) =~= self.taps@);
        while k < n && now > self.taps[k] && now - self.taps[k] > PASTE_BURST_WINDOW
            invariant
                k <= n == self.taps@.len(),
                self@ == old(self)@,
                recent(self.taps@, now) == recent(self.taps@.skip(k as int), now),
            decreases n - k,
        {
            assert(self.taps@.skip(k as int).drop_first() =~= self.taps@.skip(k + 1));
            k += 1;
        }
        let mut kept = self.taps.split_off(k);
        assert(kept@ =~= old(self)@.taps.skip(k as int));
        assert(recent(old(self)@.taps, now) == kept@);
        kept.push(now);
        if kept.len() < PASTE_BURST_KEYS {
            self.toasted = false;
        }
        self.taps = kept;
        assert(self@ =~= observed(old(self)@, now));
    }

    /// Whether the keys in the window are a flood.
    pub fn flooding(&self) -> (r: bool)
        ensures
            r == is_flood(self@),
    {
        self.taps.len() >= PASTE_BURST_KEYS
    }

    /// Whether the user is to be told of the flood: once in each.
    pub fn take_toast(&mut self) -> (r: bool)
        ensures
            r == (is_flood(old(self)@) && !old(self)@.toasted),
            final(self)@ == (GuardView { toasted: old(self)@.toasted || r, ..old(self)@ }),
    {
        if self.flooding() && !self.toasted {
            self.toasted = true;
            assert(self@ =~= (GuardView { toasted: true, ..old(self)@ }));
            true
        } else {
            assert(self@ =~= (GuardView { toasted: old(self)@.toasted, ..old(self)@ }));
            false
        }
    }
}

/// The keys of a guard are in the order of their times.
pub open spec fn in_time(taps: Seq<u64>) -> bool {
    forall|i: int, j: int| 0 <= i < j < taps.len() ==> #[trigger] taps[i] <= #[trigger] taps[j]
}

proof fn lemma_recent(taps: Seq<u64>, now: u64)
    requires
        in_time(taps),
    ensures
        in_time(recent(taps, now)),
        forall|i: int|
            0 <= i < recent(taps, now).len() ==> now - #[trigger] recent(taps, now)[i]
                <= PASTE_BURST_WINDOW && taps.contains(recent(taps, now)[i]),
    decreases taps.len(),
{
    if taps.len() > 0 {
        let rest = taps.drop_first();
        assert forall|i: int, j: int| 0 <= i < j < rest.len() implies #[trigger] rest[i]
            <= #[trigger] rest[j] by {
            assert(rest[i] == taps[i + 1] && rest[j] == taps[j + 1]);
        }
        if now - taps[0] > PASTE_BURST_WINDOW {
            lemma_recent(rest, now);
            assert forall|i: int| 0 <= i < recent(taps, now).len() implies now
                - #[trigger] recent(taps, now)[i] <= PASTE_BURST_WINDOW && taps.contains(
                recent(taps, now)[i],
            ) by {
                let x = recent(rest, now)[i];
                assert(rest.contains(x));
                let k = choose|k: int| 0 <= k < rest.len() && rest[k] == x;
                assert(taps[k + 1] == x);
            }
        } else {
            assert forall|i: int| 0 <= i < taps.len() implies now - #[trigger] taps[i]
                <= PASTE_BURST_WINDOW by {
                if i > 0 {
                    assert(taps[0] <= taps[i]);
                }
            }
        }
    }
}

/// All keys that the guard counts lie in the window, so a flood is that many
/// keys within it and nothing else.
pub proof fn law_flood_is_within_window(g: GuardView, now: u64)
    requires
        in_time(g.taps),
        g.taps.len() > 0 ==> g.taps.last() <= now,
    ensures
        in_time(observed(g, now).taps),
        forall|i: int|
            0 <= i < observed(g, now).taps.len() ==> now - #[trigger] observed(g, now).taps[i]
                <= PASTE_BURST_WINDOW,
{
    lemma_recent(g.taps, now);
    let r = recent(g.taps, now);
    assert forall|i: int| 0 <= i < r.len() implies #[trigger] r[i] <= now by {
        assert(g.taps.contains(r[i]));
        let k = choose|k: int| 0 <= k < g.taps.len() && g.taps[k] == r[i];
        if k < g.taps.len() - 1 {
            assert(g.taps[k] <= g.taps.last());
        }
    }
}

/// Within one flood the user is told of it once: as long as the flood lasts,
/// a guard that has told stays silent.
pub proof fn law_told_once_per_flood(g: GuardView, now: u64)
    requires
        g.toasted,
        is_flood(observed(g, now)),
    ensures
        observed(g, now).toasted,
{
}

} // verus!
