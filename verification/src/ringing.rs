//! The session model behind the event stream: which epoch and log it follows,
//! how far it has read, which interactions are open, and who drives.

use crate::text::{blank, is_blank, lemma_texts_push, opt_text, str_eq, texts};
use vstd::prelude::*;

verus! {

broadcast use lemma_texts_push;

/// How an event is delivered. Only reliable events move the cursor.
#[derive(Clone, Copy, Debug, PartialEq, Eq, Structural)]
pub enum Delivery {
    Reliable,
    Replaceable,
    Ephemeral,
}

/// What an event says about its place in the stream; its payload is handled
/// elsewhere.
#[derive(Clone, Debug, PartialEq, Eq)]
pub struct EventMeta {
    pub server_epoch: String,
    pub log_id: Option<String>,
    pub fact_seq: Option<u64>,
    pub projection_index: Option<u16>,
    pub cursor: Option<String>,
    pub delivery: Delivery,
    pub revision: Option<u64>,
}

impl EventMeta {
    /// A reliable event.
    pub fn reliable(
        server_epoch: &str,
        log_id: &str,
        fact_seq: u64,
        projection_index: u16,
        cursor: &str,
        revision: u64,
    ) -> (e: Self)
        ensures
            e.server_epoch@ == server_epoch@,
            e.log_id matches Some(l) && l@ == log_id@,
            e.fact_seq == Some(fact_seq),
            e.projection_index == Some(projection_index),
            e.cursor matches Some(c) && c@ == cursor@,
            e.delivery is Reliable,
            e.revision == Some(revision),
    {
        EventMeta {
            server_epoch: server_epoch.to_owned(),
            log_id: Some(log_id.to_owned()),
            fact_seq: Some(fact_seq),
            projection_index: Some(projection_index),
            cursor: Some(cursor.to_owned()),
            delivery: Delivery::Reliable,
            revision: Some(revision),
        }
    }

    /// A replaceable event.
    pub fn replaceable(server_epoch: &str, log_id: Option<String>, revision: u64) -> (e: Self)
        ensures
            e.server_epoch@ == server_epoch@,
            e.log_id == log_id,
            e.fact_seq is None,
            e.projection_index is None,
            e.cursor is None,
            e.delivery is Replaceable,
            e.revision == Some(revision),
    {
        EventMeta {
            server_epoch: server_epoch.to_owned(),
            log_id,
            fact_seq: None,
            projection_index: None,
            cursor: None,
            delivery: Delivery::Replaceable,
            revision: Some(revision),
        }
    }

    /// An ephemeral event.
    pub fn ephemeral(server_epoch: &str) -> (e: Self)
        ensures
            e.server_epoch@ == server_epoch@,
            e.log_id is None,
            e.fact_seq is None,
            e.projection_index is None,
            e.cursor is None,
            e.delivery is Ephemeral,
            e.revision is None,
    {
        EventMeta {
            server_epoch: server_epoch.to_owned(),
            log_id: None,
            fact_seq: None,
            projection_index: None,
            cursor: None,
            delivery: Delivery::Ephemeral,
            revision: None,
        }
    }
}

/// What the user is asked for.
#[derive(Clone, Copy, Debug, PartialEq, Eq, Structural)]
pub enum InteractionKind {
    Permission,
    Ask,
    PlanReview,
}

/// An open interaction.
#[derive(Clone, Debug, PartialEq, Eq)]
pub struct PendingInteraction {
    pub interaction_id: String,
    pub call_id: String,
    pub turn_id: String,
    pub kind: InteractionKind,
}

/// Who drives the session.
#[derive(Clone, Debug, PartialEq, Eq)]
pub struct DriverState {
    pub holder: Option<String>,
    pub driver_epoch: u64,
    pub can_claim: bool,
}

/// Why the stream has to be read anew.
#[derive(Clone, Copy, Debug, PartialEq, Eq, Structural)]
pub enum ResetReason {
    CursorExpired,
    LogIdMismatch,
    UnknownFact,
    UpgradeRequired,
    ReplayOverflow,
    V1EpochMismatch,
    CrossSession,
    SnapshotMissing,
    SnapshotExpired,
    SnapshotHashMismatch,
    StaleWriter,
    ContentQuotaExceeded,
    PerConnectionOverflow,
    ProgressBufferOverflow,
    ActorMailboxOverflow,
}

impl ResetReason {
    /// There is no new start for the session: it can only be read.
    pub open spec fn read_only(self) -> bool {
        self == ResetReason::SnapshotMissing || self == ResetReason::UpgradeRequired
    }

    /// There is no new start for the session: it can only be read.
    pub fn is_read_only(self) -> (r: bool)
        ensures
            r == self.read_only(),
    {
        match self {
            ResetReason::SnapshotMissing => true,
            ResetReason::UpgradeRequired => true,
            _ => false,
        }
    }
}

/// The order to read the stream anew.
#[derive(Clone, Debug, PartialEq, Eq)]
pub struct ResetSignal {
    pub server_epoch: String,
    pub seed: String,
    pub log_id: Option<String>,
    pub snapshot_cursor: Option<String>,
    pub snapshot_fact_seq: Option<u64>,
    pub reason: ResetReason,
}

/// A new start: where the stream stands, what is open, and who drives.
#[derive(Clone, Debug, PartialEq, Eq)]
pub struct BootstrapSnapshot {
    pub server_epoch: String,
    pub seed: String,
    pub log_id: Option<String>,
    pub snapshot_cursor: String,
    pub snapshot_fact_seq: u64,
    pub state_revision: u64,
    pub pending_interactions: Vec<PendingInteraction>,
    pub driver: Option<DriverState>,
}

/// What became of an event.
#[derive(Clone, Debug, PartialEq, Eq)]
pub enum ApplyOutcome {
    ReliableApplied { fact_seq: u64, projection_index: u16 },
    ReplaceableApplied { revision: u64 },
    Ephemeral,
    Duplicate,
    Stale,
    EpochMismatch,
    LogMismatch,
    NotInitialized,
    ResetPending,
    Malformed(&'static str),
}

/// What became of an event.
#[verifier::ext_equal]
pub enum OutcomeView {
    ReliableApplied { fact_seq: u64, projection_index: u16 },
    ReplaceableApplied { revision: u64 },
    Ephemeral,
    Duplicate,
    Stale,
    EpochMismatch,
    LogMismatch,
    NotInitialized,
    ResetPending,
    Malformed(Seq<char>),
}

impl View for ApplyOutcome {
    type V = OutcomeView;

    open spec fn view(&self) -> OutcomeView {
        match *self {
            ApplyOutcome::ReliableApplied { fact_seq, projection_index } => {
                OutcomeView::ReliableApplied { fact_seq, projection_index }
            },
            ApplyOutcome::ReplaceableApplied { revision } => OutcomeView::ReplaceableApplied {
                revision,
            },
            ApplyOutcome::Ephemeral => OutcomeView::Ephemeral,
            ApplyOutcome::Duplicate => OutcomeView::Duplicate,
            ApplyOutcome::Stale => OutcomeView::Stale,
            ApplyOutcome::EpochMismatch => OutcomeView::EpochMismatch,
            ApplyOutcome::LogMismatch => OutcomeView::LogMismatch,
            ApplyOutcome::NotInitialized => OutcomeView::NotInitialized,
            ApplyOutcome::ResetPending => OutcomeView::ResetPending,
            ApplyOutcome::Malformed(why) => OutcomeView::Malformed(why@),
        }
    }
}

/// What became of a new start.
#[derive(Clone, Copy, Debug, PartialEq, Eq, Structural)]
pub enum BootstrapOutcome {
    Applied,
    SeedMismatch,
    Invalid,
    ResetMismatch,
    Stale,
}

/// What became of an interaction.
#[derive(Clone, Copy, Debug, PartialEq, Eq, Structural)]
pub enum InteractionOutcome {
    Requested,
    Resolved,
    Expired,
    Duplicate,
    AlreadyTerminal,
    Unknown,
}

/// What became of a change of driver.
#[derive(Clone, Copy, Debug, PartialEq, Eq, Structural)]
pub enum DriverOutcome {
    Applied,
    Duplicate,
    Stale,
    Conflict,
}

/// An open interaction.
#[verifier::ext_equal]
pub struct PendingView {
    pub id: Seq<char>,
    pub call_id: Seq<char>,
    pub turn_id: Seq<char>,
    pub kind: InteractionKind,
}

impl View for PendingInteraction {
    type V = PendingView;

    open spec fn view(&self) -> PendingView {
        PendingView {
            id: self.interaction_id@,
            call_id: self.call_id@,
            turn_id: self.turn_id@,
            kind: self.kind,
        }
    }
}

/// Who drives the session.
#[verifier::ext_equal]
pub struct DriverView {
    pub holder: Option<Seq<char>>,
    pub driver_epoch: u64,
    pub can_claim: bool,
}

impl View for DriverState {
    type V = DriverView;

    open spec fn view(&self) -> DriverView {
        DriverView {
            holder: opt_text(self.holder),
            driver_epoch: self.driver_epoch,
            can_claim: self.can_claim,
        }
    }
}

/// The order to read the stream anew.
#[verifier::ext_equal]
pub struct ResetView {
    pub server_epoch: Seq<char>,
    pub seed: Seq<char>,
    pub log_id: Option<Seq<char>>,
    pub snapshot_cursor: Option<Seq<char>>,
    pub snapshot_fact_seq: Option<u64>,
    pub reason: ResetReason,
}

impl View for ResetSignal {
    type V = ResetView;

    open spec fn view(&self) -> ResetView {
        ResetView {
            server_epoch: self.server_epoch@,
            seed: self.seed@,
            log_id: opt_text(self.log_id),
            snapshot_cursor: opt_text(self.snapshot_cursor),
            snapshot_fact_seq: self.snapshot_fact_seq,
            reason: self.reason,
        }
    }
}

/// Open interactions.
pub open spec fn pendings(v: Seq<PendingInteraction>) -> Seq<PendingView> {
    Seq::new(v.len(), |i: int| v[i]@)
}

/// `a` comes before `b` in the order of their characters.
pub open spec fn before(a: Seq<char>, b: Seq<char>) -> bool
    decreases a.len(),
{
    if b.len() == 0 {
        false
    } else if a.len() == 0 {
        true
    } else if a[0] == b[0] {
        before(a.drop_first(), b.drop_first())
    } else {
        a[0] < b[0]
    }
}

/// `s` with `p` in its place by id; one with the same id is replaced.
pub open spec fn placed(s: Seq<PendingView>, p: PendingView) -> Seq<PendingView>
    decreases s.len(),
{
    if s.len() == 0 {
        seq![p]
    } else if s[0].id == p.id {
        seq![p] + s.drop_first()
    } else if before(p.id, s[0].id) {
        seq![p] + s
    } else {
        seq![s[0]] + placed(s.drop_first(), p)
    }
}

/// All of `new` placed one after the other.
pub open spec fn placed_all(new: Seq<PendingView>) -> Seq<PendingView>
    decreases new.len(),
{
    if new.len() == 0 {
        Seq::empty()
    } else {
        placed(placed_all(new.drop_last()), new.last())
    }
}

/// An interaction with this id is open.
pub open spec fn is_open(s: Seq<PendingView>, id: Seq<char>) -> bool {
    exists|i: int| 0 <= i < s.len() && (#[trigger] s[i]).id == id
}

/// `s` without the interactions with this id.
pub open spec fn closed(s: Seq<PendingView>, id: Seq<char>) -> Seq<PendingView>
    decreases s.len(),
{
    if s.len() == 0 {
        s
    } else if s.last().id == id {
        closed(s.drop_last(), id)
    } else {
        closed(s.drop_last(), id).push(s.last())
    }
}

/// The session model.
#[verifier::ext_equal]
pub struct RingingView {
    pub seed: Seq<char>,
    pub epoch: Option<Seq<char>>,
    pub log: Option<Seq<char>>,
    pub cursor: Option<Seq<char>>,
    pub fact_seq: u64,
    pub projection_index: u16,
    pub revision: u64,
    pub pending: Seq<PendingView>,
    pub terminal: Set<Seq<char>>,
    pub driver: Option<DriverView>,
    pub reset: Option<ResetView>,
}

/// A model that has read nothing yet.
pub open spec fn fresh_model(seed: Seq<char>) -> RingingView {
    RingingView {
        seed,
        epoch: None,
        log: None,
        cursor: None,
        fact_seq: 0,
        projection_index: 0,
        revision: 0,
        pending: Seq::empty(),
        terminal: Set::empty(),
        driver: None,
        reset: None,
    }
}

/// A new start is no answer to the reset that is due: another epoch, another
/// log, or from before the reset.
pub open spec fn reset_mismatch(r: ResetView, b: BootstrapSnapshot) -> bool {
    ||| b.server_epoch@ != r.server_epoch
    ||| r.log_id is Some && opt_text(b.log_id) != r.log_id
    ||| (r.snapshot_fact_seq matches Some(f) && b.snapshot_fact_seq < f)
}

/// What becomes of a new start.
pub open spec fn bootstrap_outcome(m: RingingView, b: BootstrapSnapshot) -> BootstrapOutcome {
    if b.seed@ != m.seed {
        BootstrapOutcome::SeedMismatch
    } else if blank(b.server_epoch@) || blank(b.snapshot_cursor@) {
        BootstrapOutcome::Invalid
    } else {
        match m.reset {
            Some(r) => if reset_mismatch(r, b) {
                BootstrapOutcome::ResetMismatch
            } else {
                BootstrapOutcome::Applied
            },
            None => if m.epoch == Some(b.server_epoch@) && b.state_revision < m.revision {
                BootstrapOutcome::Stale
            } else {
                BootstrapOutcome::Applied
            },
        }
    }
}

/// The model after a new start.
pub open spec fn start_step(m: RingingView, b: BootstrapSnapshot) -> RingingView {
    if bootstrap_outcome(m, b) == BootstrapOutcome::Applied {
        started(m, b)
    } else {
        m
    }
}

/// The model after a sign that a new start is due.
pub open spec fn reset_step(m: RingingView, r: ResetSignal) -> RingingView {
    if r.seed@ == m.seed {
        RingingView { reset: Some(r@), ..m }
    } else {
        m
    }
}

/// The model after a new start that is taken.
pub open spec fn started(m: RingingView, b: BootstrapSnapshot) -> RingingView {
    RingingView {
        seed: m.seed,
        epoch: Some(b.server_epoch@),
        log: opt_text(b.log_id),
        cursor: Some(b.snapshot_cursor@),
        fact_seq: 0,
        projection_index: 0,
        revision: b.state_revision,
        pending: placed_all(pendings(b.pending_interactions@)),
        terminal: Set::empty(),
        driver: match b.driver {
            Some(d) => Some(d@),
            None => None,
        },
        reset: None,
    }
}

/// A reliable event: it counts if it comes later in the log than the last one.
pub open spec fn reliable_step(m: RingingView, e: EventMeta) -> (RingingView, OutcomeView) {
    if e.log_id is None {
        (m, OutcomeView::Malformed("reliable requires log_id"@))
    } else if e.fact_seq is None {
        (m, OutcomeView::Malformed("reliable requires fact_seq"@))
    } else if e.projection_index is None {
        (m, OutcomeView::Malformed("reliable requires projection_index"@))
    } else if e.cursor is None {
        (m, OutcomeView::Malformed("reliable requires cursor"@))
    } else if e.revision is None {
        (m, OutcomeView::Malformed("reliable requires revision"@))
    } else if m.log is Some && m.log != Some(e.log_id->0@) {
        (m, OutcomeView::LogMismatch)
    } else {
        let at = RingingView { log: Some(e.log_id->0@), ..m };
        let f = e.fact_seq->0;
        let p = e.projection_index->0;
        if f == m.fact_seq && p == m.projection_index {
            (at, OutcomeView::Duplicate)
        } else if f < m.fact_seq || (f == m.fact_seq && p < m.projection_index) {
            (at, OutcomeView::Stale)
        } else {
            (
                RingingView {
                    cursor: Some(e.cursor->0@),
                    fact_seq: f,
                    projection_index: p,
                    revision: if m.revision >= e.revision->0 {
                        m.revision
                    } else {
                        e.revision->0
                    },
                    ..at
                },
                OutcomeView::ReliableApplied { fact_seq: f, projection_index: p },
            )
        }
    }
}

/// A replaceable event: it counts if its revision is newer.
pub open spec fn replaceable_step(m: RingingView, e: EventMeta) -> (RingingView, OutcomeView) {
    match e.revision {
        None => (m, OutcomeView::Malformed("replaceable requires revision"@)),
        Some(r) => if r < m.revision {
            (m, OutcomeView::Stale)
        } else if r == m.revision {
            (m, OutcomeView::Duplicate)
        } else {
            (
                RingingView { revision: r, ..m },
                OutcomeView::ReplaceableApplied { revision: r },
            )
        },
    }
}

/// An event.
pub open spec fn event_step(m: RingingView, e: EventMeta) -> (RingingView, OutcomeView) {
    if m.reset is Some {
        (m, OutcomeView::ResetPending)
    } else if m.epoch is None {
        (m, OutcomeView::NotInitialized)
    } else if m.epoch != Some(e.server_epoch@) {
        (m, OutcomeView::EpochMismatch)
    } else {
        match e.delivery {
            Delivery::Reliable => reliable_step(m, e),
            Delivery::Replaceable => replaceable_step(m, e),
            Delivery::Ephemeral => (m, OutcomeView::Ephemeral),
        }
    }
}

/// A request: it opens an interaction that is neither open nor over.
pub open spec fn request_step(m: RingingView, p: PendingView) -> (RingingView, InteractionOutcome) {
    if m.terminal.contains(p.id) {
        (m, InteractionOutcome::AlreadyTerminal)
    } else if is_open(m.pending, p.id) {
        (m, InteractionOutcome::Duplicate)
    } else {
        (
            RingingView { pending: placed(m.pending, p), ..m },
            InteractionOutcome::Requested,
        )
    }
}

/// The end of an interaction, once: `done` where it was open.
pub open spec fn end_step(m: RingingView, id: Seq<char>, done: InteractionOutcome) -> (
    RingingView,
    InteractionOutcome,
) {
    if m.terminal.contains(id) {
        (m, InteractionOutcome::AlreadyTerminal)
    } else {
        (
            RingingView {
                pending: closed(m.pending, id),
                terminal: m.terminal.insert(id),
                ..m
            },
            if is_open(m.pending, id) {
                done
            } else {
                InteractionOutcome::Unknown
            },
        )
    }
}

/// A change of driver: a newer driver epoch is taken.
pub open spec fn driver_step(m: RingingView, d: DriverView) -> (RingingView, DriverOutcome) {
    match m.driver {
        Some(c) => if d.driver_epoch < c.driver_epoch {
            (m, DriverOutcome::Stale)
        } else if d == c {
            (m, DriverOutcome::Duplicate)
        } else if d.driver_epoch == c.driver_epoch {
            (m, DriverOutcome::Conflict)
        } else {
            (RingingView { driver: Some(d), ..m }, DriverOutcome::Applied)
        },
        None => (RingingView { driver: Some(d), ..m }, DriverOutcome::Applied),
    }
}

/// The session model.
#[derive(Clone, Debug, PartialEq, Eq)]
pub struct RingingV2SessionModel {
    seed: String,
    server_epoch: Option<String>,
    log_id: Option<String>,
    cursor: Option<String>,
    last_fact_seq: u64,
    last_projection_index: u16,
    state_revision: u64,
    pending_interactions: Vec<PendingInteraction>,
    terminal_interactions: Vec<String>,
    driver: Option<DriverState>,
    reset: Option<ResetSignal>,
}

impl View for RingingV2SessionModel {
    type V = RingingView;

    closed spec fn view(&self) -> RingingView {
        RingingView {
            seed: self.seed@,
            epoch: opt_text(self.server_epoch),
            log: opt_text(self.log_id),
            cursor: opt_text(self.cursor),
            fact_seq: self.last_fact_seq,
            projection_index: self.last_projection_index,
            revision: self.state_revision,
            pending: pendings(self.pending_interactions@),
            terminal: texts(self.terminal_interactions@).to_set(),
            driver: match self.driver {
                Some(d) => Some(d@),
                None => None,
            },
            reset: match self.reset {
                Some(r) => Some(r@),
                None => None,
            },
        }
    }
}

/// Whether an optional string holds exactly `s`.
pub fn opt_is(o: &Option<String>, s: &str) -> (r: bool)
    ensures
        r == (opt_text(*o) == Some(s@)),
{
    match o {
        Some(t) => str_eq(t.as_str(), s),
        None => false,
    }
}

/// Whether two optional strings hold the same.
pub fn opt_same(a: &Option<String>, b: &Option<String>) -> (r: bool)
    ensures
        r == (opt_text(*a) == opt_text(*b)),
{
    match (a, b) {
        (Some(x), Some(y)) => str_eq(x.as_str(), y.as_str()),
        (None, None) => true,
        _ => false,
    }
}

/// Whether `a` comes before `b`.
pub fn comes_before(a: &str, b: &str) -> (r: bool)
    ensures
        r == before(a@, b@),
{
    let x = crate::text::chars_of(a);
    let y = crate::text::chars_of(b);
    let mut i: usize = 0;
    assert(x@.skip(0) =~= x@);
    assert(y@.skip(0) =~= y@);
    while i < x.len() && i < y.len()
        invariant
            i <= x@.len(),
            i <= y@.len(),
            x@ == a@,
            y@ == b@,
            before(a@, b@) == before(x@.skip(i as int), y@.skip(i as int)),
        decreases x@.len() - i,
    {
        proof {
            assert(x@.skip(i as int).drop_first() =~= x@.skip(i + 1));
            assert(y@.skip(i as int).drop_first() =~= y@.skip(i + 1));
        }
        if x[i] != y[i] {
            return x[i] < y[i];
        }
        i += 1;
    }
    i < y.len()
}

proof fn lemma_placed_at(s: Seq<PendingView>, p: PendingView, k: int)
    requires
        0 <= k <= s.len(),
        forall|j: int| 0 <= j < k ==> (#[trigger] s[j]).id != p.id && !before(p.id, s[j].id),
        k < s.len() ==> s[k].id == p.id || before(p.id, s[k].id),
    ensures
        placed(s, p) == if k < s.len() && s[k].id == p.id {
            s.update(k, p)
        } else {
            s.take(k) + seq![p] + s.skip(k)
        },
    decreases k,
{
    if k == 0 {
        if s.len() > 0 && s[0].id == p.id {
            assert(placed(s, p) =~= s.update(0, p));
        } else {
            assert(s.take(0) + seq![p] + s.skip(0) =~= seq![p] + s);
            assert(placed(s, p) =~= s.take(0) + seq![p] + s.skip(0));
        }
    } else {
        let rest = s.drop_first();
        assert forall|j: int| 0 <= j < k - 1 implies (#[trigger] rest[j]).id != p.id && !before(
            p.id,
            rest[j].id,
        ) by {
            assert(rest[j] == s[j + 1]);
        }
        lemma_placed_at(rest, p, k - 1);
        assert(s[0].id != p.id && !before(p.id, s[0].id));
        if k < s.len() && s[k].id == p.id {
            assert(placed(s, p) =~= s.update(k, p));
        } else {
            assert(placed(s, p) =~= s.take(k) + seq![p] + s.skip(k));
        }
    }
}

fn place(v: &mut Vec<PendingInteraction>, p: PendingInteraction)
    ensures
        pendings(final(v)@) == placed(pendings(old(v)@), p@),
{
    let ghost s = pendings(v@);
    let n: usize = v.len();
    let mut k: usize = 0;
    while k < n && !str_eq(v[k].interaction_id.as_str(), p.interaction_id.as_str())
        && !comes_before(p.interaction_id.as_str(), v[k].interaction_id.as_str())
        invariant
            k <= n == v@.len(),
            s == pendings(v@),
            forall|j: int| 0 <= j < k ==> (#[trigger] s[j]).id != p@.id && !before(p@.id, s[j].id),
        decreases n - k,
    {
        k += 1;
    }
    proof {
        lemma_placed_at(s, p@, k as int);
    }
    if k < n && str_eq(v[k].interaction_id.as_str(), p.interaction_id.as_str()) {
        v.set(k, p);
        assert(pendings(v@) =~= s.update(k as int, p@));
    } else {
        v.insert(k, p);
        assert(pendings(v@) =~= s.take(k as int) + seq![p@] + s.skip(k as int));
    }
}

fn place_all(new: Vec<PendingInteraction>) -> (v: Vec<PendingInteraction>)
    ensures
        pendings(v@) == placed_all(pendings(new@)),
{
    let slots = crate::align::to_slots(new);
    let ghost all = pendings(new@);
    let mut slots = slots;
    let n: usize = slots.len();
    let mut v: Vec<PendingInteraction> = Vec::new();
    let mut i: usize = 0;
    assert(all.take(0) =~= Seq::empty());
    assert(pendings(v@) =~= Seq::empty());
    while i < n
        invariant
            i <= n == slots@.len(),
            n == new@.len(),
            all == pendings(new@),
            forall|j: int| i <= j < n ==> #[trigger] slots@[j] == Some(new@[j]),
            pendings(v@) == placed_all(all.take(i as int)),
        decreases n - i,
    {
        proof {
            assert(all.take(i + 1).drop_last() =~= all.take(i as int));
        }
        match crate::align::take_slot(&mut slots, i) {
            Some(p) => {
                place(&mut v, p);
            },
            None => {},
        }
        i += 1;
    }
    assert(all.take(i as int) =~= all);
    v
}

fn holds_open(v: &Vec<PendingInteraction>, id: &str) -> (r: bool)
    ensures
        r == is_open(pendings(v@), id@),
{
    let ghost s = pendings(v@);
    let mut i: usize = 0;
    while i < v.len()
        invariant
            i <= v@.len(),
            s == pendings(v@),
            forall|j: int| 0 <= j < i ==> (#[trigger] s[j]).id != id@,
        decreases v@.len() - i,
    {
        if str_eq(v[i].interaction_id.as_str(), id) {
            assert(s[i as int].id == id@);
            return true;
        }
        i += 1;
    }
    false
}

fn close(v: Vec<PendingInteraction>, id: &str) -> (r: Vec<PendingInteraction>)
    ensures
        pendings(r@) == closed(pendings(v@), id@),
{
    let ghost all = pendings(v@);
    let mut slots = crate::align::to_slots(v);
    let n: usize = slots.len();
    let mut r: Vec<PendingInteraction> = Vec::new();
    let mut i: usize = 0;
    assert(all.take(0) =~= Seq::empty());
    assert(pendings(r@) =~= Seq::empty());
    while i < n
        invariant
            i <= n == slots@.len(),
            n == v@.len(),
            all == pendings(v@),
            forall|j: int| i <= j < n ==> #[trigger] slots@[j] == Some(v@[j]),
            pendings(r@) == closed(all.take(i as int), id@),
        decreases n - i,
    {
        proof {
            assert(all.take(i + 1).drop_last() =~= all.take(i as int));
        }
        match crate::align::take_slot(&mut slots, i) {
            Some(p) => {
                if !str_eq(p.interaction_id.as_str(), id) {
                    let ghost was = r@;
                    r.push(p);
                    assert(pendings(r@) =~= pendings(was).push(p@));
                }
            },
            None => {},
        }
        i += 1;
    }
    assert(all.take(i as int) =~= all);
    r
}

fn holds_text(v: &Vec<String>, id: &str) -> (r: bool)
    ensures
        r == texts(v@).to_set().contains(id@),
{
    let ghost s = texts(v@);
    let mut i: usize = 0;
    while i < v.len()
        invariant
            i <= v@.len(),
            s == texts(v@),
            forall|j: int| 0 <= j < i ==> #[trigger] s[j] != id@,
        decreases v@.len() - i,
    {
        if str_eq(v[i].as_str(), id) {
            assert(s[i as int] == id@);
            assert(s.contains(id@));
            return true;
        }
        i += 1;
    }
    assert(!s.contains(id@));
    false
}

impl RingingV2SessionModel {
    /// A model that has read nothing yet.
    pub fn new(seed: &str) -> (m: Self)
        ensures
            m@ == fresh_model(seed@),
    {
        let m = RingingV2SessionModel {
            seed: seed.to_owned(),
            server_epoch: None,
            log_id: None,
            cursor: None,
            last_fact_seq: 0,
            last_projection_index: 0,
            state_revision: 0,
            pending_interactions: Vec::new(),
            terminal_interactions: Vec::new(),
            driver: None,
            reset: None,
        };
        assert(m@.pending =~= Seq::empty());
        assert(m@.terminal =~= Set::empty());
        m
    }

    /// The epoch that the model follows.
    pub fn server_epoch(&self) -> (r: Option<&str>)
        ensures
            match r {
                Some(s) => self@.epoch == Some(s@),
                None => self@.epoch is None,
            },
    {
        match &self.server_epoch {
            Some(s) => Some(s.as_str()),
            None => None,
        }
    }

    /// How far the model has read.
    pub fn cursor(&self) -> (r: Option<&str>)
        ensures
            match r {
                Some(s) => self@.cursor == Some(s@),
                None => self@.cursor is None,
            },
    {
        match &self.cursor {
            Some(s) => Some(s.as_str()),
            None => None,
        }
    }

    /// The place of the last reliable event in its log.
    pub fn position(&self) -> (r: (u64, u16))
        ensures
            r == (self@.fact_seq, self@.projection_index),
    {
        (self.last_fact_seq, self.last_projection_index)
    }

    /// The newest revision seen.
    pub fn state_revision(&self) -> (r: u64)
        ensures
            r == self@.revision,
    {
        self.state_revision
    }

    /// A new start is due.
    pub fn is_reset_pending(&self) -> (r: bool)
        ensures
            r == (self@.reset is Some),
    {
        self.reset.is_some()
    }

    /// There will be no new start: the session can only be read.
    pub fn is_read_only(&self) -> (r: bool)
        ensures
            r == (self@.reset matches Some(s) && s.reason.read_only()),
    {
        match &self.reset {
            Some(s) => s.reason.is_read_only(),
            None => false,
        }
    }

    /// Who drives the session.
    pub fn driver(&self) -> (r: Option<&DriverState>)
        ensures
            match r {
                Some(d) => self@.driver == Some(d@),
                None => self@.driver is None,
            },
    {
        match &self.driver {
            Some(d) => Some(d),
            None => None,
        }
    }

    /// Whether this client drives the session.
    pub fn is_driver(&self, client_session_id: &str) -> (r: bool)
        ensures
            r == (self@.driver matches Some(d) && d.holder == Some(client_session_id@)),
    {
        match &self.driver {
            Some(d) => opt_is(&d.holder, client_session_id),
            None => false,
        }
    }

    /// The open interactions in the order of their ids.
    pub fn pending_interactions(&self) -> (r: &Vec<PendingInteraction>)
        ensures
            pendings(r@) == self@.pending,
    {
        &self.pending_interactions
    }

    /// Takes a new start, as a whole or not at all.
    pub fn apply_bootstrap(&mut self, bootstrap: BootstrapSnapshot) -> (r: BootstrapOutcome)
        ensures
            r == bootstrap_outcome(old(self)@, bootstrap),
            final(self)@ == start_step(old(self)@, bootstrap),
    {
        if !str_eq(bootstrap.seed.as_str(), self.seed.as_str()) {
            return BootstrapOutcome::SeedMismatch;
        }
        if is_blank(bootstrap.server_epoch.as_str()) || is_blank(
            bootstrap.snapshot_cursor.as_str(),
        ) {
            return BootstrapOutcome::Invalid;
        }
        match &self.reset {
            Some(reset) => {
                if !str_eq(bootstrap.server_epoch.as_str(), reset.server_epoch.as_str()) {
                    return BootstrapOutcome::ResetMismatch;
                }
                if reset.log_id.is_some() && !opt_same(&bootstrap.log_id, &reset.log_id) {
                    return BootstrapOutcome::ResetMismatch;
                }
                match reset.snapshot_fact_seq {
                    Some(f) => {
                        if bootstrap.snapshot_fact_seq < f {
                            return BootstrapOutcome::ResetMismatch;
                        }
                    },
                    None => {},
                }
            },
            None => {
                if opt_is(&self.server_epoch, bootstrap.server_epoch.as_str())
                    && bootstrap.state_revision < self.state_revision {
                    return BootstrapOutcome::Stale;
                }
            },
        }
        let ghost b = bootstrap;
        self.server_epoch = Some(bootstrap.server_epoch);
        self.log_id = bootstrap.log_id;
        self.cursor = Some(bootstrap.snapshot_cursor);
        self.last_fact_seq = 0;
        self.last_projection_index = 0;
        self.state_revision = bootstrap.state_revision;
        self.pending_interactions = place_all(bootstrap.pending_interactions);
        self.terminal_interactions = Vec::new();
        self.driver = bootstrap.driver;
        self.reset = None;
        assert(self@.terminal =~= Set::empty());
        assert(self@ =~= started(old(self)@, b));
        BootstrapOutcome::Applied
    }

    /// Marks a new start as due; what is known stays until it comes.
    pub fn begin_reset(&mut self, reset: ResetSignal) -> (r: bool)
        ensures
            r == (reset.seed@ == old(self)@.seed),
            final(self)@ == reset_step(old(self)@, reset),
    {
        if !str_eq(reset.seed.as_str(), self.seed.as_str()) {
            return false;
        }
        let ghost s = reset;
        self.reset = Some(reset);
        assert(self@ =~= (RingingView { reset: Some(s@), ..old(self)@ }));
        true
    }

    /// Takes an event.
    pub fn apply_event(&mut self, event: EventMeta) -> (r: ApplyOutcome)
        ensures
            (final(self)@, r@) == event_step(old(self)@, event),
    {
        if self.reset.is_some() {
            return ApplyOutcome::ResetPending;
        }
        if self.server_epoch.is_none() {
            return ApplyOutcome::NotInitialized;
        }
        if !opt_is(&self.server_epoch, event.server_epoch.as_str()) {
            return ApplyOutcome::EpochMismatch;
        }
        match event.delivery {
            Delivery::Reliable => self.apply_reliable(event),
            Delivery::Replaceable => self.apply_replaceable(event),
            Delivery::Ephemeral => ApplyOutcome::Ephemeral,
        }
    }

    fn apply_reliable(&mut self, event: EventMeta) -> (r: ApplyOutcome)
        ensures
            (final(self)@, r@) == reliable_step(old(self)@, event),
    {
        let ghost e = event;
        let log_id = match event.log_id {
            Some(l) => l,
            None => {
                return ApplyOutcome::Malformed("reliable requires log_id");
            },
        };
        let fact_seq: u64 = match event.fact_seq {
            Some(f) => f,
            None => {
                return ApplyOutcome::Malformed("reliable requires fact_seq");
            },
        };
        let projection_index: u16 = match event.projection_index {
            Some(p) => p,
            None => {
                return ApplyOutcome::Malformed("reliable requires projection_index");
            },
        };
        let cursor = match event.cursor {
            Some(c) => c,
            None => {
                return ApplyOutcome::Malformed("reliable requires cursor");
            },
        };
        let revision: u64 = match event.revision {
            Some(v) => v,
            None => {
                return ApplyOutcome::Malformed("reliable requires revision");
            },
        };
        if self.log_id.is_some() {
            if !opt_is(&self.log_id, log_id.as_str()) {
                return ApplyOutcome::LogMismatch;
            }
        } else {
            self.log_id = Some(log_id);
        }
        let ghost at = RingingView { log: Some(e.log_id->0@), ..old(self)@ };
        assert(self@ =~= at);
        if fact_seq == self.last_fact_seq && projection_index == self.last_projection_index {
            return ApplyOutcome::Duplicate;
        }
        if fact_seq < self.last_fact_seq || (fact_seq == self.last_fact_seq && projection_index
            < self.last_projection_index) {
            return ApplyOutcome::Stale;
        }
        self.cursor = Some(cursor);
        self.last_fact_seq = fact_seq;
        self.last_projection_index = projection_index;
        if self.state_revision < revision {
            self.state_revision = revision;
        }
        assert(self@ =~= reliable_step(old(self)@, e).0);
        ApplyOutcome::ReliableApplied { fact_seq, projection_index }
    }

    fn apply_replaceable(&mut self, event: EventMeta) -> (r: ApplyOutcome)
        ensures
            (final(self)@, r@) == replaceable_step(old(self)@, event),
    {
        let revision: u64 = match event.revision {
            Some(v) => v,
            None => {
                return ApplyOutcome::Malformed("replaceable requires revision");
            },
        };
        if revision < self.state_revision {
            return ApplyOutcome::Stale;
        }
        if revision == self.state_revision {
            return ApplyOutcome::Duplicate;
        }
        self.state_revision = revision;
        assert(self@ =~= (RingingView { revision, ..old(self)@ }));
        ApplyOutcome::ReplaceableApplied { revision }
    }

    /// Takes a request for an interaction.
    pub fn apply_interaction_requested(&mut self, interaction: PendingInteraction) -> (r:
        InteractionOutcome)
        ensures
            (final(self)@, r) == request_step(old(self)@, interaction@),
    {
        if holds_text(&self.terminal_interactions, interaction.interaction_id.as_str()) {
            return InteractionOutcome::AlreadyTerminal;
        }
        if holds_open(&self.pending_interactions, interaction.interaction_id.as_str()) {
            return InteractionOutcome::Duplicate;
        }
        let ghost p = interaction@;
        place(&mut self.pending_interactions, interaction);
        assert(self@ =~= (RingingView { pending: placed(old(self)@.pending, p), ..old(self)@ }));
        InteractionOutcome::Requested
    }

    fn end_interaction(&mut self, interaction_id: &str, done: InteractionOutcome) -> (r:
        InteractionOutcome)
        ensures
            (final(self)@, r) == end_step(old(self)@, interaction_id@, done),
    {
        if holds_text(&self.terminal_interactions, interaction_id) {
            return InteractionOutcome::AlreadyTerminal;
        }
        let found = holds_open(&self.pending_interactions, interaction_id);
        let mut v: Vec<PendingInteraction> = Vec::new();
        std::mem::swap(&mut self.pending_interactions, &mut v);
        self.pending_interactions = close(v, interaction_id);
        let ghost was = texts(self.terminal_interactions@);
        self.terminal_interactions.push(interaction_id.to_owned());
        proof {
            let now = texts(self.terminal_interactions@);
            assert(now =~= was.push(interaction_id@));
            assert(now.to_set() =~= was.to_set().insert(interaction_id@)) by {
                assert forall|x: Seq<char>| now.to_set().contains(x) == was.to_set().insert(
                    interaction_id@,
                ).contains(x) by {
                    if was.contains(x) {
                        let i = choose|i: int| 0 <= i < was.len() && was[i] == x;
                        assert(now[i] == x);
                    }
                    if x == interaction_id@ {
                        assert(now[was.len() as int] == x);
                    }
                    if now.contains(x) {
                        let i = choose|i: int| 0 <= i < now.len() && now[i] == x;
                        if i < was.len() {
                            assert(was[i] == x);
                        }
                    }
                }
            }
            assert(self@ =~= end_step(old(self)@, interaction_id@, done).0);
        }
        if found {
            done
        } else {
            InteractionOutcome::Unknown
        }
    }

    /// Takes the answer to an interaction.
    pub fn apply_interaction_resolved(&mut self, interaction_id: &str) -> (r: InteractionOutcome)
        ensures
            (final(self)@, r) == end_step(
                old(self)@,
                interaction_id@,
                InteractionOutcome::Resolved,
            ),
    {
        self.end_interaction(interaction_id, InteractionOutcome::Resolved)
    }

    /// Takes the end of an interaction that was not answered in time.
    pub fn apply_interaction_expired(&mut self, interaction_id: &str) -> (r: InteractionOutcome)
        ensures
            (final(self)@, r) == end_step(
                old(self)@,
                interaction_id@,
                InteractionOutcome::Expired,
            ),
    {
        self.end_interaction(interaction_id, InteractionOutcome::Expired)
    }

    /// Takes a change of driver.
    pub fn apply_driver_state(&mut self, driver: DriverState) -> (r: DriverOutcome)
        ensures
            (final(self)@, r) == driver_step(old(self)@, driver@),
    {
        match &self.driver {
            Some(current) => {
                if driver.driver_epoch < current.driver_epoch {
                    return DriverOutcome::Stale;
                }
                if driver.driver_epoch == current.driver_epoch {
                    if opt_same(&driver.holder, &current.holder) && driver.can_claim
                        == current.can_claim {
                        assert(driver@ =~= current@);
                        return DriverOutcome::Duplicate;
                    }
                    return DriverOutcome::Conflict;
                }
            },
            None => {},
        }
        let ghost d = driver@;
        self.driver = Some(driver);
        assert(self@ =~= (RingingView { driver: Some(d), ..old(self)@ }));
        DriverOutcome::Applied
    }
}

/// An event never moves the model back: neither its place in the log nor its
/// revision; and it changes neither seed, epoch, interactions nor driver.
pub proof fn law_events_only_move_forward(m: RingingView, e: EventMeta)
    ensures
        ({
            let (n, _) = event_step(m, e);
            &&& n.fact_seq > m.fact_seq || (n.fact_seq == m.fact_seq && n.projection_index
                >= m.projection_index)
            &&& n.revision >= m.revision
            &&& n.seed == m.seed && n.epoch == m.epoch
            &&& n.pending == m.pending && n.terminal == m.terminal
            &&& n.driver == m.driver && n.reset == m.reset
        }),
{
}

/// Only a reliable event that is applied moves the cursor.
pub proof fn law_only_reliable_moves_cursor(m: RingingView, e: EventMeta)
    ensures
        event_step(m, e).0.cursor != m.cursor ==> e.delivery == Delivery::Reliable && event_step(
            m,
            e,
        ).1 is ReliableApplied,
        event_step(m, e).1 is ReliableApplied ==> event_step(m, e).0.cursor == Some(e.cursor->0@),
{
}

/// An ephemeral event leaves the model as it is.
pub proof fn law_ephemeral_leaves_no_trace(m: RingingView, e: EventMeta)
    requires
        e.delivery == Delivery::Ephemeral,
    ensures
        event_step(m, e).0 == m,
{
}

/// An event that was applied and comes again is a duplicate and changes
/// nothing.
pub proof fn law_repeated_event_is_a_duplicate(m: RingingView, e: EventMeta)
    requires
        event_step(m, e).1 is ReliableApplied || event_step(m, e).1 is ReplaceableApplied,
    ensures
        event_step(event_step(m, e).0, e) == (event_step(m, e).0, OutcomeView::Duplicate),
{
}

/// While a new start is due nothing is read, and what is known stays.
pub proof fn law_reset_keeps_state_until_new_start(m: RingingView, r: ResetView, e: EventMeta)
    ensures
        ({
            let n = RingingView { reset: Some(r), ..m };
            event_step(n, e) == (n, OutcomeView::ResetPending)
        }),
{
}

/// A new start from before the reset, of another epoch or of another log is not
/// taken while the reset is due.
pub proof fn law_old_start_cannot_clear_reset(m: RingingView, b: BootstrapSnapshot)
    requires
        m.reset matches Some(r) && reset_mismatch(r, b),
    ensures
        bootstrap_outcome(m, b) != BootstrapOutcome::Applied,
{
}

/// Without a reset, a new start of the same epoch never takes the revision
/// back.
pub proof fn law_stale_start_cannot_roll_back(m: RingingView, b: BootstrapSnapshot)
    requires
        m.reset is None,
        m.epoch == Some(b.server_epoch@),
        bootstrap_outcome(m, b) == BootstrapOutcome::Applied,
    ensures
        started(m, b).revision >= m.revision,
{
}

/// An interaction that is over is never open again, whatever comes: the first
/// answer wins.
pub proof fn law_over_is_over(m: RingingView, p: PendingView, id: Seq<char>, done: InteractionOutcome)
    requires
        m.terminal.contains(id),
        !is_open(m.pending, id),
    ensures
        end_step(m, id, done) == (m, InteractionOutcome::AlreadyTerminal),
        request_step(m, p).0.terminal.contains(id),
        !is_open(request_step(m, p).0.pending, id),
{
    if p.id != id && request_step(m, p).1 == InteractionOutcome::Requested {
        lemma_placed_ids(m.pending, p, id);
    }
}

/// Placing an interaction opens it and nothing else.
pub proof fn lemma_placed_ids(s: Seq<PendingView>, p: PendingView, id: Seq<char>)
    ensures
        is_open(placed(s, p), id) == (is_open(s, id) || p.id == id),
    decreases s.len(),
{
    let r = placed(s, p);
    if s.len() == 0 {
        assert(r[0] == p);
    } else {
        let rest = s.drop_first();
        lemma_placed_ids(rest, p, id);
        assert forall|i: int| 0 <= i < rest.len() implies #[trigger] rest[i] == s[i + 1] by {}
        if s[0].id == p.id {
            assert forall|i: int| 1 <= i < r.len() implies #[trigger] r[i] == s[i] by {}
            assert(r[0] == p);
            if is_open(s, id) {
                let i = choose|i: int| 0 <= i < s.len() && (#[trigger] s[i]).id == id;
                assert(r[i].id == id);
            }
            if is_open(r, id) {
                let i = choose|i: int| 0 <= i < r.len() && (#[trigger] r[i]).id == id;
                assert(s[i].id == id);
            }
        } else if before(p.id, s[0].id) {
            assert(r[0] == p);
            assert forall|i: int| 0 <= i < s.len() implies #[trigger] r[i + 1] == s[i] by {}
            if is_open(s, id) {
                let i = choose|i: int| 0 <= i < s.len() && (#[trigger] s[i]).id == id;
                assert(r[i + 1].id == id);
            }
            if is_open(r, id) {
                let i = choose|i: int| 0 <= i < r.len() && (#[trigger] r[i]).id == id;
                if i > 0 {
                    assert(s[i - 1].id == id);
                }
            }
        } else {
            let t = placed(rest, p);
            assert(r[0] == s[0]);
            assert forall|i: int| 0 <= i < t.len() implies #[trigger] r[i + 1] == t[i] by {}
            if is_open(t, id) {
                let i = choose|i: int| 0 <= i < t.len() && (#[trigger] t[i]).id == id;
                assert(r[i + 1].id == id);
            }
            if is_open(s, id) {
                let i = choose|i: int| 0 <= i < s.len() && (#[trigger] s[i]).id == id;
                if i > 0 {
                    assert(rest[i - 1].id == id);
                } else {
                    assert(r[0].id == id);
                }
            }
            if is_open(r, id) {
                let i = choose|i: int| 0 <= i < r.len() && (#[trigger] r[i]).id == id;
                if i > 0 {
                    assert(t[i - 1].id == id);
                    if is_open(rest, id) {
                        let j = choose|j: int| 0 <= j < rest.len() && (#[trigger] rest[j]).id == id;
                        assert(s[j + 1].id == id);
                    }
                } else {
                    assert(s[0].id == id);
                }
            }
        }
    }
}

/// Closing an interaction leaves none with its id.
pub proof fn lemma_closed_ids(s: Seq<PendingView>, id: Seq<char>)
    ensures
        !is_open(closed(s, id), id),
    decreases s.len(),
{
    if s.len() > 0 {
        lemma_closed_ids(s.drop_last(), id);
        let c = closed(s.drop_last(), id);
        if s.last().id != id {
            let r = closed(s, id);
            if is_open(r, id) {
                let i = choose|i: int| 0 <= i < r.len() && (#[trigger] r[i]).id == id;
                assert(i < c.len());
                assert(c[i].id == id);
            }
        }
    }
}

/// Once an interaction has ended, answered or not, it is over and not open.
pub proof fn law_ending_ends(m: RingingView, id: Seq<char>, done: InteractionOutcome)
    requires
        !m.terminal.contains(id),
    ensures
        end_step(m, id, done).0.terminal.contains(id),
        !is_open(end_step(m, id, done).0.pending, id),
{
    lemma_closed_ids(m.pending, id);
}

/// The driver epoch never goes back, and within one epoch the driver never
/// changes.
pub proof fn law_driver_epoch_moves_forward(m: RingingView, d: DriverView)
    ensures
        m.driver matches Some(c) ==> (driver_step(m, d).0.driver matches Some(n)
            && (n.driver_epoch > c.driver_epoch || n == c)),
{
}

proof fn lemma_before_transitive(a: Seq<char>, b: Seq<char>, c: Seq<char>)
    requires
        before(a, b),
        before(b, c),
    ensures
        before(a, c),
    decreases a.len(),
{
    if a.len() > 0 && b.len() > 0 && c.len() > 0 && a[0] == b[0] && b[0] == c[0] {
        lemma_before_transitive(a.drop_first(), b.drop_first(), c.drop_first());
    }
}

proof fn lemma_before_total(a: Seq<char>, b: Seq<char>)
    ensures
        a == b || before(a, b) || before(b, a),
    decreases a.len(),
{
    if a.len() == 0 {
        if b.len() == 0 {
            assert(a =~= b);
        }
    } else if b.len() > 0 && a[0] == b[0] {
        lemma_before_total(a.drop_first(), b.drop_first());
        if a.drop_first() == b.drop_first() {
            assert(a =~= seq![a[0]] + a.drop_first());
            assert(b =~= seq![b[0]] + b.drop_first());
        }
    }
}

/// Interactions stand in the order of their ids, each id once.
pub open spec fn in_order(s: Seq<PendingView>) -> bool {
    forall|i: int, j: int|
        0 <= i < j < s.len() ==> before((#[trigger] s[i]).id, (#[trigger] s[j]).id)
}

proof fn lemma_placed_above(s: Seq<PendingView>, p: PendingView, x: Seq<char>)
    requires
        before(x, p.id),
        forall|i: int| 0 <= i < s.len() ==> before(x, (#[trigger] s[i]).id),
    ensures
        forall|i: int| 0 <= i < placed(s, p).len() ==> before(x, (#[trigger] placed(s, p)[i]).id),
    decreases s.len(),
{
    let r = placed(s, p);
    if s.len() > 0 {
        let rest = s.drop_first();
        assert forall|i: int| 0 <= i < rest.len() implies before(x, (#[trigger] rest[i]).id) by {
            assert(rest[i] == s[i + 1]);
        }
        assert(before(x, s[0].id));
        if s[0].id != p.id && !before(p.id, s[0].id) {
            lemma_placed_above(rest, p, x);
            assert forall|i: int| 0 <= i < r.len() implies before(x, (#[trigger] r[i]).id) by {
                if i > 0 {
                    assert(r[i] == placed(rest, p)[i - 1]);
                }
            }
        } else if s[0].id == p.id {
            assert forall|i: int| 0 <= i < r.len() implies before(x, (#[trigger] r[i]).id) by {
                if i > 0 {
                    assert(r[i] == rest[i - 1]);
                }
            }
        } else {
            assert forall|i: int| 0 <= i < r.len() implies before(x, (#[trigger] r[i]).id) by {
                if i > 0 {
                    assert(r[i] == s[i - 1]);
                }
            }
        }
    }
}

/// Placing an interaction keeps the order of ids.
pub proof fn law_placing_keeps_order(s: Seq<PendingView>, p: PendingView)
    requires
        in_order(s),
    ensures
        in_order(placed(s, p)),
    decreases s.len(),
{
    let r = placed(s, p);
    if s.len() > 0 {
        let rest = s.drop_first();
        assert forall|i: int, j: int| 0 <= i < j < rest.len() implies before(
            (#[trigger] rest[i]).id,
            (#[trigger] rest[j]).id,
        ) by {
            assert(rest[i] == s[i + 1] && rest[j] == s[j + 1]);
        }
        law_placing_keeps_order(rest, p);
        if s[0].id == p.id {
            assert forall|i: int, j: int| 0 <= i < j < r.len() implies before(
                (#[trigger] r[i]).id,
                (#[trigger] r[j]).id,
            ) by {
                assert(r[i].id == s[i].id && r[j].id == s[j].id);
            }
        } else if before(p.id, s[0].id) {
            assert forall|i: int, j: int| 0 <= i < j < r.len() implies before(
                (#[trigger] r[i]).id,
                (#[trigger] r[j]).id,
            ) by {
                assert(r[j] == s[j - 1]);
                if i == 0 {
                    if j > 1 {
                        assert(before(s[0].id, s[j - 1].id));
                        lemma_before_transitive(p.id, s[0].id, s[j - 1].id);
                    }
                } else {
                    assert(r[i] == s[i - 1]);
                }
            }
        } else {
            lemma_before_total(p.id, s[0].id);
            assert forall|i: int| 0 <= i < rest.len() implies before(
                s[0].id,
                (#[trigger] rest[i]).id,
            ) by {
                assert(rest[i] == s[i + 1]);
            }
            lemma_placed_above(rest, p, s[0].id);
            let t = placed(rest, p);
            assert forall|i: int, j: int| 0 <= i < j < r.len() implies before(
                (#[trigger] r[i]).id,
                (#[trigger] r[j]).id,
            ) by {
                assert(r[j] == t[j - 1]);
                if i > 0 {
                    assert(r[i] == t[i - 1]);
                }
            }
        }
    }
}

/// The interactions of a new start stand in the order of their ids, each id
/// once.
pub proof fn law_new_start_is_in_order(new: Seq<PendingView>)
    ensures
        in_order(placed_all(new)),
    decreases new.len(),
{
    if new.len() > 0 {
        law_new_start_is_in_order(new.drop_last());
        law_placing_keeps_order(placed_all(new.drop_last()), new.last());
    }
}

/// A token that names a place in the stream, and what it stands for where it
/// can be read.
#[derive(Clone, Debug, PartialEq, Eq)]
pub struct ClientV2CursorToken {
    pub text: String,
    pub snapshot: Option<SnapshotCursor>,
}

/// The place of a snapshot in its log.
#[derive(Clone, Debug, PartialEq, Eq)]
pub struct SnapshotCursor {
    pub log_id: String,
    pub fact_seq: u64,
}

/// A new start as the client hands it over.
#[derive(Clone, Debug, PartialEq, Eq)]
pub struct ClientV2Bootstrap {
    pub server_epoch: String,
    pub session_id: String,
    pub snapshot_cursor: ClientV2CursorToken,
    pub control_revision: u64,
    pub conversation_revision: u64,
    pub tool_revision: u64,
    pub interactions: Vec<PendingInteraction>,
    pub driver: Option<DriverState>,
}

/// The largest of three numbers.
pub open spec fn largest(a: u64, b: u64, c: u64) -> u64 {
    if a >= b && a >= c {
        a
    } else if b >= c {
        b
    } else {
        c
    }
}

/// The new start that the client's data describes; its revision is the newest
/// of the three channels.
pub fn bootstrap_from_client(bootstrap: ClientV2Bootstrap) -> (r: Result<
    BootstrapSnapshot,
    &'static str,
>)
    ensures
        match r {
            Ok(b) => {
                &&& bootstrap.snapshot_cursor.snapshot matches Some(c)
                    && b.log_id == Some(c.log_id) && b.snapshot_fact_seq == c.fact_seq
                &&& b.server_epoch == bootstrap.server_epoch
                &&& b.seed == bootstrap.session_id
                &&& b.snapshot_cursor == bootstrap.snapshot_cursor.text
                &&& b.state_revision == largest(
                    bootstrap.control_revision,
                    bootstrap.conversation_revision,
                    bootstrap.tool_revision,
                )
                &&& b.pending_interactions == bootstrap.interactions
                &&& b.driver == bootstrap.driver
            },
            Err(e) => bootstrap.snapshot_cursor.snapshot is None && e@
                == "invalid_snapshot_cursor"@,
        },
{
    let cursor = match bootstrap.snapshot_cursor.snapshot {
        Some(c) => c,
        None => {
            return Err("invalid_snapshot_cursor");
        },
    };
    let mut revision: u64 = bootstrap.control_revision;
    if bootstrap.conversation_revision > revision {
        revision = bootstrap.conversation_revision;
    }
    if bootstrap.tool_revision > revision {
        revision = bootstrap.tool_revision;
    }
    Ok(
        BootstrapSnapshot {
            server_epoch: bootstrap.server_epoch,
            seed: bootstrap.session_id,
            log_id: Some(cursor.log_id),
            snapshot_cursor: bootstrap.snapshot_cursor.text,
            snapshot_fact_seq: cursor.fact_seq,
            state_revision: revision,
            pending_interactions: bootstrap.interactions,
            driver: bootstrap.driver,
        },
    )
}

/// An event as the client hands it over, without its payload.
#[derive(Clone, Debug, PartialEq, Eq)]
pub struct ClientV2Event {
    pub server_epoch: String,
    pub log_id: Option<String>,
    pub fact_seq: Option<u64>,
    pub projection_index: Option<u16>,
    pub cursor: Option<ClientV2CursorToken>,
    pub delivery: Delivery,
    pub revision: Option<u64>,
}

/// What the client's event says about its place in the stream.
pub fn event_meta_from_client(event: ClientV2Event) -> (r: EventMeta)
    ensures
        r.server_epoch == event.server_epoch,
        r.log_id == event.log_id,
        r.fact_seq == event.fact_seq,
        r.projection_index == event.projection_index,
        r.cursor == match event.cursor {
            Some(t) => Some(t.text),
            None => None,
        },
        r.delivery == event.delivery,
        r.revision == event.revision,
{
    EventMeta {
        server_epoch: event.server_epoch,
        log_id: event.log_id,
        fact_seq: event.fact_seq,
        projection_index: event.projection_index,
        cursor: match event.cursor {
            Some(t) => Some(t.text),
            None => None,
        },
        delivery: event.delivery,
        revision: event.revision,
    }
}

/// A reset as the client hands it over.
#[derive(Clone, Debug, PartialEq, Eq)]
pub struct ClientV2Reset {
    pub server_epoch: String,
    pub session_id: String,
    pub log_id: Option<String>,
    pub snapshot_cursor: Option<ClientV2CursorToken>,
    pub reason: ResetReason,
}

/// The reset that the client's data describes; a token that cannot be read
/// names no place.
pub fn reset_from_client(reset: ClientV2Reset) -> (r: ResetSignal)
    ensures
        r.server_epoch == reset.server_epoch,
        r.seed == reset.session_id,
        r.log_id == reset.log_id,
        r.reason == reset.reason,
        match reset.snapshot_cursor {
            Some(t) => {
                &&& r.snapshot_cursor == Some(t.text)
                &&& r.snapshot_fact_seq == match t.snapshot {
                    Some(c) => Some(c.fact_seq),
                    None => None,
                }
            },
            None => r.snapshot_cursor is None && r.snapshot_fact_seq is None,
        },
{
    let mut text: Option<String> = None;
    let mut fact_seq: Option<u64> = None;
    match reset.snapshot_cursor {
        Some(t) => {
            match t.snapshot {
                Some(c) => {
                    fact_seq = Some(c.fact_seq);
                },
                None => {},
            }
            text = Some(t.text);
        },
        None => {},
    }
    ResetSignal {
        server_epoch: reset.server_epoch,
        seed: reset.session_id,
        log_id: reset.log_id,
        snapshot_cursor: text,
        snapshot_fact_seq: fact_seq,
        reason: reset.reason,
    }
}

} // verus!
