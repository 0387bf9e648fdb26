//! The state of the connection: its phase, and which streams are in trouble.

use crate::text::{opt_text, str_eq};
use vstd::prelude::*;

verus! {

/// How the connection is doing.
#[derive(Clone, Copy, Debug, PartialEq, Eq, Structural)]
pub enum ConnPhase {
    Opening,
    Ready,
    /// Connected, while some stream is recovering by itself.
    ReadyWithIssue,
    /// Not connected; only the user can ask for a new connection.
    Lost,
}

/// The phase, given whether any stream is in trouble. Trouble shows only
/// while connected.
pub open spec fn phase_with(phase: ConnPhase, any_issue: bool) -> ConnPhase {
    match phase {
        ConnPhase::Ready | ConnPhase::ReadyWithIssue => if any_issue {
            ConnPhase::ReadyWithIssue
        } else {
            ConnPhase::Ready
        },
        _ => phase,
    }
}

impl ConnPhase {
    /// The phase, given whether any stream is in trouble.
    pub fn with_stream_issues(&self, any_issue: bool) -> (r: ConnPhase)
        ensures
            r == phase_with(*self, any_issue),
    {
        match *self {
            ConnPhase::Ready => if any_issue {
                ConnPhase::ReadyWithIssue
            } else {
                ConnPhase::Ready
            },
            ConnPhase::ReadyWithIssue => if any_issue {
                ConnPhase::ReadyWithIssue
            } else {
                ConnPhase::Ready
            },
            ConnPhase::Opening => ConnPhase::Opening,
            ConnPhase::Lost => ConnPhase::Lost,
        }
    }
}

/// Which stream.
#[derive(Debug, PartialEq, Eq)]
pub enum StreamKey {
    V2(String),
    Timeline(String),
}

/// Which stream.
#[verifier::ext_equal]
pub enum StreamId {
    V2(Seq<char>),
    Timeline(Seq<char>),
}

impl View for StreamKey {
    type V = StreamId;

    open spec fn view(&self) -> StreamId {
        match self {
            StreamKey::V2(s) => StreamId::V2(s@),
            StreamKey::Timeline(s) => StreamId::Timeline(s@),
        }
    }
}

impl Clone for StreamKey {
    fn clone(&self) -> (r: Self)
        ensures
            r == *self,
    {
        match self {
            StreamKey::V2(s) => StreamKey::V2(s.clone()),
            StreamKey::Timeline(s) => StreamKey::Timeline(s.clone()),
        }
    }
}

impl StreamKey {
    /// Whether both name the same stream.
    pub fn same(&self, other: &StreamKey) -> (r: bool)
        ensures
            r == (self@ == other@),
    {
        match self {
            StreamKey::V2(a) => match other {
                StreamKey::V2(b) => str_eq(a.as_str(), b.as_str()),
                StreamKey::Timeline(_) => false,
            },
            StreamKey::Timeline(a) => match other {
                StreamKey::V2(_) => false,
                StreamKey::Timeline(b) => str_eq(a.as_str(), b.as_str()),
            },
        }
    }
}

/// What is wrong with one stream.
#[verifier::ext_equal]
pub struct Alert {
    pub stream: StreamId,
    pub message: Seq<char>,
}

/// Alerts without those of one stream.
pub open spec fn without(v: Seq<Alert>, k: StreamId) -> Seq<Alert>
    decreases v.len(),
{
    if v.len() == 0 {
        v
    } else {
        let rest = without(v.drop_last(), k);
        if v.last().stream == k {
            rest
        } else {
            rest.push(v.last())
        }
    }
}

/// Some alert is about stream `k`.
pub open spec fn alerted(v: Seq<Alert>, k: StreamId) -> bool {
    exists|i: int| 0 <= i < v.len() && (#[trigger] v[i]).stream == k
}

/// At most one alert for each stream.
pub open spec fn one_each(v: Seq<Alert>) -> bool {
    forall|i: int, j: int|
        0 <= i < j < v.len() ==> (#[trigger] v[i]).stream != (#[trigger] v[j]).stream
}

proof fn lemma_without_absent(v: Seq<Alert>, k: StreamId)
    requires
        !alerted(v, k),
    ensures
        without(v, k) == v,
    decreases v.len(),
{
    if v.len() > 0 {
        assert(v.last() == v[v.len() - 1]);
        assert(!alerted(v.drop_last(), k)) by {
            assert forall|i: int| 0 <= i < v.len() - 1 implies (#[trigger] v.drop_last()[i]).stream
                != k by {
                assert(v.drop_last()[i] == v[i]);
            }
        }
        lemma_without_absent(v.drop_last(), k);
        assert(v.drop_last().push(v.last()) =~= v);
    }
}

proof fn lemma_without_one(v: Seq<Alert>, k: StreamId, i: int)
    requires
        one_each(v),
        0 <= i < v.len(),
        v[i].stream == k,
    ensures
        without(v, k) == v.remove(i),
    decreases v.len(),
{
    let d = v.drop_last();
    if i == v.len() - 1 {
        assert(!alerted(d, k)) by {
            assert forall|j: int| 0 <= j < d.len() implies (#[trigger] d[j]).stream != k by {
                assert(d[j] == v[j]);
            }
        }
        lemma_without_absent(d, k);
        assert(v.remove(i) =~= d);
    } else {
        assert(one_each(d)) by {
            assert forall|a: int, b: int| 0 <= a < b < d.len() implies (#[trigger] d[a]).stream != (
            #[trigger] d[b]).stream by {
                assert(d[a] == v[a] && d[b] == v[b]);
            }
        }
        lemma_without_one(d, k, i);
        assert(v.last() == v[v.len() - 1]);
        assert(v.remove(i) =~= d.remove(i).push(v.last()));
    }
}

/// Taking away the alerts of one stream leaves those of every other.
pub proof fn law_recovery_is_its_own(v: Seq<Alert>, k: StreamId, other: StreamId)
    ensures
        !alerted(without(v, k), k),
        other != k ==> alerted(without(v, k), other) == alerted(v, other),
    decreases v.len(),
{
    if v.len() > 0 {
        let d = v.drop_last();
        let r = without(d, k);
        law_recovery_is_its_own(d, k, other);
        let w = without(v, k);
        assert forall|x: StreamId| alerted(v, x) == (alerted(d, x) || v.last().stream == x) by {
            if alerted(v, x) {
                let i = choose|i: int| 0 <= i < v.len() && (#[trigger] v[i]).stream == x;
                if i < v.len() - 1 {
                    assert(d[i] == v[i]);
                }
            }
            if alerted(d, x) {
                let i = choose|i: int| 0 <= i < d.len() && (#[trigger] d[i]).stream == x;
                assert(v[i] == d[i]);
            }
            if v.last().stream == x {
                assert(v[v.len() - 1].stream == x);
            }
        }
        if v.last().stream != k {
            assert(w == r.push(v.last()));
            assert forall|x: StreamId| alerted(w, x) == (alerted(r, x) || v.last().stream == x) by {
                if alerted(w, x) {
                    let i = choose|i: int| 0 <= i < w.len() && (#[trigger] w[i]).stream == x;
                    if i < r.len() {
                        assert(r[i] == w[i]);
                    }
                }
                if alerted(r, x) {
                    let i = choose|i: int| 0 <= i < r.len() && (#[trigger] r[i]).stream == x;
                    assert(w[i] == r[i]);
                }
                if v.last().stream == x {
                    assert(w[r.len() as int].stream == x);
                }
            }
        }
    }
}

/// Which streams are in trouble and why, the latest trouble last.
#[derive(Debug)]
pub struct StreamIssues {
    pub order: Vec<StreamKey>,
    pub messages: Vec<(StreamKey, String)>,
}

impl View for StreamIssues {
    type V = Seq<Alert>;

    open spec fn view(&self) -> Seq<Alert> {
        Seq::new(
            self.messages@.len(),
            |i: int| Alert { stream: self.messages@[i].0@, message: self.messages@[i].1@ },
        )
    }
}

impl Default for StreamIssues {
    fn default() -> (r: Self)
        ensures
            r.wf(),
            r@.len() == 0,
    {
        StreamIssues { order: Vec::new(), messages: Vec::new() }
    }
}

impl StreamIssues {
    /// Both lists speak of the same streams, each once.
    pub open spec fn wf(&self) -> bool {
        &&& self.order@.len() == self.messages@.len()
        &&& forall|i: int|
            0 <= i < self.order@.len() ==> (#[trigger] self.order@[i])@ == self.messages@[i].0@
        &&& one_each(self@)
    }

    /// Where the stream's alert stands.
    fn find(&self, stream: &StreamKey) -> (r: Option<usize>)
        requires
            self.wf(),
        ensures
            match r {
                Some(i) => i < self@.len() && self@[i as int].stream == stream@,
                None => !alerted(self@, stream@),
            },
    {
        let n: usize = self.messages.len();
        let mut i: usize = 0;
        while i < n
            invariant
                i <= n == self.messages@.len(),
                forall|j: int| 0 <= j < i ==> (#[trigger] self@[j]).stream != stream@,
            decreases n - i,
        {
            if self.messages[i].0.same(stream) {
                return Some(i);
            }
            i += 1;
        }
        None
    }

    /// Notes trouble with a stream, in place of any noted before; the result
    /// says whether the stream was fine until now.
    pub fn raise(&mut self, stream: StreamKey, message: String) -> (fresh: bool)
        requires
            old(self).wf(),
        ensures
            final(self).wf(),
            final(self)@ == without(old(self)@, stream@).push(
                Alert { stream: stream@, message: message@ },
            ),
            fresh == !alerted(old(self)@, stream@),
    {
        let ghost before = self@;
        let existed = self.clear(&stream);
        proof {
            law_recovery_is_its_own(before, stream@, stream@);
        }
        let ghost mid = self@;
        let ghost add = Alert { stream: stream@, message: message@ };
        self.order.push(stream.clone());
        self.messages.push((stream, message));
        proof {
            assert(self@ =~= mid.push(add));
            assert forall|a: int, b: int| 0 <= a < b < self@.len() implies (
            #[trigger] self@[a]).stream != (#[trigger] self@[b]).stream by {
                assert(self@[a] == mid[a]);
                if b < mid.len() {
                    assert(self@[b] == mid[b]);
                }
            }
        }
        !existed
    }

    /// Forgets the trouble of one stream; the result says whether there was
    /// any.
    pub fn clear(&mut self, stream: &StreamKey) -> (existed: bool)
        requires
            old(self).wf(),
        ensures
            final(self).wf(),
            final(self)@ == without(old(self)@, stream@),
            existed == alerted(old(self)@, stream@),
    {
        let ghost before = self@;
        match self.find(stream) {
            Some(i) => {
                proof {
                    lemma_without_one(before, stream@, i as int);
                }
                let ghost order = self.order@;
                let ghost messages = self.messages@;
                self.order.remove(i);
                self.messages.remove(i);
                proof {
                    assert(self@ =~= before.remove(i as int));
                    assert forall|a: int, b: int| 0 <= a < b < self@.len() implies (
                    #[trigger] self@[a]).stream != (#[trigger] self@[b]).stream by {
                        let x = if a < i {
                            a
                        } else {
                            a + 1
                        };
                        let y = if b < i {
                            b
                        } else {
                            b + 1
                        };
                        assert(before[x].stream != before[y].stream);
                    }
                    assert forall|j: int| 0 <= j < self.order@.len() implies (
                    #[trigger] self.order@[j])@ == self.messages@[j].0@ by {
                        let x = if j < i {
                            j
                        } else {
                            j + 1
                        };
                        assert(order[x]@ == messages[x].0@);
                    }
                }
                true
            },
            None => {
                proof {
                    lemma_without_absent(before, stream@);
                }
                false
            },
        }
    }

    /// Whether all streams are fine.
    pub fn is_empty(&self) -> (r: bool)
        ensures
            r == (self@.len() == 0),
    {
        self.messages.len() == 0
    }

    /// The latest trouble.
    pub fn latest(&self) -> (r: Option<&str>)
        ensures
            match r {
                Some(s) => self@.len() > 0 && s@ == self@.last().message,
                None => self@.len() == 0,
            },
    {
        let n: usize = self.messages.len();
        if n == 0 {
            None
        } else {
            Some(self.messages[n - 1].1.as_str())
        }
    }
}

/// What is shown of the connection: the phase, and a reason. While the
/// connection is lost the reason for that stays; otherwise the latest trouble
/// of a stream is shown.
pub open spec fn reconciled(phase: ConnPhase, issues: Seq<Alert>, error: Option<Seq<char>>) -> (
    ConnPhase,
    Option<Seq<char>>,
) {
    let p = phase_with(phase, issues.len() > 0);
    (
        p,
        if p is Lost {
            error
        } else if issues.len() > 0 {
            Some(issues.last().message)
        } else {
            None
        },
    )
}

/// What is shown of the connection, given the streams in trouble.
pub fn reconcile_conn(
    phase: &ConnPhase,
    issues: &StreamIssues,
    conn_error: Option<String>,
) -> (r: (ConnPhase, Option<String>))
    ensures
        (r.0, opt_text(r.1)) == reconciled(*phase, issues@, opt_text(conn_error)),
{
    let p = phase.with_stream_issues(!issues.is_empty());
    let error = match p {
        ConnPhase::Lost => conn_error,
        _ => match issues.latest() {
            Some(s) => Some(s.to_owned()),
            None => None,
        },
    };
    (p, error)
}

/// While the connection is lost, trouble with streams and its end change
/// neither the phase nor the reason shown.
pub proof fn law_lost_keeps_its_reason(issues: Seq<Alert>, error: Option<Seq<char>>)
    ensures
        reconciled(ConnPhase::Lost, issues, error) == (ConnPhase::Lost, error),
{
}

/// Once connected, the connection shows as trouble free exactly while no
/// stream is in trouble.
pub proof fn law_ready_when_all_recovered(
    phase: ConnPhase,
    issues: Seq<Alert>,
    error: Option<Seq<char>>,
)
    requires
        phase is Ready || phase is ReadyWithIssue,
    ensures
        (reconciled(phase, issues, error).0 is Ready) == (issues.len() == 0),
        (reconciled(phase, issues, error).1 is None) == (issues.len() == 0),
{
}

/// Why a timeline stream ended.
#[derive(Debug)]
pub enum TimelineLostReason {
    /// The session does not exist.
    SessionMissing,
    Other(String),
}

/// What to do when a timeline stream ends.
#[derive(Clone, Copy, Debug, PartialEq, Eq, Structural)]
pub enum TimelineLostEffect {
    CloseSubagent,
    Notice,
}

/// A subagent is closed only when its session is known not to exist.
pub fn timeline_lost_effect(is_subagent: bool, reason: &TimelineLostReason) -> (r:
    TimelineLostEffect)
    ensures
        r == if is_subagent && reason is SessionMissing {
            TimelineLostEffect::CloseSubagent
        } else {
            TimelineLostEffect::Notice
        },
{
    match reason {
        TimelineLostReason::SessionMissing => if is_subagent {
            TimelineLostEffect::CloseSubagent
        } else {
            TimelineLostEffect::Notice
        },
        TimelineLostReason::Other(_) => TimelineLostEffect::Notice,
    }
}

} // verus!
