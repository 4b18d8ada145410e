use vstd::prelude::*;
use crate::flow_key::{FlowKey, FlowKeyView};

verus! {

/// The shortest duration, in nanoseconds, that a completed request can
/// plausibly take.
pub const MIN_DURATION_NANOS: u64 = 2_000_000;

/// One completed request: when its end was seen and how long it took,
/// both in nanoseconds.
#[derive(Clone, Copy, Debug, PartialEq, Eq)]
pub struct Sample {
    pub time: u64,
    pub duration: u64,
}

/// Conditions under which the trace cannot be measured.
#[derive(Clone, Copy, Debug)]
pub enum TraceError {
    /// The trace holds an IPv4 packet.
    UnsupportedNetwork,
    /// A request on `key` that started at `start` ended at `end`, sooner
    /// than any real exchange can complete.
    UnrealisticDuration { key: FlowKey, start: u64, end: u64 },
}

/// What an end event on `key` at `time` yields, given the pending requests.
pub open spec fn end_outcome(pending: Map<FlowKeyView, u64>, key: FlowKey, time: u64) -> Result<
    Option<Sample>,
    TraceError,
> {
    if !pending.contains_key(key@) {
        Ok(None)
    } else if time as int - pending[key@] as int >= MIN_DURATION_NANOS as int {
        Ok(Some(Sample { time, duration: (time - pending[key@]) as u64 }))
    } else {
        Err(TraceError::UnrealisticDuration { key, start: pending[key@], end: time })
    }
}

/// The pending requests after an end event on `key` at `time`: a matched
/// request is consumed, anything else leaves them as they were.
pub open spec fn pending_after_end(pending: Map<FlowKeyView, u64>, key: FlowKey, time: u64) -> Map<
    FlowKeyView,
    u64,
> {
    if end_outcome(pending, key, time) is Ok && pending.contains_key(key@) {
        pending.remove(key@)
    } else {
        pending
    }
}

/// A request that starts at `t1` and ends on the same key at `t2`, more than
/// the plausible minimum later, with nothing in between on that key, yields
/// exactly one sample `(t2, t2 - t1)` and leaves nothing pending on the key.
pub proof fn lemma_start_then_end(pending: Map<FlowKeyView, u64>, key: FlowKey, t1: u64, t2: u64)
    requires
        t2 > t1 + MIN_DURATION_NANOS,
    ensures
        end_outcome(pending.insert(key@, t1), key, t2) == Ok::<Option<Sample>, TraceError>(
            Some(Sample { time: t2, duration: (t2 - t1) as u64 }),
        ),
        pending_after_end(pending.insert(key@, t1), key, t2) == pending.remove(key@),
{
    assert(pending.insert(key@, t1).remove(key@) =~= pending.remove(key@));
}

/// An end with no pending start on its key yields no sample, no error, and
/// changes nothing.
pub proof fn lemma_end_without_start(pending: Map<FlowKeyView, u64>, key: FlowKey, time: u64)
    requires
        !pending.contains_key(key@),
    ensures
        end_outcome(pending, key, time) == Ok::<Option<Sample>, TraceError>(None),
        pending_after_end(pending, key, time) == pending,
{
}

/// Requests on two different keys are paired independently: each end
/// consumes the start on its own key and no other.
pub proof fn lemma_distinct_keys_independent(
    pending: Map<FlowKeyView, u64>,
    k1: FlowKey,
    k2: FlowKey,
    t1: u64,
    t2: u64,
    t3: u64,
    t4: u64,
)
    requires
        k1@ != k2@,
        t3 >= t1 + MIN_DURATION_NANOS,
        t4 >= t2 + MIN_DURATION_NANOS,
    ensures
        ({
            let started = pending.insert(k1@, t1).insert(k2@, t2);
            let after_first = pending_after_end(started, k1, t3);
            &&& end_outcome(started, k1, t3) == Ok::<Option<Sample>, TraceError>(
                Some(Sample { time: t3, duration: (t3 - t1) as u64 }),
            )
            &&& end_outcome(after_first, k2, t4) == Ok::<Option<Sample>, TraceError>(
                Some(Sample { time: t4, duration: (t4 - t2) as u64 }),
            )
            &&& !pending_after_end(after_first, k2, t4).contains_key(k1@)
            &&& !pending_after_end(after_first, k2, t4).contains_key(k2@)
        }),
{
}

pub open spec fn map_of(s: Seq<(FlowKey, u64)>) -> Map<FlowKeyView, u64>
    decreases s.len(),
{
    if s.len() == 0 {
        Map::empty()
    } else {
        map_of(s.drop_last()).insert(s.last().0@, s.last().1)
    }
}

pub open spec fn keys_unique(s: Seq<(FlowKey, u64)>) -> bool {
    forall|i: int, j: int| 0 <= i < j < s.len() ==> s[i].0@ != s[j].0@
}

proof fn lemma_map_of_dom(s: Seq<(FlowKey, u64)>, k: FlowKeyView)
    requires
        forall|i: int| 0 <= i < s.len() ==> s[i].0@ != k,
    ensures
        !map_of(s).contains_key(k),
    decreases s.len(),
{
    if s.len() > 0 {
        lemma_map_of_dom(s.drop_last(), k);
    }
}

proof fn lemma_map_of_at(s: Seq<(FlowKey, u64)>, i: int)
    requires
        keys_unique(s),
        0 <= i < s.len(),
    ensures
        map_of(s).contains_key(s[i].0@),
        map_of(s)[s[i].0@] == s[i].1,
    decreases s.len(),
{
    if i < s.len() - 1 {
        lemma_map_of_at(s.drop_last(), i);
    }
}

proof fn lemma_map_of_update(s: Seq<(FlowKey, u64)>, i: int, e: (FlowKey, u64))
    requires
        keys_unique(s),
        0 <= i < s.len(),
        e.0@ == s[i].0@,
    ensures
        map_of(s.update(i, e)) == map_of(s).insert(e.0@, e.1),
        keys_unique(s.update(i, e)),
    decreases s.len(),
{
    let t = s.update(i, e);
    if i == s.len() - 1 {
        assert(t.drop_last() =~= s.drop_last());
    } else {
        assert(t.drop_last() =~= s.drop_last().update(i, e));
        lemma_map_of_update(s.drop_last(), i, e);
    }
    assert(map_of(t) =~= map_of(s).insert(e.0@, e.1));
}

proof fn lemma_map_of_remove(s: Seq<(FlowKey, u64)>, i: int)
    requires
        keys_unique(s),
        0 <= i < s.len(),
    ensures
        map_of(s.remove(i)) == map_of(s).remove(s[i].0@),
        keys_unique(s.remove(i)),
    decreases s.len(),
{
    let t = s.remove(i);
    let k = s[i].0@;
    if i == s.len() - 1 {
        assert(t =~= s.drop_last());
        lemma_map_of_dom(s.drop_last(), k);
    } else {
        assert(t.drop_last() =~= s.drop_last().remove(i));
        lemma_map_of_remove(s.drop_last(), i);
    }
    assert(map_of(t) =~= map_of(s).remove(k));
}

/// The requests whose start has been seen and whose end has not, each with
/// the time at which it started.
pub struct Tracker {
    entries: Vec<(FlowKey, u64)>,
}

impl View for Tracker {
    type V = Map<FlowKeyView, u64>;

    closed spec fn view(&self) -> Map<FlowKeyView, u64> {
        map_of(self.entries@)
    }
}

impl Tracker {
    pub closed spec fn wf(&self) -> bool {
        keys_unique(self.entries@)
    }

    pub fn new() -> (r: Tracker)
        ensures
            r.wf(),
            r@ == Map::<FlowKeyView, u64>::empty(),
    {
        Tracker { entries: Vec::new() }
    }

    fn find(&self, key: &FlowKey) -> (r: Option<usize>)
        ensures
            r matches Some(i) ==> i < self.entries.len() && self.entries@[i as int].0@ == key@,
            r is None ==> forall|i: int|
                0 <= i < self.entries.len() ==> self.entries@[i].0@ != key@,
    {
        let mut i: usize = 0;
        while i < self.entries.len()
            invariant
                0 <= i <= self.entries.len(),
                forall|j: int| 0 <= j < i ==> self.entries@[j].0@ != key@,
            decreases self.entries.len() - i,
        {
            if self.entries[i].0.same(key) {
                return Some(i);
            }
            i += 1;
        }
        None
    }

    /// Records that a request on `key` started at `time`, replacing any
    /// earlier start on the same key.
    pub fn on_start(&mut self, key: FlowKey, time: u64)
        requires
            old(self).wf(),
        ensures
            final(self).wf(),
            final(self)@ == old(self)@.insert(key@, time),
    {
        match self.find(&key) {
            Some(i) => {
                proof {
                    lemma_map_of_update(self.entries@, i as int, (key, time));
                }
                self.entries.set(i, (key, time));
            },
            None => {
                proof {
                    assert(self.entries@.push((key, time)).drop_last() =~= self.entries@);
                }
                self.entries.push((key, time));
            },
        }
    }

    /// Handles the end of a request on `key` at `time`: a pending start on
    /// the key is consumed into a sample, a missing one is no event, and a
    /// request that took less than the plausible minimum is an error.
    pub fn on_end(&mut self, key: FlowKey, time: u64) -> (r: Result<Option<Sample>, TraceError>)
        requires
            old(self).wf(),
        ensures
            final(self).wf(),
            r == end_outcome(old(self)@, key, time),
            final(self)@ == pending_after_end(old(self)@, key, time),
    {
        match self.find(&key) {
            None => {
                proof {
                    lemma_map_of_dom(self.entries@, key@);
                }
                Ok(None)
            },
            Some(i) => {
                let start = self.entries[i].1;
                proof {
                    lemma_map_of_at(self.entries@, i as int);
                }
                if time >= start && time - start >= MIN_DURATION_NANOS {
                    proof {
                        lemma_map_of_remove(self.entries@, i as int);
                    }
                    self.entries.remove(i);
                    Ok(Some(Sample { time, duration: time - start }))
                } else {
                    Err(TraceError::UnrealisticDuration { key, start, end: time })
                }
            },
        }
    }
}

} // verus!
