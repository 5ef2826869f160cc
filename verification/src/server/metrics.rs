//! Real-time metrics: which sampling interval a subscriber may ask for, how
//! often the shared sampler runs, and which samples a subscriber is sent.

use vstd::prelude::*;

verus! {

pub const DEFAULT_INTERVAL_SECONDS: u64 = 1;

/// The intervals a subscriber may choose, in seconds.
pub open spec fn allowed_interval(seconds: u64) -> bool {
    seconds == 1 || seconds == 2 || seconds == 5
}

/// The interval granted for an asked one: the asked interval when it is
/// allowed, else the default.
pub open spec fn interval_of(asked: Option<u64>) -> u64 {
    match asked {
        Some(s) => if allowed_interval(s) {
            s
        } else {
            DEFAULT_INTERVAL_SECONDS
        },
        None => DEFAULT_INTERVAL_SECONDS,
    }
}

/// The `?interval=` of a metrics subscription.
pub struct MetricsQuery {
    pub interval: Option<u64>,
}

/// The `Duration` of a whole number of seconds, as `Duration::from_secs`
/// builds it.
pub uninterp spec fn secs_duration(seconds: u64) -> std::time::Duration;

/// `std::time::Duration::from_secs`: the duration of `seconds` whole
/// seconds. Its value is only named; `from_secs` depends on its argument
/// alone and never panics.
#[verifier::external_body]
fn duration_from_secs(seconds: u64) -> (r: std::time::Duration)
    ensures
        r == secs_duration(seconds),
{
    std::time::Duration::from_secs(seconds)
}

impl MetricsQuery {
    /// The asked interval when it is 1, 2 or 5 seconds, else 1 second.
    pub fn interval_seconds(&self) -> (r: u64)
        ensures
            r == interval_of(self.interval),
    {
        match self.interval {
            Some(s) => if s == 1 || s == 2 || s == 5 {
                s
            } else {
                DEFAULT_INTERVAL_SECONDS
            },
            None => DEFAULT_INTERVAL_SECONDS,
        }
    }

    /// The interval as a `Duration` of `interval_seconds()` whole seconds.
    pub fn interval(&self) -> (r: std::time::Duration)
        ensures
            r == secs_duration(interval_of(self.interval)),
    {
        duration_from_secs(self.interval_seconds())
    }
}

/// The shortest interval among the subscribers, `None` without any.
pub open spec fn fastest(intervals: Seq<u64>) -> Option<u64>
    decreases intervals.len(),
{
    if intervals.len() == 0 {
        None
    } else {
        match fastest(intervals.drop_last()) {
            Some(m) => Some(if intervals.last() < m {
                intervals.last()
            } else {
                m
            }),
            None => Some(intervals.last()),
        }
    }
}

/// The subscribers' intervals, by subscription id.
pub open spec fn intervals_of(subscriptions: Seq<(u64, u64)>) -> Seq<u64> {
    subscriptions.map_values(|s: (u64, u64)| s.1)
}

/// How often the sampler must run: as fast as its fastest subscriber, or
/// not at all without subscribers.
pub fn minimum_interval(subscriptions: &Vec<(u64, u64)>) -> (r: Option<u64>)
    ensures
        r == fastest(intervals_of(subscriptions@)),
{
    let ghost all = intervals_of(subscriptions@);
    let mut best: Option<u64> = None;
    let mut i: usize = 0;
    while i < subscriptions.len()
        invariant
            i <= subscriptions@.len(),
            all == intervals_of(subscriptions@),
            best == fastest(all.take(i as int)),
        decreases subscriptions@.len() - i,
    {
        assert(all.take(i + 1).drop_last() =~= all.take(i as int));
        let s = subscriptions[i].1;
        best = match best {
            Some(m) => Some(if s < m {
                s
            } else {
                m
            }),
            None => Some(s),
        };
        i = i + 1;
    }
    assert(all.take(i as int) =~= all);
    best
}

/// The fastest interval is one of the subscribers' and no subscriber's is
/// shorter; there is one exactly when there are subscribers.
pub proof fn lemma_fastest(intervals: Seq<u64>)
    ensures
        fastest(intervals) is None <==> intervals.len() == 0,
        fastest(intervals) matches Some(m) ==> intervals.contains(m) && forall|i: int|
            0 <= i < intervals.len() ==> m <= #[trigger] intervals[i],
    decreases intervals.len(),
{
    if intervals.len() > 0 {
        let d = intervals.drop_last();
        lemma_fastest(d);
        let m = fastest(intervals)->0;
        assert forall|i: int| 0 <= i < intervals.len() implies m <= #[trigger] intervals[i] by {
            if i < d.len() {
                assert(d[i] == intervals[i]);
            }
        }
        if fastest(d) is Some {
            let k = fastest(d)->0;
            if intervals.last() >= k {
                let j = choose|j: int| 0 <= j < d.len() && d[j] == k;
                assert(intervals[j] == k);
            } else {
                assert(intervals[intervals.len() - 1] == m);
            }
        } else {
            assert(intervals[intervals.len() - 1] == m);
        }
    }
}

/// The subscriptions of the sampler.
pub struct Subscriptions {
    next_id: u64,
    entries: Vec<(u64, u64)>,
}

impl Subscriptions {
    pub closed spec fn view(&self) -> Seq<(u64, u64)> {
        self.entries@
    }

    pub closed spec fn next_id(&self) -> u64 {
        self.next_id
    }

    pub fn new() -> (r: Subscriptions)
        ensures
            r.view().len() == 0,
            r.next_id() == 1,
    {
        Subscriptions { next_id: 1, entries: Vec::new() }
    }

    /// Adds a subscriber with `interval` seconds; returns its id.
    pub fn subscribe(&mut self, interval: u64) -> (r: u64)
        requires
            old(self).next_id() < u64::MAX,
        ensures
            r == old(self).next_id(),
            final(self).next_id() == old(self).next_id() + 1,
            final(self).view() == old(self).view().push((r, interval)),
    {
        let id = self.next_id;
        self.next_id = self.next_id + 1;
        self.entries.push((id, interval));
        id
    }

    /// Removes subscriber `id`.
    pub fn unsubscribe(&mut self, id: u64)
        ensures
            final(self).next_id() == old(self).next_id(),
            final(self).view() == old(self).view().filter(|s: (u64, u64)| s.0 != id),
    {
        let ghost es = self.entries@;
        let mut kept: Vec<(u64, u64)> = Vec::new();
        let mut i: usize = 0;
        proof {
            reveal(Seq::filter);
        }
        assert(kept@ =~= es.take(0).filter(|s: (u64, u64)| s.0 != id));
        while i < self.entries.len()
            invariant
                i <= self.entries@.len(),
                es == self.entries@,
                kept@ == es.take(i as int).filter(|s: (u64, u64)| s.0 != id),
            decreases self.entries@.len() - i,
        {
            proof {
                reveal(Seq::filter);
            }
            assert(es.take(i + 1).drop_last() =~= es.take(i as int));
            assert(es.take(i + 1).last() == es[i as int]);
            if self.entries[i].0 != id {
                kept.push(self.entries[i]);
            }
            i = i + 1;
        }
        assert(es.take(i as int) =~= es);
        self.entries = kept;
    }

    /// How often the sampler runs now.
    pub fn minimum_interval(&self) -> (r: Option<u64>)
        ensures
            r == fastest(intervals_of(self.view())),
    {
        minimum_interval(&self.entries)
    }
}

/// Whether a subscriber gets a sample at `now`: always the first, then only
/// once its interval has passed since the last one it got.
pub fn should_send(last_sent: Option<u64>, now: u64, interval: u64) -> (r: bool)
    ensures
        r == match last_sent {
            Some(last) => !((if now >= last {
                now - last
            } else {
                0
            }) < interval),
            None => true,
        },
{
    match last_sent {
        Some(last) => {
            let since = if now >= last {
                now - last
            } else {
                0
            };
            !(since < interval)
        },
        None => true,
    }
}

} // verus!
