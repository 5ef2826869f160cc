//! The Agent's event stream: a bounded, numbered log of what happened on the
//! host. Modules publish into it; the Server reads it page by page with
//! `GET /v1/events?after=`.

use vstd::prelude::*;

use crate::encoding::{clock_value, random_hex_id, unix_millis};
use crate::protocol::{AgentEvent, EventBatch, EventResult, EventView, opt_view};
use crate::text::{filter_map, lemma_filter_map_prefix, lemma_filter_map_step, push_decimal, push_str};

verus! {

/// At most this many events are kept; the oldest goes first.
pub const CAPACITY: usize = 500;

/// At most this many events are handed out at once.
pub const MAX_BATCH: usize = 200;

/// What a module supplies when it publishes; the bus adds number and time.
pub struct EventDraft {
    pub kind: String,
    pub result: EventResult,
    pub subject: String,
    pub request_id: Option<String>,
    pub command_id: Option<String>,
    pub message: Option<String>,
}

pub struct EventBus {
    next_seq: u64,
    events: Vec<AgentEvent>,
    epoch: String,
}

/// The events as plain values.
pub open spec fn event_views(events: Seq<AgentEvent>) -> Seq<EventView> {
    events.map_values(|e: AgentEvent| e@)
}

/// The events numbered after `after`, in order.
#[verifier::opaque]
pub open spec fn newer(events: Seq<EventView>, after: u64) -> Seq<EventView> {
    filter_map(events, |e: EventView| if e.seq > after {
        Some(e)
    } else {
        None
    })
}

/// The first `MAX_BATCH` of `events`.
pub open spec fn first_batch(events: Seq<EventView>) -> Seq<EventView> {
    if events.len() > MAX_BATCH {
        events.take(MAX_BATCH as int)
    } else {
        events
    }
}

/// The page after `after`: the newer events, at most `MAX_BATCH`, and the
/// position to ask from next: the last event handed out, or, with none, the
/// newest number given so far (never moving a consumer back).
pub open spec fn page(events: Seq<EventView>, next_seq: u64, after: u64) -> (Seq<EventView>, u64) {
    let batch = first_batch(newer(events, after));
    let next_after = if batch.len() > 0 {
        batch.last().seq
    } else if after >= next_seq - 1 {
        after
    } else {
        (next_seq - 1) as u64
    };
    (batch, next_after)
}

/// The events held are numbered consecutively up to the last number given.
pub open spec fn numbered(events: Seq<EventView>, next_seq: u64) -> bool {
    &&& 1 <= next_seq
    &&& events.len() <= CAPACITY
    &&& events.len() < next_seq
    &&& forall|i: int| 0 <= i < events.len() ==> #[trigger] events[i].seq == next_seq - events.len() + i
}

/// The event a draft becomes under number `seq` and time `timestamp_ms`.
pub open spec fn drafted(draft: EventDraft, seq: u64, timestamp_ms: u64) -> EventView {
    EventView {
        seq,
        timestamp_ms,
        kind: draft.kind@,
        result: draft.result,
        subject: draft.subject@,
        request_id: opt_view(draft.request_id),
        command_id: opt_view(draft.command_id),
        message: opt_view(draft.message),
    }
}

/// The events after one is appended: the oldest is dropped at capacity.
pub open spec fn appended(events: Seq<EventView>, e: EventView) -> Seq<EventView> {
    if events.len() >= CAPACITY {
        events.drop_first().push(e)
    } else {
        events.push(e)
    }
}

impl EventBus {
    pub closed spec fn next_seq(&self) -> u64 {
        self.next_seq
    }

    pub closed spec fn events(&self) -> Seq<EventView> {
        event_views(self.events@)
    }

    pub closed spec fn epoch_text(&self) -> Seq<char> {
        self.epoch@
    }

    pub open spec fn wf(&self) -> bool {
        numbered(self.events(), self.next_seq())
    }

    /// An empty bus with the given epoch.
    pub fn with_epoch(epoch: String) -> (r: EventBus)
        ensures
            r.wf(),
            r.next_seq() == 1,
            r.events().len() == 0,
            r.epoch_text() == epoch@,
    {
        let r = EventBus { next_seq: 1, events: Vec::new(), epoch };
        assert(r.events() =~= Seq::<EventView>::empty());
        r
    }

    /// An empty bus whose epoch is the start time in milliseconds, a dash
    /// and eight random hex digits.
    pub fn new() -> (r: EventBus)
        ensures
            r.wf(),
            r.next_seq() == 1,
            r.events().len() == 0,
    {
        let mut epoch = String::new();
        push_decimal(&mut epoch, clock_value(unix_millis()));
        push_str(&mut epoch, random_hex_id("-", 4).as_str());
        Self::with_epoch(epoch)
    }

    pub fn epoch(&self) -> (r: &str)
        ensures
            r@ == self.epoch_text(),
    {
        self.epoch.as_str()
    }

    /// The number the next event gets.
    pub fn next_number(&self) -> (r: u64)
        ensures
            r == self.next_seq(),
    {
        self.next_seq
    }

    /// Appends the draft as event number `next_seq`, stamped `timestamp_ms`,
    /// dropping the oldest event at capacity.
    pub fn publish_at(&mut self, draft: EventDraft, timestamp_ms: u64)
        requires
            old(self).wf(),
            old(self).next_seq() < u64::MAX,
        ensures
            final(self).wf(),
            final(self).next_seq() == old(self).next_seq() + 1,
            final(self).epoch_text() == old(self).epoch_text(),
            final(self).events() == appended(
                old(self).events(),
                drafted(draft, old(self).next_seq(), timestamp_ms),
            ),
    {
        let ghost before = self.events();
        let seq = self.next_seq;
        self.next_seq = self.next_seq + 1;
        if self.events.len() >= CAPACITY {
            let ghost full = self.events@;
            self.events.remove(0);
            assert(event_views(self.events@) =~= before.drop_first());
        }
        let ghost kept = self.events();
        let event = AgentEvent {
            seq,
            timestamp_ms,
            kind: draft.kind,
            result: draft.result,
            subject: draft.subject,
            request_id: draft.request_id,
            command_id: draft.command_id,
            message: draft.message,
        };
        self.events.push(event);
        assert(self.events() =~= kept.push(drafted(draft, seq, timestamp_ms)));
        assert forall|i: int| 0 <= i < self.events().len() implies #[trigger] self.events()[i].seq
            == self.next_seq - self.events().len() + i by {
            if i < kept.len() {
                if before.len() >= CAPACITY {
                    assert(kept[i] == before[i + 1]);
                } else {
                    assert(kept[i] == before[i]);
                }
            }
        }
    }

    /// Appends the draft, stamped with the current time.
    pub fn publish(&mut self, draft: EventDraft)
        requires
            old(self).wf(),
            old(self).next_seq() < u64::MAX,
        ensures
            final(self).wf(),
            final(self).next_seq() == old(self).next_seq() + 1,
            final(self).epoch_text() == old(self).epoch_text(),
            exists|t: u64|
                final(self).events() == appended(
                    old(self).events(),
                    drafted(draft, old(self).next_seq(), t),
                ),
    {
        let now = clock_value(unix_millis());
        self.publish_at(draft, now);
    }

    /// Events after position `after`. A consumer that last saw a different
    /// `epoch` (the Agent restarted) gets everything still held, since its
    /// old position no longer means anything.
    pub fn since(&self, epoch: Option<&str>, after: u64) -> (r: EventBatch)
        requires
            self.wf(),
        ensures
            r.epoch@ == self.epoch_text(),
            ({
                let from = match epoch {
                    Some(seen) => if seen@ != self.epoch_text() {
                        0
                    } else {
                        after
                    },
                    None => after,
                };
                let (batch, next_after) = page(self.events(), self.next_seq(), from);
                event_views(r.events@) == batch && r.next_after == next_after
            }),
    {
        let from = match epoch {
            Some(seen) => {
                let equal = text_eq(seen, self.epoch.as_str());
                if !equal {
                    0
                } else {
                    after
                }
            },
            None => after,
        };
        let ghost evs = self.events();
        let ghost f = |e: EventView| if e.seq > from {
            Some(e)
        } else {
            None
        };
        let mut out: Vec<AgentEvent> = Vec::new();
        let mut i: usize = 0;
        while i < self.events.len() && out.len() < MAX_BATCH
            invariant
                i <= self.events@.len(),
                evs == event_views(self.events@),
                f == (|e: EventView| if e.seq > from {
                    Some(e)
                } else {
                    None
                }),
                event_views(out@) == filter_map(evs.take(i as int), f),
                out@.len() <= MAX_BATCH,
            decreases self.events@.len() - i,
        {
            proof {
                lemma_filter_map_step(evs, i as int, f);
            }
            if self.events[i].seq > from {
                let ghost prev = out@;
                out.push(self.events[i].copy());
                assert(event_views(out@) =~= event_views(prev).push(evs[i as int]));
            }
            i = i + 1;
        }
        proof {
            lemma_filter_map_prefix(evs, i as int, f);
            let whole = newer(evs, from);
            assert(whole == filter_map(evs, f)) by {
                reveal(newer);
                assert(f =~= (|e: EventView| if e.seq > from {
                    Some(e)
                } else {
                    None
                }));
            }
            if i == self.events@.len() {
                assert(evs.take(i as int) =~= evs);
                assert(event_views(out@) == first_batch(whole));
            } else {
                assert(out@.len() == MAX_BATCH);
                if whole.len() > MAX_BATCH {
                    assert(event_views(out@) =~= whole.take(MAX_BATCH as int));
                } else {
                    assert(event_views(out@) =~= whole);
                }
            }
        }
        let next_after = if out.len() > 0 {
            out[out.len() - 1].seq
        } else if from >= self.next_seq - 1 {
            from
        } else {
            self.next_seq - 1
        };
        EventBatch { epoch: self.epoch.clone(), events: out, next_after }
    }
}

/// Whether two strings are equal.
pub fn text_eq(a: &str, b: &str) -> (r: bool)
    ensures
        r == (a@ == b@),
{
    let x = crate::text::chars_of(b);
    assert(x@.subrange(0, x@.len() as int) =~= b@);
    crate::text::span_is(&x, 0, x.len(), a)
}

/// Numbers strictly increase along `events`.
pub open spec fn increasing(events: Seq<EventView>) -> bool {
    forall|i: int, j: int| 0 <= i < j < events.len() ==> #[trigger] events[i].seq < #[trigger] events[j].seq
}

proof fn lemma_newer_step(events: Seq<EventView>, after: u64)
    requires
        events.len() > 0,
    ensures
        newer(events, after) == if events.last().seq > after {
            newer(events.drop_last(), after).push(events.last())
        } else {
            newer(events.drop_last(), after)
        },
{
    reveal(newer);
}

proof fn lemma_newer_empty(events: Seq<EventView>, after: u64)
    requires
        events.len() == 0,
    ensures
        newer(events, after).len() == 0,
{
    reveal(newer);
}

proof fn lemma_numbered_increasing(events: Seq<EventView>, next_seq: u64)
    requires
        numbered(events, next_seq),
    ensures
        increasing(events),
{
    assert forall|i: int, j: int| 0 <= i < j < events.len() implies #[trigger] events[i].seq
        < #[trigger] events[j].seq by {
        assert(events[i].seq == next_seq - events.len() + i);
        assert(events[j].seq == next_seq - events.len() + j);
    }
}

/// The first `MAX_BATCH` of `n` are a prefix of `n`.
proof fn lemma_first_batch(n: Seq<EventView>)
    ensures
        first_batch(n).len() <= MAX_BATCH,
        first_batch(n).len() <= n.len(),
        n.len() > 0 ==> first_batch(n).len() > 0,
        first_batch(n).len() < n.len() ==> first_batch(n).len() == MAX_BATCH,
        forall|j: int| 0 <= j < first_batch(n).len() ==> #[trigger] first_batch(n)[j] == n[j],
{
}

proof fn lemma_newer_from(events: Seq<EventView>, after: u64)
    ensures
        forall|j: int|
            0 <= j < newer(events, after).len() ==> #[trigger] newer(events, after)[j].seq > after
                && exists|i: int| 0 <= i < events.len() && events[i] == newer(events, after)[j],
    decreases events.len(),
{
    if events.len() == 0 {
        lemma_newer_empty(events, after);
    } else {
        let d = events.drop_last();
        lemma_newer_from(d, after);
        lemma_newer_step(events, after);
        let n0 = newer(d, after);
        let n = newer(events, after);
        assert forall|j: int| 0 <= j < n.len() implies #[trigger] n[j].seq > after && exists|i: int|
            0 <= i < events.len() && events[i] == n[j] by {
            if j < n0.len() {
                assert(n[j] == n0[j]);
                assert(n0[j].seq > after);
                let i = choose|i: int| 0 <= i < d.len() && d[i] == n0[j];
                assert(events[i] == d[i]);
            } else {
                assert(events[events.len() - 1] == n[j]);
            }
        }
    }
}

proof fn lemma_newer_increasing(events: Seq<EventView>, after: u64)
    requires
        increasing(events),
    ensures
        increasing(newer(events, after)),
    decreases events.len(),
{
    if events.len() == 0 {
        lemma_newer_empty(events, after);
    } else {
        let d = events.drop_last();
        assert forall|i: int, j: int| 0 <= i < j < d.len() implies #[trigger] d[i].seq < #[trigger] d[j].seq by {
            assert(d[i] == events[i] && d[j] == events[j]);
        }
        lemma_newer_increasing(d, after);
        lemma_newer_from(d, after);
        lemma_newer_step(events, after);
        let n0 = newer(d, after);
        let n = newer(events, after);
        if events.last().seq > after {
            assert forall|p: int, q: int| 0 <= p < q < n.len() implies #[trigger] n[p].seq < #[trigger] n[q].seq by {
                assert(n[p] == n0[p]);
                if q < n0.len() {
                    assert(n[q] == n0[q]);
                } else {
                    assert(n0[p].seq > after);
                    let i = choose|i: int| 0 <= i < d.len() && d[i] == n0[p];
                    assert(events[i] == d[i]);
                    assert(events[i].seq < events[events.len() - 1].seq);
                }
            }
        }
    }
}

proof fn lemma_newer_has(events: Seq<EventView>, after: u64)
    ensures
        forall|i: int|
            0 <= i < events.len() && #[trigger] events[i].seq > after ==> exists|j: int|
                0 <= j < newer(events, after).len() && newer(events, after)[j] == events[i],
    decreases events.len(),
{
    if events.len() > 0 {
        let d = events.drop_last();
        lemma_newer_has(d, after);
        lemma_newer_step(events, after);
        let n0 = newer(d, after);
        let n = newer(events, after);
        assert forall|i: int| 0 <= i < events.len() && #[trigger] events[i].seq > after implies exists|j: int|
            0 <= j < n.len() && n[j] == events[i] by {
            if i < d.len() {
                assert(d[i] == events[i]);
                assert(d[i].seq > after);
                let j = choose|j: int| 0 <= j < n0.len() && n0[j] == d[i];
                assert(n[j] == n0[j]);
            } else {
                assert(n[n0.len() as int] == events[i]);
            }
        }
    }
}

/// Paging through the bus loses nothing: the page handed out holds every
/// held event numbered after `after` up to its `next_after`, in order, and
/// `next_after` never moves a consumer back.
pub proof fn lemma_paging_is_complete(events: Seq<EventView>, next_seq: u64, after: u64)
    requires
        numbered(events, next_seq),
    ensures
        ({
            let (batch, next_after) = page(events, next_seq, after);
            &&& next_after >= after
            &&& batch.len() <= MAX_BATCH
            &&& forall|i: int|
                0 <= i < events.len() && after < events[i].seq <= next_after ==> batch.contains(
                    #[trigger] events[i],
                )
            &&& forall|j: int| 0 <= j < batch.len() ==> after < #[trigger] batch[j].seq <= next_after
        }),
{
    let n = newer(events, after);
    lemma_first_batch(n);
    let batch = first_batch(n);
    let next_after = page(events, next_seq, after).1;
    assert(page(events, next_seq, after).0 == batch);
    assert(increasing(n)) by {
        lemma_numbered_increasing(events, next_seq);
        lemma_newer_increasing(events, after);
    }
    assert(forall|j: int| 0 <= j < n.len() ==> #[trigger] n[j].seq > after) by {
        lemma_newer_from(events, after);
    }
    if batch.len() > 0 {
        assert(batch[batch.len() - 1] == n[batch.len() - 1]);
        assert(n[batch.len() - 1].seq > after);
    }
    assert forall|j: int| 0 <= j < batch.len() implies after < #[trigger] batch[j].seq <= next_after by {
        assert(batch[j] == n[j]);
        assert(n[j].seq > after);
        if j < batch.len() - 1 {
            assert(batch[batch.len() - 1] == n[batch.len() - 1]);
            assert(n[j].seq < n[batch.len() - 1].seq);
        }
    }
    assert forall|i: int|
        0 <= i < events.len() && after < events[i].seq <= next_after implies batch.contains(
            #[trigger] events[i],
        ) by {
        assert(exists|j: int| 0 <= j < n.len() && n[j] == events[i]) by {
            lemma_newer_has(events, after);
        }
        let j = choose|j: int| 0 <= j < n.len() && n[j] == events[i];
        if batch.len() == 0 {
            assert(n.len() > 0);
        } else if j >= batch.len() {
            assert(batch[batch.len() - 1] == n[batch.len() - 1]);
            assert(n[batch.len() - 1].seq < n[j].seq);
        } else {
            assert(batch[j] == events[i]);
        }
    }
}

} // verus!
