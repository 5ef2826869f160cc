//! The Server's event feed: everything worth telling the admin about, in one
//! numbered stream. It follows the Agent's own event stream and adds what the
//! Server itself notices: the Agent connecting, restarting, disappearing, or
//! speaking a different protocol version.

use vstd::prelude::*;

use crate::protocol::{AgentEvent, AgentInfo, EventBatch, EventResult, PROTOCOL_VERSION, copy_opt, opt_view};
use crate::text::{decimal, filter_map, lemma_filter_map_prefix, lemma_filter_map_step, owned, push_decimal, push_str};

verus! {

pub const CAPACITY: usize = 500;

pub const MAX_BATCH: usize = 200;

#[derive(Debug, Clone)]
pub struct FeedEvent {
    /// Position in this Server process's feed, starting at 1.
    pub seq: u64,
    /// `agent` for events the Agent reported, `server` for the Server's own.
    pub source: &'static str,
    pub timestamp_ms: u64,
    pub kind: String,
    pub result: EventResult,
    pub subject: String,
    pub request_id: Option<String>,
    pub command_id: Option<String>,
    pub message: Option<String>,
}

/// A feed event as plain values.
pub struct FeedView {
    pub seq: u64,
    pub source: Seq<char>,
    pub timestamp_ms: u64,
    pub kind: Seq<char>,
    pub result: EventResult,
    pub subject: Seq<char>,
    pub request_id: Option<Seq<char>>,
    pub command_id: Option<Seq<char>>,
    pub message: Option<Seq<char>>,
}

impl View for FeedEvent {
    type V = FeedView;

    open spec fn view(&self) -> FeedView {
        FeedView {
            seq: self.seq,
            source: self.source@,
            timestamp_ms: self.timestamp_ms,
            kind: self.kind@,
            result: self.result,
            subject: self.subject@,
            request_id: opt_view(self.request_id),
            command_id: opt_view(self.command_id),
            message: opt_view(self.message),
        }
    }
}

impl FeedEvent {
    pub fn copy(&self) -> (r: FeedEvent)
        ensures
            r@ == self@,
    {
        FeedEvent {
            seq: self.seq,
            source: self.source,
            timestamp_ms: self.timestamp_ms,
            kind: self.kind.clone(),
            result: self.result,
            subject: self.subject.clone(),
            request_id: copy_opt(&self.request_id),
            command_id: copy_opt(&self.command_id),
            message: copy_opt(&self.message),
        }
    }
}

/// What the Server currently knows about the Agent it talks to.
#[derive(Debug, Clone)]
pub struct AgentLink {
    pub connected: bool,
    pub agent_version: Option<String>,
    pub protocol_version: Option<u32>,
    /// `false` when the Agent speaks a different protocol version, in which
    /// case its events are not read.
    pub compatible: bool,
}

pub struct LinkView {
    pub connected: bool,
    pub agent_version: Option<Seq<char>>,
    pub protocol_version: Option<u32>,
    pub compatible: bool,
}

impl View for AgentLink {
    type V = LinkView;

    open spec fn view(&self) -> LinkView {
        LinkView {
            connected: self.connected,
            agent_version: opt_view(self.agent_version),
            protocol_version: self.protocol_version,
            compatible: self.compatible,
        }
    }
}

impl AgentLink {
    /// No Agent: not connected, nothing known.
    pub fn unknown() -> (r: AgentLink)
        ensures
            r@ == (LinkView { connected: false, agent_version: None, protocol_version: None, compatible: false }),
    {
        AgentLink { connected: false, agent_version: None, protocol_version: None, compatible: false }
    }

    pub fn copy(&self) -> (r: AgentLink)
        ensures
            r@ == self@,
    {
        AgentLink {
            connected: self.connected,
            agent_version: copy_opt(&self.agent_version),
            protocol_version: self.protocol_version,
            compatible: self.compatible,
        }
    }
}

#[derive(Debug)]
pub struct FeedBatch {
    /// Identifies this Server process; numbers start over when it changes.
    pub instance_id: String,
    pub events: Vec<FeedEvent>,
    pub next_after: u64,
    pub agent: AgentLink,
}

/// The feed as plain values.
pub struct FeedState {
    pub next_seq: u64,
    pub events: Seq<FeedView>,
    pub link: LinkView,
    pub epoch: Option<Seq<char>>,
    pub agent_position: u64,
    pub reported_mismatch: bool,
}

pub struct EventFeed {
    next_seq: u64,
    events: Vec<FeedEvent>,
    link: AgentLink,
    epoch: Option<String>,
    agent_position: u64,
    reported_mismatch: bool,
    instance_id: String,
}

pub open spec fn feed_views(events: Seq<FeedEvent>) -> Seq<FeedView> {
    events.map_values(|e: FeedEvent| e@)
}

/// The feed after `e` is appended as the next event (the oldest dropped at
/// capacity).
pub open spec fn with_event(s: FeedState, e: FeedView) -> FeedState {
    FeedState {
        next_seq: (s.next_seq + 1) as u64,
        events: if s.events.len() >= CAPACITY {
            s.events.drop_first().push(e)
        } else {
            s.events.push(e)
        },
        ..s
    }
}

/// The Server's own event about the Agent.
pub open spec fn server_event(
    seq: u64,
    kind: Seq<char>,
    result: EventResult,
    message: Option<Seq<char>>,
    now_ms: u64,
) -> FeedView {
    FeedView {
        seq,
        source: "server"@,
        timestamp_ms: now_ms,
        kind,
        result,
        subject: "agent"@,
        request_id: None,
        command_id: None,
        message,
    }
}

/// The feed with the Server's own event appended.
pub open spec fn noted(
    s: FeedState,
    kind: Seq<char>,
    result: EventResult,
    message: Option<Seq<char>>,
    now_ms: u64,
) -> FeedState {
    with_event(s, server_event(s.next_seq, kind, result, message, now_ms))
}

/// The report of a protocol mismatch.
pub open spec fn mismatch_message(agent_protocol: u32) -> Seq<char> {
    "Agent speaks protocol "@ + decimal(agent_protocol as nat) + " but this Server speaks "@ + decimal(
        PROTOCOL_VERSION as nat,
    ) + "; restart both after updating"@
}

/// What an answer to `GET /v1/info` does to the feed: the link is now
/// connected with the Agent's versions; connecting, a new epoch (the
/// Agent restarted, so its stream is read from the start) and the first
/// protocol mismatch are each reported.
pub open spec fn info_applied(s: FeedState, info_version: u32, agent_version: Seq<char>, epoch: Seq<char>, now_ms: u64) -> FeedState {
    let compatible = info_version == PROTOCOL_VERSION;
    let s1 = FeedState {
        link: LinkView {
            connected: true,
            agent_version: Some(agent_version),
            protocol_version: Some(info_version),
            compatible,
        },
        ..s
    };
    let s2 = if !s.link.connected {
        noted(s1, "agent_connected"@, EventResult::Completed, None, now_ms)
    } else {
        s1
    };
    let s3 = match s.epoch {
        Some(seen) => if seen != epoch {
            noted(FeedState { agent_position: 0, ..s2 }, "agent_restarted"@, EventResult::Completed, None, now_ms)
        } else {
            s2
        },
        None => s2,
    };
    let s4 = FeedState { epoch: Some(epoch), ..s3 };
    if !compatible && !s4.reported_mismatch {
        noted(
            FeedState { reported_mismatch: true, ..s4 },
            "protocol_mismatch"@,
            EventResult::Failed,
            Some(mismatch_message(info_version)),
            now_ms,
        )
    } else {
        s4
    }
}

/// What a failed `GET /v1/info` does: a connected link is reported lost,
/// and the link forgets the Agent.
pub open spec fn unreachable_applied(s: FeedState, reason: Seq<char>, now_ms: u64) -> FeedState {
    let s1 = if s.link.connected {
        noted(s, "agent_disconnected"@, EventResult::Failed, Some(reason), now_ms)
    } else {
        s
    };
    FeedState {
        link: LinkView { connected: false, agent_version: None, protocol_version: None, compatible: false },
        ..s1
    }
}

/// The feed numbers its events consecutively up to the last number given,
/// holding at most `CAPACITY`.
pub open spec fn feed_numbered(s: FeedState) -> bool {
    &&& 1 <= s.next_seq
    &&& s.events.len() <= CAPACITY
    &&& s.events.len() < s.next_seq
    &&& forall|i: int| 0 <= i < s.events.len() ==> #[trigger] s.events[i].seq == s.next_seq - s.events.len() + i
}

impl EventFeed {
    pub closed spec fn state(&self) -> FeedState {
        FeedState {
            next_seq: self.next_seq,
            events: feed_views(self.events@),
            link: self.link@,
            epoch: opt_view(self.epoch),
            agent_position: self.agent_position,
            reported_mismatch: self.reported_mismatch,
        }
    }

    pub closed spec fn instance(&self) -> Seq<char> {
        self.instance_id@
    }

    pub open spec fn wf(&self) -> bool {
        feed_numbered(self.state())
    }

    pub fn new(instance_id: &str) -> (r: EventFeed)
        ensures
            r.wf(),
            r.instance() == instance_id@,
            r.state() == (FeedState {
                next_seq: 1,
                events: seq![],
                link: LinkView { connected: false, agent_version: None, protocol_version: None, compatible: false },
                epoch: None,
                agent_position: 0,
                reported_mismatch: false,
            }),
    {
        let r = EventFeed {
            next_seq: 1,
            events: Vec::new(),
            link: AgentLink::unknown(),
            epoch: None,
            agent_position: 0,
            reported_mismatch: false,
            instance_id: owned(instance_id),
        };
        assert(feed_views(r.events@) =~= Seq::<FeedView>::empty());
        r
    }

    pub fn link(&self) -> (r: AgentLink)
        ensures
            r@ == self.state().link,
    {
        self.link.copy()
    }

    /// The Agent's stream position and epoch, for the next read.
    pub fn position(&self) -> (r: (u64, Option<String>))
        ensures
            r.0 == self.state().agent_position,
            opt_view(r.1) == self.state().epoch,
    {
        (self.agent_position, copy_opt(&self.epoch))
    }

    /// The number the next event gets.
    pub fn next_number(&self) -> (r: u64)
        ensures
            r == self.state().next_seq,
    {
        self.next_seq
    }

    fn append(&mut self, event: FeedEvent)
        requires
            old(self).wf(),
            old(self).state().next_seq < u64::MAX,
            event.seq == old(self).state().next_seq,
        ensures
            final(self).wf(),
            final(self).instance() == old(self).instance(),
            final(self).state() == with_event(old(self).state(), event@),
    {
        let ghost before = feed_views(self.events@);
        self.next_seq = self.next_seq + 1;
        if self.events.len() >= CAPACITY {
            self.events.remove(0);
            assert(feed_views(self.events@) =~= before.drop_first());
        }
        let ghost kept = feed_views(self.events@);
        let ghost e = event@;
        self.events.push(event);
        assert(feed_views(self.events@) =~= kept.push(e));
        assert forall|i: int| 0 <= i < feed_views(self.events@).len() implies #[trigger] feed_views(
            self.events@,
        )[i].seq == self.next_seq - feed_views(self.events@).len() + i by {
            if i < kept.len() {
                if before.len() >= CAPACITY {
                    assert(kept[i] == before[i + 1]);
                } else {
                    assert(kept[i] == before[i]);
                }
            }
        }
    }

    fn note(&mut self, kind: &str, result: EventResult, message: Option<String>, now_ms: u64)
        requires
            old(self).wf(),
            old(self).state().next_seq < u64::MAX,
        ensures
            final(self).wf(),
            final(self).instance() == old(self).instance(),
            final(self).state() == noted(old(self).state(), kind@, result, opt_view(message), now_ms),
    {
        let event = FeedEvent {
            seq: self.next_seq,
            source: "server",
            timestamp_ms: now_ms,
            kind: owned(kind),
            result,
            subject: owned("agent"),
            request_id: None,
            command_id: None,
            message,
        };
        self.append(event);
    }

    /// Records the answer to `GET /v1/info`; returns whether the Agent's
    /// events should be read (its protocol is this Server's).
    pub fn apply_info(&mut self, info: &AgentInfo, now_ms: u64) -> (r: bool)
        requires
            old(self).wf(),
            old(self).state().next_seq < u64::MAX - 3,
        ensures
            final(self).wf(),
            final(self).instance() == old(self).instance(),
            r == (info.protocol_version == PROTOCOL_VERSION),
            final(self).state() == info_applied(
                old(self).state(),
                info.protocol_version,
                info.agent_version@,
                info.epoch@,
                now_ms,
            ),
    {
        let compatible = info.protocol_version == PROTOCOL_VERSION;
        let was_connected = self.link.connected;
        self.link = AgentLink {
            connected: true,
            agent_version: Some(info.agent_version.clone()),
            protocol_version: Some(info.protocol_version),
            compatible,
        };
        if !was_connected {
            self.note("agent_connected", EventResult::Completed, None, now_ms);
        }
        let restarted = match &self.epoch {
            Some(seen) => *seen != info.epoch,
            None => false,
        };
        if restarted {
            self.agent_position = 0;
            self.note("agent_restarted", EventResult::Completed, None, now_ms);
        }
        self.epoch = Some(info.epoch.clone());
        if !compatible && !self.reported_mismatch {
            self.reported_mismatch = true;
            let mut message = owned("Agent speaks protocol ");
            push_decimal(&mut message, info.protocol_version as u64);
            push_str(&mut message, " but this Server speaks ");
            push_decimal(&mut message, PROTOCOL_VERSION as u64);
            push_str(&mut message, "; restart both after updating");
            assert(message@ =~= mismatch_message(info.protocol_version));
            self.note("protocol_mismatch", EventResult::Failed, Some(message), now_ms);
        }
        compatible
    }

    /// Records that `GET /v1/info` failed.
    pub fn apply_unreachable(&mut self, reason: &str, now_ms: u64)
        requires
            old(self).wf(),
            old(self).state().next_seq < u64::MAX,
        ensures
            final(self).wf(),
            final(self).instance() == old(self).instance(),
            final(self).state() == unreachable_applied(old(self).state(), reason@, now_ms),
    {
        if self.link.connected {
            self.note("agent_disconnected", EventResult::Failed, Some(owned(reason)), now_ms);
        }
        self.link = AgentLink::unknown();
    }
}

/// The feed events numbered after `after`, in order.
pub open spec fn feed_newer(events: Seq<FeedView>, after: u64) -> Seq<FeedView> {
    filter_map(events, |e: FeedView| if e.seq > after {
        Some(e)
    } else {
        None
    })
}

/// The page after `after`: the newer events, at most `MAX_BATCH`, and the
/// position to ask from next (the last handed out, else the newest number
/// given so far, never moving a reader back).
pub open spec fn feed_page(s: FeedState, after: u64) -> (Seq<FeedView>, u64) {
    let n = feed_newer(s.events, after);
    let batch = if n.len() > MAX_BATCH {
        n.take(MAX_BATCH as int)
    } else {
        n
    };
    let next_after = if batch.len() > 0 {
        batch.last().seq
    } else if after >= s.next_seq - 1 {
        after
    } else {
        (s.next_seq - 1) as u64
    };
    (batch, next_after)
}

/// The feed after the events of an Agent batch are appended in order, each
/// under the feed's next number, and the Agent position moves to the
/// batch's `next_after`.
pub open spec fn batch_applied(s: FeedState, events: Seq<crate::protocol::EventView>, next_after: u64) -> FeedState
    decreases events.len(),
{
    if events.len() == 0 {
        FeedState { agent_position: next_after, ..s }
    } else {
        let prior = batch_applied(s, events.drop_last(), next_after);
        let e = events.last();
        FeedState {
            agent_position: next_after,
            ..with_event(
                prior,
                FeedView {
                    seq: prior.next_seq,
                    source: "agent"@,
                    timestamp_ms: e.timestamp_ms,
                    kind: e.kind,
                    result: e.result,
                    subject: e.subject,
                    request_id: e.request_id,
                    command_id: e.command_id,
                    message: e.message,
                },
            )
        }
    }
}

impl EventFeed {
    /// Feed events after position `after`, with the link state.
    pub fn since(&self, after: u64) -> (r: FeedBatch)
        requires
            self.wf(),
        ensures
            r.instance_id@ == self.instance(),
            r.agent@ == self.state().link,
            feed_views(r.events@) == feed_page(self.state(), after).0,
            r.next_after == feed_page(self.state(), after).1,
    {
        let ghost evs = feed_views(self.events@);
        let ghost f = |e: FeedView| if e.seq > after {
            Some(e)
        } else {
            None
        };
        let mut out: Vec<FeedEvent> = Vec::new();
        let mut i: usize = 0;
        while i < self.events.len() && out.len() < MAX_BATCH
            invariant
                i <= self.events@.len(),
                evs == feed_views(self.events@),
                f == (|e: FeedView| if e.seq > after {
                    Some(e)
                } else {
                    None
                }),
                feed_views(out@) == filter_map(evs.take(i as int), f),
                out@.len() <= MAX_BATCH,
            decreases self.events@.len() - i,
        {
            proof {
                lemma_filter_map_step(evs, i as int, f);
            }
            if self.events[i].seq > after {
                let ghost prev = out@;
                out.push(self.events[i].copy());
                assert(feed_views(out@) =~= feed_views(prev).push(evs[i as int]));
            }
            i = i + 1;
        }
        proof {
            lemma_filter_map_prefix(evs, i as int, f);
            let whole = feed_newer(evs, after);
            assert(whole == filter_map(evs, f)) by {
                assert(f =~= (|e: FeedView| if e.seq > after {
                    Some(e)
                } else {
                    None
                }));
            }
            if i == self.events@.len() {
                assert(evs.take(i as int) =~= evs);
            } else if whole.len() > MAX_BATCH {
                assert(feed_views(out@) =~= whole.take(MAX_BATCH as int));
            } else {
                assert(feed_views(out@) =~= whole);
            }
        }
        let next_after = if out.len() > 0 {
            out[out.len() - 1].seq
        } else if after >= self.next_seq - 1 {
            after
        } else {
            self.next_seq - 1
        };
        FeedBatch {
            instance_id: self.instance_id.clone(),
            events: out,
            next_after,
            agent: self.link.copy(),
        }
    }

    /// Appends the Agent's events, in order, and moves the Agent position
    /// to the batch's `next_after`.
    pub fn apply_batch(&mut self, batch: EventBatch)
        requires
            old(self).wf(),
            old(self).state().next_seq + batch.events@.len() < u64::MAX,
        ensures
            final(self).wf(),
            final(self).instance() == old(self).instance(),
            final(self).state() == batch_applied(
                old(self).state(),
                crate::agent::events::event_views(batch.events@),
                batch.next_after,
            ),
    {
        let ghost start = self.state();
        let ghost all = crate::agent::events::event_views(batch.events@);
        let mut i: usize = 0;
        assert(all.take(0) =~= Seq::<crate::protocol::EventView>::empty());
        while i < batch.events.len()
            invariant
                self.wf(),
                i <= batch.events@.len(),
                all == crate::agent::events::event_views(batch.events@),
                self.instance() == old(self).instance(),
                self.state().next_seq == start.next_seq + i,
                start.next_seq + batch.events@.len() < u64::MAX,
                self.state() == (FeedState {
                    agent_position: self.state().agent_position,
                    ..batch_applied(start, all.take(i as int), batch.next_after)
                }),
            decreases batch.events@.len() - i,
        {
            assert(all.take(i + 1).drop_last() =~= all.take(i as int));
            let e = &batch.events[i];
            let event = FeedEvent {
                seq: self.next_seq,
                source: "agent",
                timestamp_ms: e.timestamp_ms,
                kind: e.kind.clone(),
                result: e.result,
                subject: e.subject.clone(),
                request_id: copy_opt(&e.request_id),
                command_id: copy_opt(&e.command_id),
                message: copy_opt(&e.message),
            };
            self.append(event);
            i = i + 1;
        }
        assert(all.take(i as int) =~= all);
        self.agent_position = batch.next_after;
    }
}

/// Losing the Agent is reported once: a second failed poll while
/// disconnected adds no event.
pub proof fn lemma_disconnect_reported_once(s: FeedState, first: Seq<char>, second: Seq<char>, t1: u64, t2: u64)
    ensures
        unreachable_applied(unreachable_applied(s, first, t1), second, t2) == unreachable_applied(s, first, t1),
{
}

/// A protocol mismatch is reported once: polling again with the same
/// mismatched version adds no further event.
pub proof fn lemma_mismatch_reported_once(s: FeedState, version: u32, agent_version: Seq<char>, epoch: Seq<char>, t1: u64, t2: u64)
    requires
        version != PROTOCOL_VERSION,
    ensures
        ({
            let once = info_applied(s, version, agent_version, epoch, t1);
            let twice = info_applied(once, version, agent_version, epoch, t2);
            twice.events == once.events && twice.next_seq == once.next_seq && twice.reported_mismatch
        }),
{
}

} // verus!
