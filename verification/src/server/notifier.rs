//! The decisions of the background monitor that posts a webhook when
//! something needs attention: each condition fires once when it starts and
//! once when it ends, so a lasting breach does not repeat on every poll.

use vstd::prelude::*;

use crate::protocol::{ServiceSummary, UpdateCheckStatus, UpdateStatus, copy_opt};
use crate::text::{contains_text, owned, push_str, texts};

verus! {

/// The new state of an edge-triggered condition: `Some(true)` when it has
/// just been reached, `Some(false)` when it has just cleared, `None` when
/// nothing changed.
pub open spec fn edge(was_high: bool, at_or_above: bool) -> Option<bool> {
    if at_or_above && !was_high {
        Some(true)
    } else if !at_or_above && was_high {
        Some(false)
    } else {
        None
    }
}

/// The state kept after a poll: the new one when it changed.
pub open spec fn after_edge(was_high: bool, at_or_above: bool) -> bool {
    match edge(was_high, at_or_above) {
        Some(h) => h,
        None => was_high,
    }
}

/// A condition fires once when it starts and once when it ends: a second
/// poll that sees the same thing fires nothing, and a change always fires.
pub proof fn lemma_edge_fires_once(was_high: bool, at_or_above: bool)
    ensures
        edge(after_edge(was_high, at_or_above), at_or_above) is None,
        after_edge(was_high, at_or_above) == at_or_above,
        (edge(was_high, at_or_above) is Some) == (was_high != at_or_above),
{
}

pub fn threshold_transition(was_high: bool, at_or_above: bool) -> (r: Option<bool>)
    ensures
        r == edge(was_high, at_or_above),
{
    if at_or_above && !was_high {
        Some(true)
    } else if !at_or_above && was_high {
        Some(false)
    } else {
        None
    }
}

/// An allow-listed service in the `failed` state.
pub open spec fn is_failed(s: ServiceSummary) -> bool {
    s.control_allowed && s.active_state@ == "failed"@
}

/// `id` names a failed allow-listed service of the list.
pub open spec fn failed_in(services: Seq<ServiceSummary>, id: Seq<char>) -> bool {
    exists|i: int| 0 <= i < services.len() && is_failed(#[trigger] services[i]) && services[i].id@ == id
}

/// `id` names a service of the list.
pub open spec fn present_in(services: Seq<ServiceSummary>, id: Seq<char>) -> bool {
    exists|i: int| 0 <= i < services.len() && #[trigger] services[i].id@ == id
}

/// What changed among the failed services since the last poll.
pub struct ServiceChanges {
    /// Failed now, not before.
    pub newly_failed: Vec<String>,
    /// Failed before, not now, and still listed: a service that left the
    /// list is dropped without a word.
    pub recovered: Vec<String>,
    /// Failed now: the set to keep for the next poll.
    pub currently_failed: Vec<String>,
}

fn failed_exec(s: &ServiceSummary) -> (r: bool)
    ensures
        r == is_failed(*s),
{
    s.control_allowed && crate::agent::events::text_eq(s.active_state.as_str(), "failed")
}

/// Compares the failed services of this poll with those of the last one
/// (`previously_failed`, each id once).
pub fn service_transitions(previously_failed: &Vec<String>, services: &Vec<ServiceSummary>) -> (r: ServiceChanges)
    ensures
        texts(r.currently_failed@).no_duplicates(),
        texts(r.newly_failed@).no_duplicates(),
        texts(previously_failed@).no_duplicates() ==> texts(r.recovered@).no_duplicates(),
        forall|id: Seq<char>| texts(r.currently_failed@).contains(id) <==> failed_in(services@, id),
        forall|id: Seq<char>|
            texts(r.newly_failed@).contains(id) <==> failed_in(services@, id) && !texts(previously_failed@).contains(id),
        forall|id: Seq<char>|
            texts(r.recovered@).contains(id) <==> texts(previously_failed@).contains(id) && !failed_in(services@, id)
                && present_in(services@, id),
{
    let mut current: Vec<String> = Vec::new();
    let mut newly: Vec<String> = Vec::new();
    let mut i: usize = 0;
    while i < services.len()
        invariant
            i <= services@.len(),
            texts(current@).no_duplicates(),
            texts(newly@).no_duplicates(),
            forall|id: Seq<char>| texts(current@).contains(id) <==> failed_in(services@.take(i as int), id),
            forall|id: Seq<char>|
                texts(newly@).contains(id) <==> failed_in(services@.take(i as int), id) && !texts(
                    previously_failed@,
                ).contains(id),
        decreases services@.len() - i,
    {
        let s = &services[i];
        let ghost pre = services@.take(i as int);
        let ghost post = services@.take(i + 1);
        assert(post == pre.push(*s));
        assert forall|id: Seq<char>| failed_in(post, id) <==> failed_in(pre, id) || (is_failed(*s) && s.id@ == id) by {
            if failed_in(post, id) {
                let k = choose|k: int| 0 <= k < post.len() && is_failed(#[trigger] post[k]) && post[k].id@ == id;
                if k < pre.len() {
                    assert(pre[k] == post[k]);
                }
            }
            if failed_in(pre, id) {
                let k = choose|k: int| 0 <= k < pre.len() && is_failed(#[trigger] pre[k]) && pre[k].id@ == id;
                assert(post[k] == pre[k]);
            }
            if is_failed(*s) && s.id@ == id {
                assert(post[i as int] == *s);
            }
        }
        let ghost cb = texts(current@);
        let ghost nb = texts(newly@);
        let f = failed_exec(s);
        let already = contains_text(&current, &s.id);
        let was = contains_text(previously_failed, &s.id);
        if f && !already {
            current.push(s.id.clone());
            assert(texts(current@) =~= cb.push(s.id@));
            proof {
                lemma_push_contains(cb, s.id@);
                lemma_push_unique(cb, s.id@);
            }
            if !was {
                newly.push(s.id.clone());
                assert(texts(newly@) =~= nb.push(s.id@));
                proof {
                    lemma_push_contains(nb, s.id@);
                    lemma_push_unique(nb, s.id@);
                }
            }
        }
        assert forall|id: Seq<char>| texts(current@).contains(id) <==> failed_in(post, id) by {
            if f && !already {
                assert(texts(current@).contains(id) <==> cb.contains(id) || id == s.id@);
            } else {
                assert(texts(current@) == cb);
                if id == s.id@ && is_failed(*s) {
                    assert(cb.contains(id));
                }
            }
        }
        assert forall|id: Seq<char>|
            texts(newly@).contains(id) <==> failed_in(post, id) && !texts(previously_failed@).contains(id) by {
            if f && !already && !was {
                assert(texts(newly@).contains(id) <==> nb.contains(id) || id == s.id@);
            } else {
                assert(texts(newly@) == nb);
                if id == s.id@ && is_failed(*s) && !texts(previously_failed@).contains(id) {
                    assert(cb.contains(id));
                }
            }
        }
        i = i + 1;
    }
    assert(services@.take(services@.len() as int) =~= services@);
    let mut recovered: Vec<String> = Vec::new();
    let mut k: usize = 0;
    while k < previously_failed.len()
        invariant
            k <= previously_failed@.len(),
            forall|id: Seq<char>| texts(current@).contains(id) <==> failed_in(services@, id),
            texts(previously_failed@).no_duplicates() ==> texts(recovered@).no_duplicates(),
            forall|j: int| 0 <= j < recovered@.len() ==> texts(previously_failed@.take(k as int)).contains(#[trigger] recovered@[j]@),
            forall|id: Seq<char>|
                texts(recovered@).contains(id) <==> texts(previously_failed@.take(k as int)).contains(id) && !failed_in(
                    services@,
                    id,
                ) && present_in(services@, id),
        decreases previously_failed@.len() - k,
    {
        let id = &previously_failed[k];
        let ghost pre = texts(previously_failed@.take(k as int));
        let ghost post = texts(previously_failed@.take(k + 1));
        assert(post =~= pre.push(id@));
        assert forall|x: Seq<char>| post.contains(x) <==> pre.contains(x) || x == id@ by {
            if post.contains(x) {
                let j = choose|j: int| 0 <= j < post.len() && post[j] == x;
                if j < pre.len() {
                    assert(pre[j] == x);
                }
            }
            if pre.contains(x) {
                let j = choose|j: int| 0 <= j < pre.len() && pre[j] == x;
                assert(post[j] == x);
            }
            if x == id@ {
                assert(post[k as int] == x);
            }
        }
        let ghost rb = texts(recovered@);
        if !contains_text(&current, id) && listed(services, id) {
            let ghost before = recovered@;
            proof {
                if texts(previously_failed@).no_duplicates() {
                    assert(!pre.contains(id@)) by {
                        if pre.contains(id@) {
                            let j = choose|j: int| 0 <= j < pre.len() && pre[j] == id@;
                            assert(texts(previously_failed@)[j] == texts(previously_failed@)[k as int]);
                        }
                    }
                }
            }
            recovered.push(id.clone());
            assert(texts(recovered@) =~= texts(before).push(id@));
            proof {
                lemma_push_contains(rb, id@);
            }
            proof {
                if texts(previously_failed@).no_duplicates() {
                    assert forall|a: int, b: int| 0 <= a < b < texts(recovered@).len() implies texts(
                        recovered@,
                    )[a] != texts(recovered@)[b] by {
                        if b == texts(before).len() {
                            assert(pre.contains(texts(before)[a]));
                        } else {
                            assert(texts(before)[a] != texts(before)[b]);
                        }
                    }
                }
            }
        }
        k = k + 1;
    }
    assert(previously_failed@.take(previously_failed@.len() as int) =~= previously_failed@);
    ServiceChanges { newly_failed: newly, recovered, currently_failed: current }
}

pub proof fn lemma_push_contains(s: Seq<Seq<char>>, e: Seq<char>)
    ensures
        forall|x: Seq<char>| s.push(e).contains(x) <==> s.contains(x) || x == e,
{
    assert forall|x: Seq<char>| s.push(e).contains(x) <==> s.contains(x) || x == e by {
        if s.push(e).contains(x) {
            let j = choose|j: int| 0 <= j < s.push(e).len() && s.push(e)[j] == x;
            if j < s.len() {
                assert(s[j] == x);
            }
        }
        if s.contains(x) {
            let j = choose|j: int| 0 <= j < s.len() && s[j] == x;
            assert(s.push(e)[j] == x);
        }
        if x == e {
            assert(s.push(e)[s.len() as int] == x);
        }
    }
}

proof fn lemma_push_unique(s: Seq<Seq<char>>, e: Seq<char>)
    requires
        s.no_duplicates(),
        !s.contains(e),
    ensures
        s.push(e).no_duplicates(),
{
    assert forall|a: int, b: int| 0 <= a < s.push(e).len() && 0 <= b < s.push(e).len() && a != b implies s.push(e)[a]
        != s.push(e)[b] by {
        if a == s.len() {
            assert(s.contains(s[b]));
        } else if b == s.len() {
            assert(s.contains(s[a]));
        }
    }
}

/// Whether a service named `id` is in the list.
fn listed(services: &Vec<ServiceSummary>, id: &String) -> (r: bool)
    ensures
        r == present_in(services@, id@),
{
    let mut i: usize = 0;
    while i < services.len()
        invariant
            i <= services@.len(),
            forall|j: int| 0 <= j < i ==> services@[j].id@ != id@,
        decreases services@.len() - i,
    {
        if services[i].id == *id {
            assert(services@[i as int].id@ == id@);
            return true;
        }
        i = i + 1;
    }
    false
}

/// The release to announce: the latest version of the last check, unless
/// it is the one announced before.
pub fn update_notification(status: &UpdateStatus, previously_notified: Option<&str>) -> (r: Option<String>)
    ensures
        match status@.latest_version {
            None => r is None,
            Some(latest) => if previously_notified matches Some(p) && p@ == latest {
                r is None
            } else {
                r matches Some(v) && v@ == latest
            },
        },
{
    match &status.latest_version {
        None => None,
        Some(latest) => {
            match previously_notified {
                Some(p) => {
                    if crate::agent::events::text_eq(p, latest.as_str()) {
                        return None;
                    }
                },
                None => {},
            }
            Some(latest.clone())
        },
    }
}

/// A finished update check against the version announced last: what to
/// announce, and what to remember.
pub open spec fn update_step(notified: Option<Seq<char>>, status: crate::protocol::StatusView) -> (
    Option<Seq<char>>,
    Option<Seq<char>>,
) {
    match status.status {
        UpdateCheckStatus::UpToDate => (None, None),
        UpdateCheckStatus::Unavailable => (None, notified),
        UpdateCheckStatus::Available => match status.latest_version {
            None => (None, notified),
            Some(latest) => if notified == Some(latest) {
                (None, notified)
            } else {
                (Some(latest), Some(latest))
            },
        },
    }
}

/// A release is announced once: the same check again announces nothing,
/// and a failed check in between does not bring the announcement back.
pub proof fn lemma_update_announced_once(
    notified: Option<Seq<char>>,
    status: crate::protocol::StatusView,
    failed: crate::protocol::StatusView,
)
    requires
        failed.status == UpdateCheckStatus::Unavailable,
    ensures
        update_step(update_step(notified, status).1, status).0 is None,
        update_step(update_step(update_step(notified, status).1, failed).1, status).0 is None,
{
}

/// What the monitor remembers between polls.
pub struct NotifierState {
    pub agent_unreachable: bool,
    pub swap_high: bool,
    pub disk_high: bool,
    pub failed_services: Vec<String>,
    /// The last version announced, so a lasting update is announced once.
    pub notified_update_version: Option<String>,
}

impl NotifierState {
    pub fn new() -> (r: NotifierState)
        ensures
            !r.agent_unreachable && !r.swap_high && !r.disk_high,
            r.failed_services@.len() == 0,
            r.notified_update_version is None,
    {
        NotifierState {
            agent_unreachable: false,
            swap_high: false,
            disk_high: false,
            failed_services: Vec::new(),
            notified_update_version: None,
        }
    }

    /// Takes in a finished update check; the version to announce, when
    /// there is a new one. Being up to date forgets the last announcement,
    /// so a later release is announced again; a failed check changes
    /// nothing.
    pub fn observe_update(&mut self, status: &UpdateStatus) -> (r: Option<String>)
        ensures
            final(self).agent_unreachable == old(self).agent_unreachable,
            final(self).swap_high == old(self).swap_high,
            final(self).disk_high == old(self).disk_high,
            final(self).failed_services == old(self).failed_services,
            (crate::protocol::opt_view(r), crate::protocol::opt_view(final(self).notified_update_version))
                == update_step(crate::protocol::opt_view(old(self).notified_update_version), status@),
    {
        match status.status {
            UpdateCheckStatus::UpToDate => {
                self.notified_update_version = None;
                None
            },
            UpdateCheckStatus::Unavailable => None,
            UpdateCheckStatus::Available => {
                let previous = copy_opt(&self.notified_update_version);
                let next = match &previous {
                    Some(p) => update_notification(status, Some(p.as_str())),
                    None => update_notification(status, None),
                };
                match next {
                    Some(v) => {
                        self.notified_update_version = Some(v.clone());
                        Some(v)
                    },
                    None => None,
                }
            },
        }
    }

    /// Takes in whether the Agent answered this poll; the event to send
    /// when that changed.
    pub fn observe_agent(&mut self, reachable: bool) -> (r: Option<&'static str>)
        ensures
            final(self).agent_unreachable == !reachable,
            final(self).swap_high == old(self).swap_high,
            final(self).disk_high == old(self).disk_high,
            final(self).failed_services == old(self).failed_services,
            final(self).notified_update_version == old(self).notified_update_version,
            !reachable && !old(self).agent_unreachable ==> r == Some("agent_unreachable"),
            reachable && old(self).agent_unreachable ==> r == Some("agent_recovered"),
            (reachable == !old(self).agent_unreachable) ==> r is None,
    {
        if !reachable {
            if !self.agent_unreachable {
                self.agent_unreachable = true;
                return Some("agent_unreachable");
            }
            None
        } else {
            if self.agent_unreachable {
                self.agent_unreachable = false;
                return Some("agent_recovered");
            }
            None
        }
    }
}

/// The announcement of a new release: the version, the running one, and
/// the release page when known.
pub fn update_message(latest: &str, current: &str, release_url: Option<&str>) -> (r: String)
    ensures
        r@ == "新しいバージョン "@ + latest@ + " が利用可能です(現在: "@ + current@ + ")。"@ + match release_url {
            Some(u) => " "@ + u@,
            None => seq![],
        },
{
    let mut m = owned("新しいバージョン ");
    push_str(&mut m, latest);
    push_str(&mut m, " が利用可能です(現在: ");
    push_str(&mut m, current);
    push_str(&mut m, ")。");
    match release_url {
        Some(u) => {
            push_str(&mut m, " ");
            push_str(&mut m, u);
        },
        None => {},
    }
    m
}

/// The audit detail of a failed notification.
pub fn failure_detail(event: &str, error: &str) -> (r: String)
    ensures
        r@ == "event="@ + event@ + " error="@ + error@,
{
    let mut m = owned("event=");
    push_str(&mut m, event);
    push_str(&mut m, " error=");
    push_str(&mut m, error);
    m
}

/// What the admin's "send a test notification" request is answered with:
/// the HTTP status, the error (code and message) when there is one, and the
/// audit result.
pub struct WebhookTestReply {
    pub status: u16,
    pub error: Option<(&'static str, String)>,
    pub audit_result: Option<&'static str>,
}

/// `sent` is `None` when no webhook is configured, else how sending went.
pub fn webhook_test_reply(sent: Option<Result<(), String>>) -> (r: WebhookTestReply)
    ensures
        sent is None ==> r.status == 400 && (r.error matches Some(e) && e.0@ == "webhook_not_configured"@ && e.1@
            == "DECKOX_WEBHOOK_URL is not set"@) && r.audit_result is None,
        sent == Some(Ok::<(), String>(())) ==> r.status == 204 && r.error is None && r.audit_result
            == Some("success"),
        sent matches Some(Err(m)) ==> r.status == 502 && (r.error matches Some(e) && e.0@ == "webhook_test_failed"@
            && e.1@ == m@) && r.audit_result == Some("failure"),
{
    match sent {
        None => WebhookTestReply {
            status: 400,
            error: Some(("webhook_not_configured", owned("DECKOX_WEBHOOK_URL is not set"))),
            audit_result: None,
        },
        Some(Ok(())) => WebhookTestReply { status: 204, error: None, audit_result: Some("success") },
        Some(Err(message)) => WebhookTestReply {
            status: 502,
            error: Some(("webhook_test_failed", message)),
            audit_result: Some("failure"),
        },
    }
}

} // verus!
