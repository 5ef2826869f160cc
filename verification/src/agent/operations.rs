//! Operations on the host: each mutating one holds a lock named after what
//! it changes (`packages`, `host`, `service:<id>`), so two of them on one
//! resource queue instead of colliding; a long one runs as a job that is
//! answered at once and finishes in the background.

use vstd::prelude::*;

use crate::agent::events::EventDraft;
use crate::protocol::{EventResult, copy_opt, opt_view};
use crate::text::{decimal, owned, push_decimal, push_str, texts};

verus! {

/// At most this many jobs are kept; the oldest go first.
pub const KEPT_JOBS: usize = 100;

/// What an operation is, for its job record and its event.
#[derive(Debug, Clone)]
pub struct OperationSpec {
    pub kind: &'static str,
    pub subject: String,
    /// The resource lock it takes, for example `packages`.
    pub key: String,
    pub request_id: Option<String>,
}

#[derive(Debug, Clone, Copy, PartialEq, Eq, Structural)]
pub enum JobState {
    Queued,
    Running,
    Succeeded,
    Failed,
}

/// A background operation and how far it got.
#[derive(Debug, Clone, PartialEq, Eq)]
pub struct Job {
    pub id: String,
    pub kind: String,
    pub subject: String,
    pub state: JobState,
    pub created_ms: u64,
    pub started_ms: Option<u64>,
    pub finished_ms: Option<u64>,
    pub message: Option<String>,
    pub request_id: Option<String>,
}

pub struct JobView {
    pub id: Seq<char>,
    pub kind: Seq<char>,
    pub subject: Seq<char>,
    pub state: JobState,
    pub created_ms: u64,
    pub started_ms: Option<u64>,
    pub finished_ms: Option<u64>,
    pub message: Option<Seq<char>>,
    pub request_id: Option<Seq<char>>,
}

impl View for Job {
    type V = JobView;

    open spec fn view(&self) -> JobView {
        JobView {
            id: self.id@,
            kind: self.kind@,
            subject: self.subject@,
            state: self.state,
            created_ms: self.created_ms,
            started_ms: self.started_ms,
            finished_ms: self.finished_ms,
            message: opt_view(self.message),
            request_id: opt_view(self.request_id),
        }
    }
}

impl Job {
    pub fn copy(&self) -> (r: Job)
        ensures
            r@ == self@,
    {
        Job {
            id: self.id.clone(),
            kind: self.kind.clone(),
            subject: self.subject.clone(),
            state: self.state,
            created_ms: self.created_ms,
            started_ms: self.started_ms,
            finished_ms: self.finished_ms,
            message: copy_opt(&self.message),
            request_id: copy_opt(&self.request_id),
        }
    }
}

pub open spec fn job_views(jobs: Seq<Job>) -> Seq<JobView> {
    jobs.map_values(|j: Job| j@)
}

/// The jobs kept, oldest first, and the number the next one gets.
pub struct Operations {
    jobs: Vec<Job>,
    sequence: u64,
}

pub struct OperationsView {
    pub jobs: Seq<JobView>,
    pub sequence: u64,
}

impl View for Operations {
    type V = OperationsView;

    closed spec fn view(&self) -> OperationsView {
        OperationsView { jobs: job_views(self.jobs@), sequence: self.sequence }
    }
}

/// `job-{created}-{number}`.
pub open spec fn job_id(created_ms: u64, number: u64) -> Seq<char> {
    "job-"@ + decimal(created_ms as nat) + "-"@ + decimal(number as nat)
}

/// The record of a job just submitted.
pub open spec fn queued(spec_kind: Seq<char>, subject: Seq<char>, request_id: Option<Seq<char>>, id: Seq<char>, now: u64) -> JobView {
    JobView {
        id,
        kind: spec_kind,
        subject,
        state: JobState::Queued,
        created_ms: now,
        started_ms: None,
        finished_ms: None,
        message: None,
        request_id,
    }
}

/// `jobs` with `job` added, the oldest dropped when the list is full.
pub open spec fn stored(jobs: Seq<JobView>, job: JobView) -> Seq<JobView> {
    if jobs.len() >= KEPT_JOBS {
        jobs.skip(jobs.len() - KEPT_JOBS + 1).push(job)
    } else {
        jobs.push(job)
    }
}

/// The first kept job with `id`.
#[verifier::opaque]
pub open spec fn job_index(jobs: Seq<JobView>, id: Seq<char>) -> Option<int> {
    if exists|i: int| 0 <= i < jobs.len() && jobs[i].id == id {
        Some(choose|i: int| 0 <= i < jobs.len() && jobs[i].id == id && forall|j: int| 0 <= j < i ==> jobs[j].id != id)
    } else {
        None
    }
}

/// How an operation ended: its message, or its error's message.
pub type Outcome = Result<Option<String>, String>;

pub open spec fn outcome_view(o: Outcome) -> Result<Option<Seq<char>>, Seq<char>> {
    match o {
        Ok(m) => Ok(opt_view(m)),
        Err(e) => Err(e@),
    }
}

/// The record of a job once its work is done.
pub open spec fn finished(job: JobView, outcome: Result<Option<Seq<char>>, Seq<char>>, now: u64) -> JobView {
    JobView {
        state: match outcome {
            Ok(_) => JobState::Succeeded,
            Err(_) => JobState::Failed,
        },
        finished_ms: Some(now),
        message: match outcome {
            Ok(m) => m,
            Err(e) => Some(e),
        },
        ..job
    }
}

pub open spec fn started(job: JobView, now: u64) -> JobView {
    JobView { state: JobState::Running, started_ms: Some(now), ..job }
}

fn started_job(job: Job, now: u64) -> (r: Job)
    ensures
        r@ == started(job@, now),
{
    Job {
        id: job.id,
        kind: job.kind,
        subject: job.subject,
        state: JobState::Running,
        created_ms: job.created_ms,
        started_ms: Some(now),
        finished_ms: job.finished_ms,
        message: job.message,
        request_id: job.request_id,
    }
}

fn finished_job(job: Job, outcome: &Outcome, now: u64) -> (r: Job)
    ensures
        r@ == finished(job@, outcome_view(*outcome), now),
{
    let (state, message) = match outcome {
        Ok(m) => (JobState::Succeeded, copy_opt(m)),
        Err(e) => (JobState::Failed, Some(e.clone())),
    };
    Job {
        id: job.id,
        kind: job.kind,
        subject: job.subject,
        state,
        created_ms: job.created_ms,
        started_ms: job.started_ms,
        finished_ms: Some(now),
        message,
        request_id: job.request_id,
    }
}

proof fn lemma_update_views(jobs: Seq<Job>, i: int, j: Job)
    requires
        0 <= i < jobs.len(),
    ensures
        job_views(jobs.update(i, j)) == job_views(jobs).update(i, j@),
{
    assert(job_views(jobs.update(i, j)) =~= job_views(jobs).update(i, j@));
}

impl Operations {
    pub fn new() -> (r: Operations)
        ensures
            r@.jobs.len() == 0,
            r@.sequence == 1,
    {
        let r = Operations { jobs: Vec::new(), sequence: 1 };
        assert(r@.jobs =~= Seq::<JobView>::empty());
        r
    }

    /// Records a new job at `now` and answers it at once, queued; the caller
    /// runs its work under the `spec.key` lock.
    pub fn submit(&mut self, spec: &OperationSpec, now: u64) -> (r: Job)
        requires
            old(self)@.sequence < u64::MAX,
        ensures
            r@ == queued(spec.kind@, spec.subject@, opt_view(spec.request_id), job_id(now, old(self)@.sequence), now),
            final(self)@.jobs == stored(old(self)@.jobs, r@),
            final(self)@.sequence == old(self)@.sequence + 1,
    {
        let mut id = owned("job-");
        push_decimal(&mut id, now);
        push_str(&mut id, "-");
        push_decimal(&mut id, self.sequence);
        self.sequence = self.sequence + 1;
        let job = Job {
            id,
            kind: owned(spec.kind),
            subject: spec.subject.clone(),
            state: JobState::Queued,
            created_ms: now,
            started_ms: None,
            finished_ms: None,
            message: None,
            request_id: copy_opt(&spec.request_id),
        };
        let answer = job.copy();
        self.store(job);
        answer
    }

    fn store(&mut self, job: Job)
        ensures
            final(self)@.jobs == stored(old(self)@.jobs, job@),
            final(self)@.sequence == old(self)@.sequence,
    {
        let ghost before = self.jobs@;
        let total = self.jobs.len();
        let mut dropped: usize = 0;
        while self.jobs.len() >= KEPT_JOBS
            invariant
                self.jobs@ == before.skip(dropped as int),
                dropped <= before.len(),
                dropped + self.jobs@.len() == before.len(),
                before.len() == total,
                dropped > 0 ==> before.len() - dropped >= KEPT_JOBS - 1,
                self.sequence == old(self).sequence,
            decreases self.jobs@.len(),
        {
            self.jobs.remove(0);
            assert(before.skip(dropped as int).remove(0) =~= before.skip(dropped + 1));
            dropped = dropped + 1;
        }
        let ghost kept = self.jobs@;
        self.jobs.push(job);
        proof {
            assert(job_views(self.jobs@) =~= job_views(kept).push(job@));
            if before.len() >= KEPT_JOBS {
                assert(dropped == before.len() - KEPT_JOBS + 1);
                assert(job_views(kept) =~= job_views(before).skip(before.len() - KEPT_JOBS + 1));
            } else {
                assert(dropped == 0);
                assert(kept =~= before);
            }
        }
    }

    fn find(&self, id: &str) -> (r: Option<usize>)
        ensures
            r matches Some(i) ==> i < self.jobs@.len() && job_index(self@.jobs, id@) == Some(i as int),
            r is None ==> job_index(self@.jobs, id@) is None,
    {
        let ghost jobs = self@.jobs;
        proof {
            reveal(job_index);
        }
        let mut i: usize = 0;
        while i < self.jobs.len()
            invariant
                i <= self.jobs@.len(),
                jobs == job_views(self.jobs@),
                forall|j: int| 0 <= j < i ==> jobs[j].id != id@,
            decreases self.jobs@.len() - i,
        {
            if crate::agent::events::text_eq(self.jobs[i].id.as_str(), id) {
                proof {
                    reveal(job_index);
                    let c = choose|k: int| 0 <= k < jobs.len() && jobs[k].id == id@ && forall|j: int|
                        0 <= j < k ==> jobs[j].id != id@;
                    assert(jobs[i as int].id == id@);
                    assert(c == i) by {
                        if c < i {
                            assert(jobs[c].id != id@);
                        } else if c > i {
                            assert(jobs[i as int].id != id@);
                        }
                    }
                }
                return Some(i);
            }
            i = i + 1;
        }
        proof {
            reveal(job_index);
        }
        None
    }

    /// Marks job `id` running from `now`, once its lock is held.
    pub fn start(&mut self, id: &str, now: u64)
        ensures
            final(self)@.sequence == old(self)@.sequence,
            match job_index(old(self)@.jobs, id@) {
                Some(i) => final(self)@.jobs == old(self)@.jobs.update(i, started(old(self)@.jobs[i], now)),
                None => final(self)@.jobs == old(self)@.jobs,
            },
    {
        if let Some(i) = self.find(id) {
            let job = started_job(self.jobs[i].copy(), now);
            proof {
                lemma_update_views(self.jobs@, i as int, job);
                assert(job_views(self.jobs@)[i as int] == self.jobs@[i as int]@);
            }
            self.jobs.set(i, job);
        }
    }

    /// Records how job `id` ended at `now`, and gives the event that
    /// announces it.
    pub fn finish(&mut self, id: &str, spec: &OperationSpec, outcome: Outcome, now: u64) -> (r: EventDraft)
        ensures
            final(self)@.sequence == old(self)@.sequence,
            match job_index(old(self)@.jobs, id@) {
                Some(i) => final(self)@.jobs == old(self)@.jobs.update(
                    i,
                    finished(old(self)@.jobs[i], outcome_view(outcome), now),
                ),
                None => final(self)@.jobs == old(self)@.jobs,
            },
            r.kind@ == spec.kind@,
            r.result == (if outcome is Ok {
                EventResult::Completed
            } else {
                EventResult::Failed
            }),
            r.subject@ == spec.subject@,
            opt_view(r.request_id) == opt_view(spec.request_id),
            opt_view(r.command_id) == Some(id@),
            opt_view(r.message) == match outcome_view(outcome) {
                Ok(m) => m,
                Err(e) => Some(e),
            },
    {
        if let Some(i) = self.find(id) {
            let job = finished_job(self.jobs[i].copy(), &outcome, now);
            proof {
                lemma_update_views(self.jobs@, i as int, job);
            }
            self.jobs.set(i, job);
        }
        let (result, message) = match outcome {
            Ok(m) => (EventResult::Completed, m),
            Err(e) => (EventResult::Failed, Some(e)),
        };
        EventDraft {
            kind: owned(spec.kind),
            result,
            subject: spec.subject.clone(),
            request_id: copy_opt(&spec.request_id),
            command_id: Some(owned(id)),
            message,
        }
    }

    /// The kept jobs, newest first.
    pub fn jobs(&self) -> (r: Vec<Job>)
        ensures
            job_views(r@) == self@.jobs.reverse(),
    {
        let mut out: Vec<Job> = Vec::new();
        let mut i = self.jobs.len();
        while i > 0
            invariant
                i <= self.jobs@.len(),
                job_views(out@) == job_views(self.jobs@).skip(i as int).reverse(),
            decreases i,
        {
            i = i - 1;
            let j = self.jobs[i].copy();
            let ghost before = out@;
            let ghost all = job_views(self.jobs@);
            out.push(j);
            assert(job_views(out@) =~= job_views(before).push(j@));
            assert(all.skip(i as int).reverse() =~= all.skip(i + 1).reverse().push(all[i as int]));
        }
        assert(job_views(self.jobs@).skip(0) =~= job_views(self.jobs@));
        out
    }

    /// The kept job with `id`.
    pub fn job(&self, id: &str) -> (r: Option<Job>)
        ensures
            match job_index(self@.jobs, id@) {
                Some(i) => r matches Some(j) && j@ == self@.jobs[i],
                None => r is None,
            },
    {
        match self.find(id) {
            Some(i) => {
                assert(job_views(self.jobs@)[i as int] == self.jobs@[i as int]@);
                Some(self.jobs[i].copy())
            },
            None => None,
        }
    }
}

/// At most the last hundred jobs are kept, and the job just submitted is
/// always kept, as the newest.
pub proof fn lemma_jobs_bounded(jobs: Seq<JobView>, job: JobView)
    requires
        jobs.len() <= KEPT_JOBS,
    ensures
        stored(jobs, job).len() <= KEPT_JOBS,
        stored(jobs, job).last() == job,
{
}

// ---------------------------------------------------------------------------
// Resource locks
// ---------------------------------------------------------------------------

/// The resources whose lock is held.
pub struct ResourceLocks {
    held: Vec<String>,
}

impl View for ResourceLocks {
    type V = Seq<Seq<char>>;

    closed spec fn view(&self) -> Seq<Seq<char>> {
        texts(self.held@)
    }
}

impl ResourceLocks {
    pub fn new() -> (r: ResourceLocks)
        ensures
            r@.len() == 0,
    {
        let r = ResourceLocks { held: Vec::new() };
        assert(r@ =~= Seq::<Seq<char>>::empty());
        r
    }

    /// Takes the lock of `key` when nobody holds it; `false` when the
    /// caller must wait.
    pub fn try_acquire(&mut self, key: &str) -> (r: bool)
        ensures
            (r, final(self)@) == lock_step(old(self)@, key@),
    {
        let k = owned(key);
        if crate::text::contains_text(&self.held, &k) {
            return false;
        }
        let ghost before = self.held@;
        self.held.push(k);
        assert(texts(self.held@) =~= texts(before).push(key@));
        true
    }

    /// Gives the lock of `key` back.
    pub fn release(&mut self, key: &str)
        ensures
            !final(self)@.contains(key@),
            forall|k: Seq<char>| k != key@ ==> (final(self)@.contains(k) <==> old(self)@.contains(k)),
    {
        let mut kept: Vec<String> = Vec::new();
        let mut i: usize = 0;
        while i < self.held.len()
            invariant
                i <= self.held@.len(),
                forall|k: Seq<char>|
                    texts(kept@).contains(k) <==> k != key@ && texts(self.held@).take(i as int).contains(k),
            decreases self.held@.len() - i,
        {
            let ghost pre = texts(self.held@).take(i as int);
            let ghost kb = texts(kept@);
            assert(texts(self.held@).take(i + 1) =~= pre.push(self.held@[i as int]@));
            proof {
                crate::server::notifier::lemma_push_contains(pre, self.held@[i as int]@);
            }
            let differs = !crate::agent::events::text_eq(self.held[i].as_str(), key);
            if differs {
                let x = self.held[i].clone();
                kept.push(x);
                assert(texts(kept@) =~= kb.push(self.held@[i as int]@));
                proof {
                    crate::server::notifier::lemma_push_contains(kb, self.held@[i as int]@);
                }
            }
            let ghost h = self.held@[i as int]@;
            assert forall|k: Seq<char>|
                texts(kept@).contains(k) <==> k != key@ && texts(self.held@).take(i + 1).contains(k) by {
                assert(texts(self.held@).take(i + 1) == pre.push(h));
                assert(pre.push(h).contains(k) <==> pre.contains(k) || k == h);
                assert(kb.contains(k) <==> k != key@ && pre.contains(k));
                if differs {
                    assert(texts(kept@) == kb.push(h));
                    assert(kb.push(h).contains(k) <==> kb.contains(k) || k == h);
                } else {
                    assert(h == key@);
                    assert(texts(kept@) == kb);
                }
            }
            i = i + 1;
        }
        assert(texts(self.held@).take(self.held@.len() as int) =~= texts(self.held@));
        self.held = kept;
    }
}

/// Taking the lock of `key` when `held` are held: whether it was taken,
/// and what is held after.
pub open spec fn lock_step(held: Seq<Seq<char>>, key: Seq<char>) -> (bool, Seq<Seq<char>>) {
    if held.contains(key) {
        (false, held)
    } else {
        (true, held.push(key))
    }
}

/// Two operations never hold one resource at once: once `key` is taken,
/// taking it again fails; taking another resource goes as it would have
/// without `key` held; and once `key` is given back (no longer held), it
/// can be taken again.
pub proof fn lemma_lock_excludes(held: Seq<Seq<char>>, key: Seq<char>, other: Seq<char>, after_release: Seq<Seq<char>>)
    requires
        other != key,
        !after_release.contains(key),
    ensures
        !lock_step(lock_step(held, key).1, key).0,
        lock_step(lock_step(held, key).1, other).0 == lock_step(held, other).0,
        lock_step(after_release, key).0,
{
    assert(held.push(key)[held.len() as int] == key);
    crate::server::notifier::lemma_push_contains(held, key);
}

} // verus!
