//! Recurring, unattended start/stop/restart of allow-listed services: the
//! schedule list, its edits, and which schedules a clock tick fires.

use vstd::prelude::*;

use crate::agent::error::{AgentError, ErrorKind};
use crate::agent::services::ServiceManager;
use crate::protocol::{
    CreateScheduleRequest, ScheduleAction, ScheduleView, ServiceAction, ServiceSchedule,
};
use crate::text::{filter_map, lemma_filter_map_complete, lemma_filter_map_source, lemma_filter_map_step, owned, push_str};

verus! {

/// At most this many schedules are kept.
pub const MAX_SCHEDULES: usize = 100;

/// How many minute buckets a fired schedule is remembered for.
pub const FIRED_MEMORY_MINUTES: i64 = 2;

/// `Ok` for a local time of day with hour 0..23 and minute 0..59.
pub fn validate_time(hour: u8, minute: u8) -> (r: Result<(), AgentError>)
    ensures
        r is Ok <==> hour <= 23 && minute <= 59,
        r matches Err(e) ==> e.kind == ErrorKind::BadRequest && e.message@ == if hour > 23 {
            "hour must be between 0 and 23"@
        } else {
            "minute must be between 0 and 59"@
        },
{
    if hour > 23 {
        return Err(AgentError::bad_request("hour must be between 0 and 23"));
    }
    if minute > 59 {
        return Err(AgentError::bad_request("minute must be between 0 and 59"));
    }
    Ok(())
}

/// Strictly increasing.
pub open spec fn strictly_increasing(s: Seq<u8>) -> bool {
    forall|i: int, j: int| 0 <= i < j < s.len() ==> s[i] < s[j]
}

/// Every day is an ISO weekday number, 1 (Monday) ..= 7 (Sunday).
pub open spec fn iso_weekdays(days: Seq<u8>) -> bool {
    forall|i: int| 0 <= i < days.len() ==> 1 <= #[trigger] days[i] <= 7
}

/// The weekdays sorted, each once; refused when empty or when a day is
/// outside 1 (Monday) ..= 7 (Sunday).
pub fn normalize_weekdays(weekdays: &Vec<u8>) -> (r: Result<Vec<u8>, AgentError>)
    ensures
        weekdays@.len() == 0 ==> (r matches Err(e) && e.kind == ErrorKind::BadRequest
            && e.message@ == "weekdays must not be empty"@),
        weekdays@.len() > 0 && !iso_weekdays(weekdays@) ==> (r matches Err(e) && e.kind
            == ErrorKind::BadRequest && e.message@
            == "weekdays must be between 1 (Monday) and 7 (Sunday)"@),
        weekdays@.len() > 0 && iso_weekdays(weekdays@) ==> (r matches Ok(v) && strictly_increasing(
            v@,
        ) && v@.to_set() == weekdays@.to_set()),
{
    if weekdays.len() == 0 {
        return Err(AgentError::bad_request("weekdays must not be empty"));
    }
    let mut i: usize = 0;
    while i < weekdays.len()
        invariant
            i <= weekdays@.len(),
            forall|j: int| 0 <= j < i ==> 1 <= #[trigger] weekdays@[j] <= 7,
        decreases weekdays@.len() - i,
    {
        if weekdays[i] < 1 || weekdays[i] > 7 {
            return Err(AgentError::bad_request("weekdays must be between 1 (Monday) and 7 (Sunday)"));
        }
        i = i + 1;
    }
    let mut out: Vec<u8> = Vec::new();
    let mut day: u8 = 1;
    while day <= 7
        invariant
            1 <= day <= 8,
            forall|j: int| 0 <= j < weekdays@.len() ==> 1 <= #[trigger] weekdays@[j] <= 7,
            strictly_increasing(out@),
            forall|j: int| 0 <= j < out@.len() ==> #[trigger] out@[j] < day,
            forall|d: u8| #![trigger out@.contains(d)]
                1 <= d < day ==> (out@.contains(d) <==> weekdays@.contains(d)),
            forall|d: u8| #![trigger out@.contains(d)] out@.contains(d) ==> 1 <= d < day,
        decreases 8 - day,
    {
        let mut present = false;
        let mut k: usize = 0;
        while k < weekdays.len()
            invariant
                k <= weekdays@.len(),
                present == exists|j: int| 0 <= j < k && weekdays@[j] == day,
            decreases weekdays@.len() - k,
        {
            if weekdays[k] == day {
                present = true;
            }
            k = k + 1;
        }
        let ghost before = out@;
        if present {
            out.push(day);
            assert forall|d: u8| #![trigger out@.contains(d)] out@.contains(d) implies 1 <= d < day
                + 1 by {
                if d != day {
                    let j = choose|j: int| 0 <= j < out@.len() && out@[j] == d;
                    assert(before.contains(d)) by {
                        assert(before[j] == d);
                    }
                }
            }
            assert forall|d: u8| #![trigger out@.contains(d)] 1 <= d < day + 1 implies (out@.contains(
                d,
            ) <==> weekdays@.contains(d)) by {
                if d == day {
                    assert(out@[out@.len() - 1] == d);
                } else {
                    if out@.contains(d) {
                        let j = choose|j: int| 0 <= j < out@.len() && out@[j] == d;
                        assert(before[j] == d);
                    }
                    if before.contains(d) {
                        let j = choose|j: int| 0 <= j < before.len() && before[j] == d;
                        assert(out@[j] == d);
                    }
                }
            }
        } else {
            assert(!weekdays@.contains(day));
            assert(!out@.contains(day));
        }
        day = day + 1;
    }
    assert(out@.to_set() =~= weekdays@.to_set()) by {
        assert forall|d: u8| out@.to_set().contains(d) <==> weekdays@.to_set().contains(d) by {
            if weekdays@.contains(d) {
                let j = choose|j: int| 0 <= j < weekdays@.len() && weekdays@[j] == d;
                assert(1 <= weekdays@[j] <= 7);
            }
            if out@.contains(d) {
                assert(1 <= d < 8);
            }
        }
    }
    Ok(out)
}

/// The service action a schedule runs.
pub fn service_action(action: ScheduleAction) -> (r: ServiceAction)
    ensures
        r == match action {
            ScheduleAction::Start => ServiceAction::Start,
            ScheduleAction::Stop => ServiceAction::Stop,
            ScheduleAction::Restart => ServiceAction::Restart,
        },
{
    match action {
        ScheduleAction::Start => ServiceAction::Start,
        ScheduleAction::Stop => ServiceAction::Stop,
        ScheduleAction::Restart => ServiceAction::Restart,
    }
}

/// What a run records: `success`, or `failed: <message>`.
pub fn run_result(outcome: &Result<(), AgentError>) -> (r: String)
    ensures
        r@ == match outcome {
            Ok(()) => "success"@,
            Err(e) => "failed: "@ + e.message@,
        },
{
    match outcome {
        Ok(()) => owned("success"),
        Err(e) => {
            let mut text = owned("failed: ");
            push_str(&mut text, e.message.as_str());
            text
        },
    }
}

// ---------------------------------------------------------------------------
// The schedule list
// ---------------------------------------------------------------------------

/// The schedules, in creation order.
pub struct ScheduleList {
    schedules: Vec<ServiceSchedule>,
}

/// The schedules as plain values.
pub open spec fn views(schedules: Seq<ServiceSchedule>) -> Seq<ScheduleView> {
    schedules.map_values(|s: ServiceSchedule| s@)
}

impl View for ScheduleList {
    type V = Seq<ScheduleView>;

    closed spec fn view(&self) -> Seq<ScheduleView> {
        views(self.schedules@)
    }
}

/// The ids of the schedules.
pub open spec fn ids(schedules: Seq<ScheduleView>) -> Seq<Seq<char>> {
    schedules.map_values(|s: ScheduleView| s.id)
}

/// The schedules without those with id `id`, in order.
pub open spec fn without_id(schedules: Seq<ScheduleView>, id: Seq<char>) -> Seq<ScheduleView>
    decreases schedules.len(),
{
    if schedules.len() == 0 {
        seq![]
    } else {
        let rest = without_id(schedules.drop_last(), id);
        if schedules.last().id == id {
            rest
        } else {
            rest.push(schedules.last())
        }
    }
}

/// The index of the first schedule with id `id`.
pub open spec fn index_of(schedules: Seq<ScheduleView>, id: Seq<char>) -> Option<int> {
    if exists|i: int| 0 <= i < schedules.len() && #[trigger] schedules[i].id == id {
        Some(
            choose|i: int|
                0 <= i < schedules.len() && #[trigger] schedules[i].id == id && forall|j: int|
                    0 <= j < i ==> #[trigger] schedules[j].id != id,
        )
    } else {
        None
    }
}

/// The first position of a schedule with id `id`.
fn find_schedule(schedules: &Vec<ServiceSchedule>, id: &str) -> (r: Option<usize>)
    ensures
        match index_of(views(schedules@), id@) {
            Some(i) => r matches Some(k) && k as int == i,
            None => r is None,
        },
        r matches Some(k) ==> k < schedules@.len() && schedules@[k as int].id@ == id@,
{
    let key = owned(id);
    let ghost vs = views(schedules@);
    let mut i: usize = 0;
    while i < schedules.len()
        invariant
            i <= schedules@.len(),
            key@ == id@,
            vs == views(schedules@),
            forall|j: int| 0 <= j < i ==> #[trigger] vs[j].id != id@,
        decreases schedules@.len() - i,
    {
        if schedules[i].id == key {
            proof {
                assert(vs[i as int].id == id@);
                let c = choose|c: int|
                    0 <= c < vs.len() && #[trigger] vs[c].id == id@ && forall|j: int|
                        0 <= j < c ==> #[trigger] vs[j].id != id@;
                if c < i {
                    assert(vs[c].id != id@);
                } else if c > i {
                    assert(vs[i as int].id != id@);
                }
            }
            return Some(i);
        }
        assert(vs[i as int].id != id@);
        i = i + 1;
    }
    None
}

impl ScheduleList {
    pub fn new(schedules: Vec<ServiceSchedule>) -> (r: ScheduleList)
        ensures
            r@ == views(schedules@),
    {
        ScheduleList { schedules }
    }

    /// Copies of the schedules, in order.
    pub fn list(&self) -> (r: Vec<ServiceSchedule>)
        ensures
            views(r@) == self@,
    {
        let mut out: Vec<ServiceSchedule> = Vec::new();
        let mut i: usize = 0;
        while i < self.schedules.len()
            invariant
                i <= self.schedules@.len(),
                views(out@) == views(self.schedules@).take(i as int),
            decreases self.schedules@.len() - i,
        {
            let ghost before = out@;
            out.push(self.schedules[i].copy());
            assert(views(out@) =~= views(before).push(self.schedules@[i as int]@));
            assert(views(self.schedules@).take(i + 1) =~= views(self.schedules@).take(i as int).push(
                self.schedules@[i as int]@,
            ));
            i = i + 1;
        }
        assert(views(self.schedules@).take(i as int) =~= views(self.schedules@));
        out
    }

    /// Adds a schedule for an allow-listed service, enabled and never run,
    /// with the given id and creation time. The time is checked first, then
    /// the weekdays, then the allowlist, then the limit of 100.
    pub fn create(
        &mut self,
        request: CreateScheduleRequest,
        services: &ServiceManager,
        id: String,
        created_at_ms: u64,
    ) -> (r: Result<ServiceSchedule, AgentError>)
        ensures
            r is Ok <==> request.hour <= 23 && request.minute <= 59 && request.weekdays@.len() > 0
                && iso_weekdays(request.weekdays@) && services@.contains(request.service_id@) && old(self)@.len() < MAX_SCHEDULES,
            r matches Ok(s) ==> {
                &&& s.id@ == id@
                &&& s.service_id@ == request.service_id@
                &&& s.action == request.action
                &&& s.hour == request.hour
                &&& s.minute == request.minute
                &&& strictly_increasing(s.weekdays@)
                &&& s.weekdays@.to_set() == request.weekdays@.to_set()
                &&& s.enabled
                &&& s.created_at_ms == created_at_ms
                &&& s.last_run_at_ms is None
                &&& s.last_result is None
                &&& final(self)@ == old(self)@.push(s@)
            },
            r matches Err(e) ==> final(self)@ == old(self)@ && (e.kind == ErrorKind::BadRequest
                || e.kind == ErrorKind::Forbidden),
    {
        validate_time(request.hour, request.minute)?;
        let weekdays = normalize_weekdays(&request.weekdays)?;
        if !services.is_allowed(request.service_id.as_str()) {
            return Err(AgentError::forbidden("service is not in the control allowlist"));
        }
        if self.schedules.len() >= MAX_SCHEDULES {
            return Err(AgentError::bad_request("at most 100 schedules are supported"));
        }
        let schedule = ServiceSchedule {
            id,
            service_id: request.service_id,
            action: request.action,
            hour: request.hour,
            minute: request.minute,
            weekdays,
            enabled: true,
            created_at_ms,
            last_run_at_ms: None,
            last_result: None,
        };
        let ghost before = self.schedules@;
        self.schedules.push(schedule.copy());
        assert(views(self.schedules@) =~= views(before).push(schedule@));
        Ok(schedule)
    }

    /// Removes every schedule with id `id`; `NotFound` when there is none.
    pub fn delete(&mut self, id: &str) -> (r: Result<(), AgentError>)
        ensures
            r is Ok <==> ids(old(self)@).contains(id@),
            final(self)@ == without_id(old(self)@, id@),
            !ids(final(self)@).contains(id@),
            r matches Err(e) ==> e.kind == ErrorKind::NotFound && e.message@
                == "schedule not found"@,
    {
        let key = owned(id);
        let mut old_list: Vec<ServiceSchedule> = Vec::new();
        std::mem::swap(&mut old_list, &mut self.schedules);
        let ghost vs = views(old_list@);
        let mut kept: Vec<ServiceSchedule> = Vec::new();
        let mut removed = false;
        let mut i: usize = 0;
        while i < old_list.len()
            invariant
                i <= old_list@.len(),
                key@ == id@,
                vs == views(old_list@),
                views(kept@) == without_id(vs.take(i as int), id@),
                removed == ids(vs.take(i as int)).contains(id@),
            decreases old_list@.len() - i,
        {
            assert(vs.take(i + 1).drop_last() =~= vs.take(i as int));
            let ghost prev = ids(vs.take(i as int));
            assert(ids(vs.take(i + 1)) =~= prev.push(vs[i as int].id));
            assert(ids(vs.take(i + 1)).contains(id@) == (prev.contains(id@) || vs[i as int].id
                == id@)) by {
                let next = prev.push(vs[i as int].id);
                if vs[i as int].id == id@ {
                    assert(next[i as int] == id@);
                }
                if prev.contains(id@) {
                    let j = choose|j: int| 0 <= j < prev.len() && prev[j] == id@;
                    assert(next[j] == id@);
                }
                if next.contains(id@) {
                    let j = choose|j: int| 0 <= j < next.len() && next[j] == id@;
                    if j < prev.len() {
                        assert(prev[j] == id@);
                    }
                }
            }
            if old_list[i].id == key {
                removed = true;
            } else {
                let ghost before = kept@;
                kept.push(old_list[i].copy());
                assert(views(kept@) =~= views(before).push(vs[i as int]));
            }
            i = i + 1;
        }
        assert(vs.take(old_list@.len() as int) =~= vs);
        proof {
            lemma_without_id(vs, id@);
        }
        self.schedules = kept;
        if removed {
            Ok(())
        } else {
            Err(AgentError::not_found("schedule not found"))
        }
    }

    /// Enables or disables the first schedule with id `id` and returns it.
    pub fn set_enabled(&mut self, id: &str, enabled: bool) -> (r: Result<ServiceSchedule, AgentError>)
        ensures
            match index_of(old(self)@, id@) {
                Some(i) => {
                    let t = ScheduleView { enabled, ..old(self)@[i] };
                    &&& r matches Ok(s) && s@ == t
                    &&& final(self)@ == old(self)@.update(i, t)
                },
                None => final(self)@ == old(self)@ && (r matches Err(e) && e.kind
                    == ErrorKind::NotFound && e.message@ == "schedule not found"@),
            },
    {
        match find_schedule(&self.schedules, id) {
            Some(k) => {
                let mut updated = self.schedules[k].copy();
                updated.enabled = enabled;
                let ghost before = self.schedules@;
                self.schedules.set(k, updated.copy());
                assert(views(self.schedules@) =~= views(before).update(k as int, updated@));
                Ok(updated)
            },
            None => Err(AgentError::not_found("schedule not found")),
        }
    }

    /// Records the time and outcome of a run of the first schedule with id
    /// `id`; `false` (and no change) when it no longer exists.
    pub fn record_run(&mut self, id: &str, result: String, now_ms: u64) -> (r: bool)
        ensures
            match index_of(old(self)@, id@) {
                Some(i) => r && final(self)@ == old(self)@.update(
                    i,
                    ScheduleView {
                        last_run_at_ms: Some(now_ms),
                        last_result: Some(result@),
                        ..old(self)@[i]
                    },
                ),
                None => !r && final(self)@ == old(self)@,
            },
    {
        match find_schedule(&self.schedules, id) {
            Some(k) => {
                let mut updated = self.schedules[k].copy();
                updated.last_run_at_ms = Some(now_ms);
                updated.last_result = Some(result);
                let ghost before = self.schedules@;
                let ghost u = updated@;
                self.schedules.set(k, updated);
                assert(views(self.schedules@) =~= views(before).update(k as int, u));
                true
            },
            None => false,
        }
    }
}

proof fn lemma_without_id(s: Seq<ScheduleView>, id: Seq<char>)
    ensures
        !ids(without_id(s, id)).contains(id),
    decreases s.len(),
{
    if s.len() > 0 {
        lemma_without_id(s.drop_last(), id);
        let rest = without_id(s.drop_last(), id);
        if s.last().id != id {
            assert(ids(rest.push(s.last())) =~= ids(rest).push(s.last().id));
        }
    }
}

// ---------------------------------------------------------------------------
// Clock ticks
// ---------------------------------------------------------------------------

/// The local time of a tick: its minute bucket (Unix seconds / 60), ISO
/// weekday, hour and minute.
#[derive(Debug, Clone, Copy, PartialEq, Eq, Structural)]
pub struct TickTime {
    pub bucket: i64,
    pub weekday: u8,
    pub hour: u8,
    pub minute: u8,
}

/// For each schedule that fired recently, the minute bucket it fired in.
pub struct FiredMemory {
    entries: Vec<(String, i64)>,
}

/// The bucket recorded for `id`: the first entry naming it.
pub open spec fn fired_get(entries: Seq<(String, i64)>, id: Seq<char>) -> Option<i64>
    decreases entries.len(),
{
    if entries.len() == 0 {
        None
    } else if entries[0].0@ == id {
        Some(entries[0].1)
    } else {
        fired_get(entries.drop_first(), id)
    }
}

impl View for FiredMemory {
    type V = Map<Seq<char>, i64>;

    closed spec fn view(&self) -> Map<Seq<char>, i64> {
        Map::new(
            |k: Seq<char>| fired_get(self.entries@, k) is Some,
            |k: Seq<char>| fired_get(self.entries@, k)->0,
        )
    }
}

/// No id is recorded twice.
pub open spec fn unique_ids(entries: Seq<(String, i64)>) -> bool {
    forall|i: int, j: int|
        0 <= i < j < entries.len() ==> #[trigger] entries[i].0@ != #[trigger] entries[j].0@
}

proof fn lemma_fired_get_none(entries: Seq<(String, i64)>, id: Seq<char>)
    requires
        forall|j: int| 0 <= j < entries.len() ==> #[trigger] entries[j].0@ != id,
    ensures
        fired_get(entries, id) is None,
    decreases entries.len(),
{
    if entries.len() > 0 {
        assert(entries[0].0@ != id);
        assert forall|j: int| 0 <= j < entries.drop_first().len() implies #[trigger] entries.drop_first()[j].0@ != id by {
            assert(entries.drop_first()[j] == entries[j + 1]);
        }
        lemma_fired_get_none(entries.drop_first(), id);
    }
}

proof fn lemma_fired_get_push(entries: Seq<(String, i64)>, e: (String, i64), id: Seq<char>)
    requires
        fired_get(entries, e.0@) is None,
    ensures
        fired_get(entries.push(e), id) == if fired_get(entries, id) is Some {
            fired_get(entries, id)
        } else if id == e.0@ {
            Some(e.1)
        } else {
            None::<i64>
        },
    decreases entries.len(),
{
    if entries.len() > 0 {
        assert(entries.push(e).drop_first() =~= entries.drop_first().push(e));
        assert(entries.push(e)[0] == entries[0]);
        if entries[0].0@ != id {
            lemma_fired_get_push(entries.drop_first(), e, id);
        }
    } else {
        assert(entries.push(e).drop_first() =~= entries);
        assert(entries.push(e)[0] == e);
    }
}

proof fn lemma_fired_get_update(entries: Seq<(String, i64)>, k: int, e: (String, i64), id: Seq<char>)
    requires
        0 <= k < entries.len(),
        entries[k].0@ == e.0@,
        forall|j: int| 0 <= j < k ==> #[trigger] entries[j].0@ != e.0@,
    ensures
        fired_get(entries.update(k, e), id) == if id == e.0@ {
            Some(e.1)
        } else {
            fired_get(entries, id)
        },
    decreases k,
{
    if k == 0 {
        assert(entries.update(k, e).drop_first() =~= entries.drop_first());
        assert(entries.update(k, e)[0] == e);
    } else {
        assert(entries.update(k, e)[0] == entries[0]);
        assert(entries.update(k, e).drop_first() =~= entries.drop_first().update(k - 1, e));
        assert forall|j: int| 0 <= j < k - 1 implies #[trigger] entries.drop_first()[j].0@ != e.0@ by {
            assert(entries.drop_first()[j] == entries[j + 1]);
        }
        assert(entries[0].0@ != e.0@);
        lemma_fired_get_update(entries.drop_first(), k - 1, e, id);
    }
}

/// Kept when the schedule fired no more than two buckets before `bucket`.
pub open spec fn recent(fired_at: i64, bucket: i64) -> bool {
    bucket - fired_at <= FIRED_MEMORY_MINUTES
}

/// What a tick does to the memory: each due schedule is recorded as fired
/// in this bucket, then entries older than two buckets are forgotten.
pub open spec fn after_tick(fired: Map<Seq<char>, i64>, due: Seq<ScheduleView>, bucket: i64) -> Map<
    Seq<char>,
    i64,
> {
    let marked = Map::new(
        |k: Seq<char>| fired.contains_key(k) || ids(due).contains(k),
        |k: Seq<char>| if ids(due).contains(k) {
            bucket
        } else {
            fired[k]
        },
    );
    Map::new(|k: Seq<char>| marked.contains_key(k) && recent(marked[k], bucket), |k: Seq<char>| marked[k])
}

/// Whether a schedule is due at `now`: enabled, at this hour and minute, on
/// this weekday, and not already fired in this minute bucket.
pub open spec fn is_due(s: ScheduleView, now: TickTime, fired: Map<Seq<char>, i64>) -> bool {
    &&& s.enabled
    &&& s.hour == now.hour
    &&& s.minute == now.minute
    &&& s.weekdays.contains(now.weekday)
    &&& !(fired.contains_key(s.id) && fired[s.id] == now.bucket)
}

impl FiredMemory {
    #[verifier::type_invariant]
    closed spec fn inv(self) -> bool {
        unique_ids(self.entries@)
    }

    pub fn new() -> (r: FiredMemory)
        ensures
            r@ == Map::<Seq<char>, i64>::empty(),
    {
        let r = FiredMemory { entries: Vec::new() };
        assert(r@ =~= Map::<Seq<char>, i64>::empty());
        r
    }

    /// The bucket `id` last fired in, if it is remembered.
    pub fn get(&self, id: &str) -> (r: Option<i64>)
        ensures
            r == if self@.contains_key(id@) {
                Some(self@[id@])
            } else {
                None::<i64>
            },
    {
        let key = owned(id);
        let mut i: usize = 0;
        assert(self.entries@.skip(0) =~= self.entries@);
        while i < self.entries.len()
            invariant
                i <= self.entries@.len(),
                key@ == id@,
                fired_get(self.entries@, id@) == fired_get(self.entries@.skip(i as int), id@),
            decreases self.entries@.len() - i,
        {
            assert(self.entries@.skip(i as int).drop_first() =~= self.entries@.skip(i + 1));
            if self.entries[i].0 == key {
                return Some(self.entries[i].1);
            }
            i = i + 1;
        }
        None
    }

    /// Records that `id` fired in `bucket`.
    pub fn mark(&mut self, id: &str, bucket: i64)
        ensures
            final(self)@ == old(self)@.insert(id@, bucket),
    {
        proof {
            use_type_invariant(&*self);
        }
        let mut entries: Vec<(String, i64)> = Vec::new();
        std::mem::swap(&mut entries, &mut self.entries);
        let ghost before = entries@;
        let key = owned(id);
        let mut i: usize = 0;
        let mut found = false;
        while i < entries.len() && !found
            invariant
                i <= entries@.len(),
                key@ == id@,
                unique_ids(before),
                found ==> i < entries@.len() && entries@[i as int].0@ == id@,
                entries@ == before,
                forall|j: int| 0 <= j < i ==> #[trigger] before[j].0@ != id@,
            decreases entries@.len() - i + if found {
                0int
            } else {
                1int
            },
        {
            if entries[i].0 == key {
                found = true;
            } else {
                i = i + 1;
            }
        }
        if found {
            proof {
                assert forall|k: Seq<char>| #![auto] fired_get(before.update(i as int, (key, bucket)), k)
                    == if k == id@ {
                    Some(bucket)
                } else {
                    fired_get(before, k)
                } by {
                    lemma_fired_get_update(before, i as int, (key, bucket), k);
                }
            }
            entries.set(i, (key, bucket));
            assert(unique_ids(entries@)) by {
                assert forall|p: int, q: int| 0 <= p < q < entries@.len() implies #[trigger] entries@[p].0@
                    != #[trigger] entries@[q].0@ by {
                    assert(before[p].0@ != before[q].0@);
                }
            }
        } else {
            proof {
                lemma_fired_get_none(before, id@);
                assert forall|k: Seq<char>| #![auto] fired_get(before.push((key, bucket)), k) == if fired_get(before, k) is Some {
                    fired_get(before, k)
                } else if k == id@ {
                    Some(bucket)
                } else {
                    None::<i64>
                } by {
                    lemma_fired_get_push(before, (key, bucket), k);
                }
            }
            entries.push((key, bucket));
            assert(unique_ids(entries@)) by {
                assert forall|p: int, q: int| 0 <= p < q < entries@.len() implies #[trigger] entries@[p].0@
                    != #[trigger] entries@[q].0@ by {
                    if q < before.len() {
                        assert(before[p].0@ != before[q].0@);
                    } else {
                        assert(before[p].0@ != id@);
                    }
                }
            }
        }
        self.entries = entries;
        assert(self@ =~= old(self)@.insert(id@, bucket));
    }
}


proof fn lemma_fired_get_none_inv(entries: Seq<(String, i64)>, id: Seq<char>)
    requires
        fired_get(entries, id) is None,
    ensures
        forall|j: int| 0 <= j < entries.len() ==> #[trigger] entries[j].0@ != id,
    decreases entries.len(),
{
    if entries.len() > 0 {
        lemma_fired_get_none_inv(entries.drop_first(), id);
        assert forall|j: int| 0 <= j < entries.len() implies #[trigger] entries[j].0@ != id by {
            if j > 0 {
                assert(entries[j] == entries.drop_first()[j - 1]);
            }
        }
    }
}

proof fn lemma_contains_push(s: Seq<Seq<char>>, x: Seq<char>, y: Seq<char>)
    ensures
        s.push(x).contains(y) == (s.contains(y) || x == y),
{
    let t = s.push(x);
    if x == y {
        assert(t[s.len() as int] == y);
    }
    if s.contains(y) {
        let j = choose|j: int| 0 <= j < s.len() && s[j] == y;
        assert(t[j] == y);
    }
    if t.contains(y) {
        let j = choose|j: int| 0 <= j < t.len() && t[j] == y;
        if j < s.len() {
            assert(s[j] == y);
        }
    }
}

/// The schedules due at `now`, in order.
pub open spec fn due_at(schedules: Seq<ScheduleView>, now: TickTime, fired: Map<Seq<char>, i64>) -> Seq<
    ScheduleView,
> {
    filter_map(schedules, |s: ScheduleView| if is_due(s, now, fired) {
        Some(s)
    } else {
        None
    })
}

/// What a tick runs is taken from the schedules, and each one is enabled,
/// set for the tick's hour and minute, lists the tick's weekday, and has
/// not fired in the tick's minute bucket yet.
pub proof fn lemma_due_schedules(schedules: Seq<ScheduleView>, now: TickTime, fired: Map<Seq<char>, i64>)
    ensures
        forall|k: int|
            0 <= k < due_at(schedules, now, fired).len() ==> {
                let s = #[trigger] due_at(schedules, now, fired)[k];
                &&& schedules.contains(s)
                &&& s.enabled
                &&& s.hour == now.hour
                &&& s.minute == now.minute
                &&& exists|d: int| 0 <= d < s.weekdays.len() && s.weekdays[d] == now.weekday
                &&& !(fired.contains_key(s.id) && fired[s.id] == now.bucket)
            },
        forall|j: int|
            0 <= j < schedules.len() && (#[trigger] schedules[j]).enabled && schedules[j].hour == now.hour
                && schedules[j].minute == now.minute && schedules[j].weekdays.contains(now.weekday) && !(
            fired.contains_key(schedules[j].id) && fired[schedules[j].id] == now.bucket) ==> due_at(
                schedules,
                now,
                fired,
            ).contains(schedules[j]),
{
    let f = |s: ScheduleView| if is_due(s, now, fired) {
        Some(s)
    } else {
        None
    };
    lemma_filter_map_source(schedules, f);
    assert forall|k: int| 0 <= k < due_at(schedules, now, fired).len() implies {
        let s = #[trigger] due_at(schedules, now, fired)[k];
        &&& schedules.contains(s)
        &&& s.enabled
        &&& s.hour == now.hour
        &&& s.minute == now.minute
        &&& exists|d: int| 0 <= d < s.weekdays.len() && s.weekdays[d] == now.weekday
        &&& !(fired.contains_key(s.id) && fired[s.id] == now.bucket)
    } by {
        assert(due_at(schedules, now, fired) == filter_map(schedules, f));
        let j = choose|j: int|
            0 <= j < schedules.len() && f(#[trigger] schedules[j]) == Some(#[trigger] filter_map(schedules, f)[k]);
        assert(is_due(schedules[j], now, fired));
        assert(schedules.contains(schedules[j]));
    }
    lemma_filter_map_complete(schedules, f);
    assert forall|j: int|
        0 <= j < schedules.len() && (#[trigger] schedules[j]).enabled && schedules[j].hour == now.hour
            && schedules[j].minute == now.minute && schedules[j].weekdays.contains(now.weekday) && !(
        fired.contains_key(schedules[j].id) && fired[schedules[j].id] == now.bucket) implies due_at(
            schedules,
            now,
            fired,
        ).contains(schedules[j]) by {
        assert(f(schedules[j]) == Some(schedules[j]));
        assert(due_at(schedules, now, fired) == filter_map(schedules, f));
    }
}

impl FiredMemory {
    /// Forgets the schedules that fired more than two buckets before
    /// `bucket`.
    pub fn forget_older(&mut self, bucket: i64)
        ensures
            final(self)@ == Map::new(
                |k: Seq<char>| old(self)@.contains_key(k) && recent(old(self)@[k], bucket),
                |k: Seq<char>| old(self)@[k],
            ),
    {
        proof {
            use_type_invariant(&*self);
        }
        let mut entries: Vec<(String, i64)> = Vec::new();
        std::mem::swap(&mut entries, &mut self.entries);
        let ghost before = entries@;
        let mut kept: Vec<(String, i64)> = Vec::new();
        let mut i: usize = 0;
        while i < entries.len()
            invariant
                i <= entries@.len(),
                entries@ == before,
                unique_ids(before),
                unique_ids(kept@),
                forall|k: Seq<char>| #![auto]
                    fired_get(kept@, k) == match fired_get(before.take(i as int), k) {
                        Some(b) => if recent(b, bucket) {
                            Some(b)
                        } else {
                            None::<i64>
                        },
                        None => None::<i64>,
                    },
            decreases entries@.len() - i,
        {
            let ghost e = before[i as int];
            proof {
                assert forall|j: int| 0 <= j < before.take(i as int).len() implies #[trigger] before.take(
                    i as int,
                )[j].0@ != e.0@ by {
                    assert(before[j].0@ != before[i as int].0@);
                }
                lemma_fired_get_none(before.take(i as int), e.0@);
                assert(before.take(i + 1) =~= before.take(i as int).push(e));
                assert forall|k: Seq<char>| #![auto] fired_get(before.take(i + 1), k) == if fired_get(
                    before.take(i as int),
                    k,
                ) is Some {
                    fired_get(before.take(i as int), k)
                } else if k == e.0@ {
                    Some(e.1)
                } else {
                    None::<i64>
                } by {
                    lemma_fired_get_push(before.take(i as int), e, k);
                }
            }
            let (name, at) = (&entries[i].0, entries[i].1);
            if (bucket as i128) - (at as i128) <= FIRED_MEMORY_MINUTES as i128 {
                let ghost prev = kept@;
                let item = (name.clone(), at);
                proof {
                    assert(fired_get(prev, e.0@) is None);
                    lemma_fired_get_none_inv(prev, e.0@);
                    assert forall|k: Seq<char>| #![auto] fired_get(prev.push(item), k) == if fired_get(
                        prev,
                        k,
                    ) is Some {
                        fired_get(prev, k)
                    } else if k == e.0@ {
                        Some(e.1)
                    } else {
                        None::<i64>
                    } by {
                        lemma_fired_get_push(prev, item, k);
                    }
                }
                kept.push(item);
                assert(unique_ids(kept@)) by {
                    assert forall|p: int, q: int| 0 <= p < q < kept@.len() implies #[trigger] kept@[p].0@
                        != #[trigger] kept@[q].0@ by {
                        if q < prev.len() {
                            assert(prev[p].0@ != prev[q].0@);
                        } else {
                            assert(prev[p].0@ != e.0@);
                        }
                    }
                }
            }
            i = i + 1;
        }
        assert(before.take(i as int) =~= before);
        self.entries = kept;
        assert(self@ =~= Map::new(
            |k: Seq<char>| old(self)@.contains_key(k) && recent(old(self)@[k], bucket),
            |k: Seq<char>| old(self)@[k],
        ));
    }

    /// One tick of the schedule clock: returns the schedules due at `now`
    /// (in list order), records them as fired in this minute bucket, and
    /// forgets what fired more than two buckets ago.
    pub fn plan_tick(&mut self, schedules: &Vec<ServiceSchedule>, now: TickTime) -> (r: Vec<
        ServiceSchedule,
    >)
        ensures
            views(r@) == due_at(views(schedules@), now, old(self)@),
            final(self)@ == after_tick(old(self)@, views(r@), now.bucket),
            forall|k: int|
                0 <= k < r@.len() ==> {
                    &&& views(schedules@).contains(#[trigger] r@[k]@)
                    &&& r@[k].enabled
                    &&& r@[k].hour == now.hour
                    &&& r@[k].minute == now.minute
                    &&& r@[k]@.weekdays.contains(now.weekday)
                    &&& !(old(self)@.contains_key(r@[k].id@) && old(self)@[r@[k].id@] == now.bucket)
                },
            forall|j: int|
                0 <= j < schedules@.len() && (#[trigger] schedules@[j]).enabled && schedules@[j].hour == now.hour
                    && schedules@[j].minute == now.minute && schedules@[j]@.weekdays.contains(now.weekday) && !(
                old(self)@.contains_key(schedules@[j].id@) && old(self)@[schedules@[j].id@] == now.bucket)
                    ==> views(r@).contains(schedules@[j]@),
    {
        proof {
            lemma_due_schedules(views(schedules@), now, old(self)@);
        }
        let ghost f = |s: ScheduleView| if is_due(s, now, old(self)@) {
            Some(s)
        } else {
            None
        };
        let ghost vs = views(schedules@);
        let mut due: Vec<ServiceSchedule> = Vec::new();
        let mut i: usize = 0;
        while i < schedules.len()
            invariant
                i <= schedules@.len(),
                vs == views(schedules@),
                self@ == old(self)@,
                f == (|s: ScheduleView| if is_due(s, now, old(self)@) {
                    Some(s)
                } else {
                    None
                }),
                views(due@) == filter_map(vs.take(i as int), f),
            decreases schedules@.len() - i,
        {
            proof {
                lemma_filter_map_step(vs, i as int, f);
            }
            let s = &schedules[i];
            let mut on_day = false;
            let mut k: usize = 0;
            while k < s.weekdays.len()
                invariant
                    k <= s.weekdays@.len(),
                    on_day == exists|j: int| 0 <= j < k && s.weekdays@[j] == now.weekday,
                decreases s.weekdays@.len() - k,
            {
                if s.weekdays[k] == now.weekday {
                    on_day = true;
                }
                k = k + 1;
            }
            let fired_at = self.get(s.id.as_str());
            let already = match fired_at {
                Some(b) => b == now.bucket,
                None => false,
            };
            if s.enabled && s.hour == now.hour && s.minute == now.minute && on_day && !already {
                let ghost prev = due@;
                due.push(s.copy());
                assert(views(due@) =~= views(prev).push(vs[i as int]));
            }
            i = i + 1;
        }
        assert(vs.take(i as int) =~= vs);
        let ghost due_ids = ids(views(due@));
        let mut j: usize = 0;
        while j < due.len()
            invariant
                j <= due@.len(),
                due_ids == ids(views(due@)),
                self@ == Map::new(
                    |k: Seq<char>| old(self)@.contains_key(k) || due_ids.take(j as int).contains(k),
                    |k: Seq<char>| if due_ids.take(j as int).contains(k) {
                        now.bucket
                    } else {
                        old(self)@[k]
                    },
                ),
            decreases due@.len() - j,
        {
            let ghost prev = self@;
            self.mark(due[j].id.as_str(), now.bucket);
            proof {
                assert(due_ids[j as int] == views(due@)[j as int].id);
                assert(views(due@)[j as int] == due@[j as int]@);
                assert(due_ids.take(j + 1) =~= due_ids.take(j as int).push(due_ids[j as int]));
                assert forall|k: Seq<char>| #![auto] due_ids.take(j + 1).contains(k) == (due_ids.take(
                    j as int,
                ).contains(k) || due_ids[j as int] == k) by {
                    lemma_contains_push(due_ids.take(j as int), due_ids[j as int], k);
                }
            }
            let ghost target = Map::new(
                |k: Seq<char>| old(self)@.contains_key(k) || due_ids.take(j + 1).contains(k),
                |k: Seq<char>| if due_ids.take(j + 1).contains(k) {
                    now.bucket
                } else {
                    old(self)@[k]
                },
            );
            assert forall|k: Seq<char>| #[trigger] self@.contains_key(k) == target.contains_key(k) && (
            self@.contains_key(k) ==> self@[k] == target[k]) by {
                lemma_contains_push(due_ids.take(j as int), due_ids[j as int], k);
            }
            assert(self@ =~= Map::new(
                |k: Seq<char>| old(self)@.contains_key(k) || due_ids.take(j + 1).contains(k),
                |k: Seq<char>| if due_ids.take(j + 1).contains(k) {
                    now.bucket
                } else {
                    old(self)@[k]
                },
            ));
            j = j + 1;
        }
        assert(due_ids.take(j as int) =~= due_ids);
        self.forget_older(now.bucket);
        assert(self@ =~= after_tick(old(self)@, views(due@), now.bucket));
        proof {
            assert forall|k: int| 0 <= k < due@.len() implies views(due@)[k] == #[trigger] due@[k]@ by {}
            assert forall|j: int| 0 <= j < schedules@.len() implies views(schedules@)[j] == #[trigger] schedules@[j]@ by {}
        }
        due
    }
}

/// A schedule fires at most once per minute bucket: whatever a tick at
/// `now` returned is not due again at the same bucket, however the list
/// changed in between.
pub proof fn lemma_fires_once_per_minute(
    schedules: Seq<ScheduleView>,
    later: Seq<ScheduleView>,
    now: TickTime,
    fired: Map<Seq<char>, i64>,
)
    ensures
        ({
            let first = due_at(schedules, now, fired);
            let second = due_at(later, now, after_tick(fired, first, now.bucket));
            forall|i: int, j: int|
                0 <= i < first.len() && 0 <= j < second.len() ==> #[trigger] first[i].id
                    != #[trigger] second[j].id
        }),
{
    let first = due_at(schedules, now, fired);
    let after = after_tick(fired, first, now.bucket);
    let g = |s: ScheduleView| if is_due(s, now, after) {
        Some(s)
    } else {
        None
    };
    lemma_filter_map_all(later, g);
    assert forall|i: int, j: int|
        0 <= i < first.len() && 0 <= j < due_at(later, now, after).len() implies #[trigger] first[i].id
        != #[trigger] due_at(later, now, after)[j].id by {
        let second = due_at(later, now, after);
        assert(ids(first)[i] == first[i].id);
        assert(ids(first).contains(first[i].id));
        assert(is_due(second[j], now, after));
    }
}

/// Every element `filter_map` keeps is some `f`'s value.
pub proof fn lemma_filter_map_all<A>(s: Seq<A>, f: spec_fn(A) -> Option<A>)
    ensures
        forall|j: int|
            0 <= j < filter_map(s, f).len() ==> exists|i: int|
                0 <= i < s.len() && f(s[i]) == Some(#[trigger] filter_map(s, f)[j]),
    decreases s.len(),
{
    if s.len() > 0 {
        lemma_filter_map_all(s.drop_last(), f);
        let r = filter_map(s.drop_last(), f);
        assert forall|j: int| 0 <= j < filter_map(s, f).len() implies exists|i: int|
            0 <= i < s.len() && f(s[i]) == Some(#[trigger] filter_map(s, f)[j]) by {
            if j < r.len() {
                let i = choose|i: int| 0 <= i < s.drop_last().len() && f(s.drop_last()[i]) == Some(r[j]);
                assert(s[i] == s.drop_last()[i]);
            } else {
                assert(f(s[s.len() - 1]) == Some(filter_map(s, f)[j]));
            }
        }
    }
}

} // verus!
