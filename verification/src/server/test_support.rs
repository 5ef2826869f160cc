//! A stand-in for the Agent, for Server tests that need something on the
//! other end of the socket: canned answers per method and path, and a
//! record of every request received.

use vstd::prelude::*;

verus! {

/// A request the stand-in received.
#[derive(Debug, Clone)]
pub struct Recorded {
    pub method: String,
    pub path: String,
    pub body: String,
}

pub type RecordedView = (Seq<char>, Seq<char>, Seq<char>);

impl View for Recorded {
    type V = RecordedView;

    open spec fn view(&self) -> RecordedView {
        (self.method@, self.path@, self.body@)
    }
}

pub open spec fn recorded_views(s: Seq<Recorded>) -> Seq<RecordedView> {
    s.map_values(|r: Recorded| r@)
}

impl Recorded {
    pub fn copy(&self) -> (r: Recorded)
        ensures
            r@ == self@,
    {
        Recorded { method: self.method.clone(), path: self.path.clone(), body: self.body.clone() }
    }
}

/// A canned answer: the method and path it answers, and the status.
#[derive(Debug, Clone)]
pub struct Canned {
    pub method: String,
    pub path: String,
    pub status: u16,
}

pub struct FakeAgent {
    pub socket: String,
    routes: Vec<Canned>,
    recorded: Vec<Recorded>,
}

pub struct FakeView {
    pub socket: Seq<char>,
    pub routes: Seq<(Seq<char>, Seq<char>, u16)>,
    pub recorded: Seq<RecordedView>,
}

impl View for FakeAgent {
    type V = FakeView;

    closed spec fn view(&self) -> FakeView {
        FakeView {
            socket: self.socket@,
            routes: self.routes@.map_values(|c: Canned| (c.method@, c.path@, c.status)),
            recorded: recorded_views(self.recorded@),
        }
    }
}

/// The first canned route for `method` and `path`.
pub open spec fn route_for(routes: Seq<(Seq<char>, Seq<char>, u16)>, method: Seq<char>, path: Seq<char>) -> Option<int>
    decreases routes.len(),
{
    if routes.len() == 0 {
        None
    } else {
        match route_for(routes.drop_last(), method, path) {
            Some(i) => Some(i),
            None => if routes.last().0 == method && routes.last().1 == path {
                Some(routes.len() - 1)
            } else {
                None
            },
        }
    }
}

/// The status answered: 404 without a route, else the route's own when it
/// is a valid HTTP status, else 200.
pub open spec fn answer_status(routes: Seq<(Seq<char>, Seq<char>, u16)>, method: Seq<char>, path: Seq<char>) -> u16 {
    match route_for(routes, method, path) {
        None => 404,
        Some(i) => if 100 <= routes[i].2 <= 999 {
            routes[i].2
        } else {
            200
        },
    }
}

impl FakeAgent {
    /// A stand-in answering the given routes, with nothing received yet.
    pub fn new(socket: String, routes: Vec<Canned>) -> (r: FakeAgent)
        ensures
            r@.socket == socket@,
            r@.routes == routes@.map_values(|c: Canned| (c.method@, c.path@, c.status)),
            r@.recorded.len() == 0,
    {
        FakeAgent { socket, routes, recorded: Vec::new() }
    }

    /// Records a request and answers it: the status, and which route gave
    /// the body (`None`: the `not_found` error).
    pub fn answer(&mut self, method: String, path: String, body: String) -> (r: (u16, Option<usize>))
        ensures
            final(self)@.socket == old(self)@.socket,
            final(self)@.routes == old(self)@.routes,
            final(self)@.recorded == old(self)@.recorded.push((method@, path@, body@)),
            r.0 == answer_status(old(self)@.routes, method@, path@),
            match route_for(old(self)@.routes, method@, path@) {
                Some(i) => r.1 == Some(i as usize),
                None => r.1 is None,
            },
    {
        let ghost routes = self@.routes;
        let mut i: usize = 0;
        let mut found: Option<usize> = None;
        while i < self.routes.len() && found.is_none()
            invariant
                i <= self.routes@.len(),
                routes == self@.routes,
                routes.len() == self.routes@.len(),
                match found {
                    Some(k) => route_for(routes.take(i as int), method@, path@) == Some(k as int) && k < i,
                    None => route_for(routes.take(i as int), method@, path@) is None,
                },
            decreases self.routes@.len() - i,
        {
            assert(routes.take(i + 1).drop_last() =~= routes.take(i as int));
            assert(routes[i as int] == (self.routes@[i as int].method@, self.routes@[i as int].path@, self.routes@[i as int].status));
            if self.routes[i].method == method && self.routes[i].path == path {
                found = Some(i);
            }
            i = i + 1;
        }
        proof {
            lemma_route_prefix(routes, i as int, method@, path@);
        }
        let status = match found {
            None => 404,
            Some(k) => {
                let s = self.routes[k].status;
                if 100 <= s && s <= 999 {
                    s
                } else {
                    200
                }
            },
        };
        let ghost before = self.recorded@;
        self.recorded.push(Recorded { method, path, body });
        assert(self@.recorded =~= old(self)@.recorded.push((method@, path@, body@)));
        (status, found)
    }

    /// Every request received so far, oldest first.
    pub fn requests(&self) -> (r: Vec<Recorded>)
        ensures
            recorded_views(r@) == self@.recorded,
    {
        let mut out: Vec<Recorded> = Vec::new();
        let mut i: usize = 0;
        while i < self.recorded.len()
            invariant
                i <= self.recorded@.len(),
                recorded_views(out@) == recorded_views(self.recorded@.take(i as int)),
            decreases self.recorded@.len() - i,
        {
            let c = self.recorded[i].copy();
            let ghost prev = out@;
            out.push(c);
            assert(recorded_views(out@) =~= recorded_views(prev).push(c@));
            assert(recorded_views(self.recorded@.take(i + 1)) =~= recorded_views(self.recorded@.take(i as int)).push(
                self.recorded@[i as int]@,
            ));
            i = i + 1;
        }
        assert(self.recorded@.take(i as int) =~= self.recorded@);
        assert(recorded_views(out@) == self@.recorded);
        out
    }
}

/// A route found in a prefix is the route of the whole list; one found
/// nowhere in the whole list is found in no prefix either.
proof fn lemma_route_prefix(routes: Seq<(Seq<char>, Seq<char>, u16)>, i: int, method: Seq<char>, path: Seq<char>)
    requires
        0 <= i <= routes.len(),
        i < routes.len() ==> route_for(routes.take(i), method, path) is Some,
    ensures
        route_for(routes.take(i), method, path) == route_for(routes, method, path),
    decreases routes.len() - i,
{
    if i == routes.len() {
        assert(routes.take(i) =~= routes);
    } else {
        lemma_route_prefix_some(routes, i, method, path);
    }
}

proof fn lemma_route_prefix_some(routes: Seq<(Seq<char>, Seq<char>, u16)>, i: int, method: Seq<char>, path: Seq<char>)
    requires
        0 <= i <= routes.len(),
        route_for(routes.take(i), method, path) is Some,
    ensures
        route_for(routes.take(i), method, path) == route_for(routes, method, path),
    decreases routes.len() - i,
{
    if i == routes.len() {
        assert(routes.take(i) =~= routes);
    } else {
        assert(routes.take(i + 1).drop_last() =~= routes.take(i));
        lemma_route_prefix_some(routes, i + 1, method, path);
    }
}

/// The stand-in after it answered `requests` in turn (method, path, body
/// each), as `answer` leaves it.
pub open spec fn after_requests(v: FakeView, requests: Seq<RecordedView>) -> FakeView
    decreases requests.len(),
{
    if requests.len() == 0 {
        v
    } else {
        let w = after_requests(v, requests.drop_last());
        FakeView { recorded: w.recorded.push(requests.last()), ..w }
    }
}

/// The stand-in records every request it answers, oldest first, and
/// nothing else: after a run of requests its record is the old record
/// followed by them, and its socket and routes are unchanged.
pub proof fn lemma_records_every_request(v: FakeView, requests: Seq<RecordedView>)
    ensures
        after_requests(v, requests).recorded == v.recorded + requests,
        after_requests(v, requests).routes == v.routes,
        after_requests(v, requests).socket == v.socket,
    decreases requests.len(),
{
    if requests.len() > 0 {
        lemma_records_every_request(v, requests.drop_last());
        assert(v.recorded + requests.drop_last() + seq![requests.last()] =~= v.recorded + requests);
        assert((v.recorded + requests.drop_last()).push(requests.last()) =~= v.recorded + requests);
    } else {
        assert(v.recorded + requests =~= v.recorded);
    }
}

} // verus!
