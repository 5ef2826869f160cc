//! The Agent's error: an HTTP-like kind and a message for the admin.

use vstd::prelude::*;

use crate::text::push_str;

verus! {

#[derive(Debug, Clone, Copy, PartialEq, Eq, Structural)]
pub enum ErrorKind {
    BadRequest,
    Unauthorized,
    Forbidden,
    NotFound,
    Conflict,
    TooManyRequests,
    Internal,
    Unavailable,
}

#[derive(Debug, Clone, PartialEq, Eq)]
pub struct AgentError {
    pub kind: ErrorKind,
    pub message: String,
}

impl AgentError {
    pub fn new(kind: ErrorKind, message: &str) -> (e: AgentError)
        ensures
            e.kind == kind,
            e.message@ == message@,
    {
        let mut text = String::new();
        push_str(&mut text, message);
        assert(Seq::<char>::empty() + message@ =~= message@);
        AgentError { kind, message: text }
    }

    pub fn bad_request(message: &str) -> (e: AgentError)
        ensures
            e.kind == ErrorKind::BadRequest,
            e.message@ == message@,
    {
        Self::new(ErrorKind::BadRequest, message)
    }

    pub fn forbidden(message: &str) -> (e: AgentError)
        ensures
            e.kind == ErrorKind::Forbidden,
            e.message@ == message@,
    {
        Self::new(ErrorKind::Forbidden, message)
    }

    pub fn not_found(message: &str) -> (e: AgentError)
        ensures
            e.kind == ErrorKind::NotFound,
            e.message@ == message@,
    {
        Self::new(ErrorKind::NotFound, message)
    }

    pub fn conflict(message: &str) -> (e: AgentError)
        ensures
            e.kind == ErrorKind::Conflict,
            e.message@ == message@,
    {
        Self::new(ErrorKind::Conflict, message)
    }

    pub fn internal(message: &str) -> (e: AgentError)
        ensures
            e.kind == ErrorKind::Internal,
            e.message@ == message@,
    {
        Self::new(ErrorKind::Internal, message)
    }

    pub fn unavailable(message: &str) -> (e: AgentError)
        ensures
            e.kind == ErrorKind::Unavailable,
            e.message@ == message@,
    {
        Self::new(ErrorKind::Unavailable, message)
    }

    pub fn too_many_requests(message: &str) -> (e: AgentError)
        ensures
            e.kind == ErrorKind::TooManyRequests,
            e.message@ == message@,
    {
        Self::new(ErrorKind::TooManyRequests, message)
    }

    pub fn unauthorized(message: &str) -> (e: AgentError)
        ensures
            e.kind == ErrorKind::Unauthorized,
            e.message@ == message@,
    {
        Self::new(ErrorKind::Unauthorized, message)
    }
}

} // verus!
