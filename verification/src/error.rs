//! Errors: a kind with a stable code, a message and what goes with it.
use vstd::prelude::*;
use vstd::string::StringExecFns;

use crate::dup::{Dup, dup_opt, dup_vec, view_opt, views};

verus! {

/// The kind of an error.
#[derive(Debug, Clone, Copy, PartialEq, Eq, Hash, Structural)]
pub enum ErrorKind {
    /// This node is not the leader; `leader_hint` says who is.
    LeaderRedirect,
    NotFound,
    Validation,
    PublishBlocked,
    VersionPruned,
    SessionInUse,
    SessionExpired,
    Forbidden,
    CycleRef,
    Conflict,
    NoDraft,
    LimitExceeded,
    Internal,
    Storage,
    Raft,
    Crypto,
}

/// The code that stands for a kind outside the service.
pub open spec fn code_of(kind: ErrorKind) -> Seq<char> {
    match kind {
        ErrorKind::LeaderRedirect => "ERR_LEADER_REDIRECT"@,
        ErrorKind::NotFound => "ERR_NOT_FOUND"@,
        ErrorKind::Validation => "ERR_VALIDATION"@,
        ErrorKind::PublishBlocked => "ERR_PUBLISH_BLOCKED"@,
        ErrorKind::VersionPruned => "ERR_VERSION_PRUNED"@,
        ErrorKind::SessionInUse => "ERR_SESSION_IN_USE"@,
        ErrorKind::SessionExpired => "ERR_SESSION_EXPIRED"@,
        ErrorKind::Forbidden => "ERR_FORBIDDEN"@,
        ErrorKind::CycleRef => "ERR_CYCLE_REF"@,
        ErrorKind::Conflict => "ERR_CONFLICT"@,
        ErrorKind::NoDraft => "ERR_NO_DRAFT"@,
        ErrorKind::LimitExceeded => "ERR_LIMIT_EXCEEDED"@,
        ErrorKind::Internal => "ERR_INTERNAL"@,
        ErrorKind::Storage => "ERR_STORAGE"@,
        ErrorKind::Raft => "ERR_RAFT"@,
        ErrorKind::Crypto => "ERR_CRYPTO"@,
    }
}

impl ErrorKind {
    /// The code that stands for the kind outside the service.
    pub fn code(&self) -> (r: &'static str)
        ensures
            r@ == code_of(*self),
    {
        match self {
            ErrorKind::LeaderRedirect => "ERR_LEADER_REDIRECT",
            ErrorKind::NotFound => "ERR_NOT_FOUND",
            ErrorKind::Validation => "ERR_VALIDATION",
            ErrorKind::PublishBlocked => "ERR_PUBLISH_BLOCKED",
            ErrorKind::VersionPruned => "ERR_VERSION_PRUNED",
            ErrorKind::SessionInUse => "ERR_SESSION_IN_USE",
            ErrorKind::SessionExpired => "ERR_SESSION_EXPIRED",
            ErrorKind::Forbidden => "ERR_FORBIDDEN",
            ErrorKind::CycleRef => "ERR_CYCLE_REF",
            ErrorKind::Conflict => "ERR_CONFLICT",
            ErrorKind::NoDraft => "ERR_NO_DRAFT",
            ErrorKind::LimitExceeded => "ERR_LIMIT_EXCEEDED",
            ErrorKind::Internal => "ERR_INTERNAL",
            ErrorKind::Storage => "ERR_STORAGE",
            ErrorKind::Raft => "ERR_RAFT",
            ErrorKind::Crypto => "ERR_CRYPTO",
        }
    }
}

/// What an error lists: one JSON member, a list of messages under a name.
#[derive(Debug, PartialEq)]
pub struct Detail {
    pub name: String,
    pub messages: Vec<String>,
}

/// What a [`Detail`] stands for.
#[verifier::ext_equal]
pub struct DetailView {
    pub name: Seq<char>,
    pub messages: Seq<Seq<char>>,
}

impl View for Detail {
    type V = DetailView;

    open spec fn view(&self) -> DetailView {
        DetailView {
            name: self.name@,
            messages: views(self.messages@),
        }
    }
}

impl Dup for Detail {
    fn dup(&self) -> (r: Self) {
        Detail {
            name: self.name.clone(),
            messages: dup_vec(&self.messages),
        }
    }
}

impl Clone for Detail {
    fn clone(&self) -> (r: Self)
        ensures
            r@ == self@,
    {
        self.dup()
    }
}

/// An error.
#[derive(Debug, PartialEq)]
pub struct Error {
    pub kind: ErrorKind,
    pub message: String,
    pub detail: Option<Detail>,
    /// The address of the leader, for `LeaderRedirect`.
    pub leader_hint: Option<String>,
    pub request_id: Option<String>,
}

/// What a [`Error`] stands for.
#[verifier::ext_equal]
pub struct ErrorView {
    pub kind: ErrorKind,
    pub message: Seq<char>,
    pub detail: Option<DetailView>,
    pub leader_hint: Option<Seq<char>>,
    pub request_id: Option<Seq<char>>,
}

impl View for Error {
    type V = ErrorView;

    open spec fn view(&self) -> ErrorView {
        ErrorView {
            kind: self.kind,
            message: self.message@,
            detail: view_opt(self.detail),
            leader_hint: view_opt(self.leader_hint),
            request_id: view_opt(self.request_id),
        }
    }
}

impl Dup for Error {
    fn dup(&self) -> (r: Self) {
        Error {
            kind: self.kind,
            message: self.message.clone(),
            detail: dup_opt(&self.detail),
            leader_hint: dup_opt(&self.leader_hint),
            request_id: dup_opt(&self.request_id),
        }
    }
}

impl Clone for Error {
    fn clone(&self) -> (r: Self)
        ensures
            r@ == self@,
    {
        self.dup()
    }
}

/// An error with nothing but a kind and a message.
pub open spec fn err(kind: ErrorKind, message: Seq<char>) -> ErrorView {
    ErrorView { kind, message, detail: None, leader_hint: None, request_id: None }
}

pub open spec fn not_found_err(what: Seq<char>) -> ErrorView {
    err(ErrorKind::NotFound, "not found: "@ + what)
}

pub open spec fn validation_err(message: Seq<char>) -> ErrorView {
    err(ErrorKind::Validation, message)
}

pub open spec fn conflict_err(message: Seq<char>) -> ErrorView {
    err(ErrorKind::Conflict, message)
}

pub open spec fn limit_err(message: Seq<char>) -> ErrorView {
    err(ErrorKind::LimitExceeded, message)
}

pub open spec fn internal_err(message: Seq<char>) -> ErrorView {
    err(ErrorKind::Internal, message)
}

pub open spec fn blocked_err(detail: DetailView) -> ErrorView {
    ErrorView {
        detail: Some(detail),
        ..err(ErrorKind::PublishBlocked, "publish blocked by integrity checks"@)
    }
}

impl Error {
    pub fn new(kind: ErrorKind, message: &str) -> (r: Self)
        ensures
            r@ == err(kind, message@),
    {
        Error { kind, message: message.to_owned(), detail: None, leader_hint: None, request_id: None }
    }

    pub fn with_detail(self, detail: Detail) -> (r: Self)
        ensures
            r@ == (ErrorView { detail: Some(detail@), ..self@ }),
    {
        Error {
            kind: self.kind,
            message: self.message,
            detail: Some(detail),
            leader_hint: self.leader_hint,
            request_id: self.request_id,
        }
    }

    pub fn not_found(what: &str) -> (r: Self)
        ensures
            r@ == not_found_err(what@),
    {
        let mut message: String = "not found: ".to_owned();
        message.append(what);
        Error::new(ErrorKind::NotFound, message.as_str())
    }

    pub fn validation(message: &str) -> (r: Self)
        ensures
            r@ == validation_err(message@),
    {
        Error::new(ErrorKind::Validation, message)
    }

    /// A publish that the checks refuse.
    pub fn publish_blocked(detail: Detail) -> (r: Self)
        ensures
            r@ == blocked_err(detail@),
    {
        Error::new(ErrorKind::PublishBlocked, "publish blocked by integrity checks").with_detail(
            detail,
        )
    }

    pub fn conflict(message: &str) -> (r: Self)
        ensures
            r@ == conflict_err(message@),
    {
        Error::new(ErrorKind::Conflict, message)
    }

    pub fn limit_exceeded(message: &str) -> (r: Self)
        ensures
            r@ == limit_err(message@),
    {
        Error::new(ErrorKind::LimitExceeded, message)
    }

    pub fn internal(message: &str) -> (r: Self)
        ensures
            r@ == internal_err(message@),
    {
        Error::new(ErrorKind::Internal, message)
    }

    /// Adds the address of the leader.
    pub fn with_leader_hint(self, hint: String) -> (r: Self)
        ensures
            r@ == (ErrorView { leader_hint: Some(hint@), ..self@ }),
    {
        Error {
            kind: self.kind,
            message: self.message,
            detail: self.detail,
            leader_hint: Some(hint),
            request_id: self.request_id,
        }
    }

    /// The error as a line of text: the code in brackets, then the message.
    pub fn text(&self) -> (r: String)
        ensures
            r@ == "["@ + code_of(self@.kind) + "] "@ + self@.message,
    {
        let mut s: String = "[".to_owned();
        s.append(self.kind.code());
        s.append("] ");
        s.append(self.message.as_str());
        s
    }
}

/// An error of the storage layer.
pub fn storage_err(message: &str) -> (r: Error)
    ensures
        r@ == err(ErrorKind::Storage, message@),
{
    Error::new(ErrorKind::Storage, message)
}

} // verus!
