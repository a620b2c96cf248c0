//! The path of a write: applied to the state machine of this node, or handed to the leader of the
//! cluster.
use vstd::prelude::*;

use crate::command::Command;
use crate::dup::views;
use crate::error::{Error, ErrorKind, ErrorView, err, internal_err};
use crate::model::{PublishEvent, PublishEventView};
use crate::state::StateMachine;
use crate::store::Store;
use crate::transition::{Progress, step};

verus! {

/// What a write gave: the version of its first event, and its events.
#[derive(Debug)]
pub struct WriteOutcome {
    pub version: u64,
    pub events: Vec<PublishEvent>,
}

/// What the leader answers to a write.
pub type WriteAck = WriteOutcome;

/// The version of the first event; 0 where there is none.
pub open spec fn first_version(events: Seq<PublishEventView>) -> u64 {
    if events.len() > 0 {
        events[0].version
    } else {
        0
    }
}

/// The outcome of a command with its events.
pub fn outcome_of(events: Vec<PublishEvent>) -> (r: WriteOutcome)
    ensures
        r.version == first_version(views(events@)),
        r.events == events,
{
    assert(events@.len() > 0 ==> views(events@)[0] == events@[0]@);
    let version: u64 = if events.len() > 0 {
        events[0].version
    } else {
        0
    };
    WriteOutcome { version, events }
}

/// Applies a command to the state machine of this node.
pub fn write_local<S: Store>(sm: &mut StateMachine<S>, cmd: &Command, now_ms: i64) -> (r: Result<
    WriteOutcome,
    Error,
>)
    ensures
        final(sm).idle(),
        final(sm).reliable() == old(sm).reliable(),
        final(sm)@ == final(sm).base(),
        match r {
            Ok(w) => step(old(sm).base(), cmd@, now_ms) == Ok::<Progress, ErrorView>(
                (final(sm)@, views(w.events@)),
            ) && w.version == first_version(views(w.events@)),
            Err(e) => final(sm)@ == old(sm).base() && (!old(sm).reliable() || step(
                old(sm).base(),
                cmd@,
                now_ms,
            ) == Err::<Progress, ErrorView>(e@)),
        },
{
    match sm.apply(cmd, now_ms) {
        Ok(events) => Ok(outcome_of(events)),
        Err(e) => Err(e),
    }
}

/// Applies a command from the log of the cluster. The time is the position in the log, so that all nodes
/// come to the same state.
pub fn apply_logged<S: Store>(sm: &mut StateMachine<S>, cmd: &Command, index: u64) -> (r: Result<
    WriteOutcome,
    Error,
>)
    ensures
        final(sm).idle(),
        final(sm).reliable() == old(sm).reliable(),
        final(sm)@ == final(sm).base(),
        match r {
            Ok(w) => step(old(sm).base(), cmd@, index as i64) == Ok::<Progress, ErrorView>(
                (final(sm)@, views(w.events@)),
            ) && w.version == first_version(views(w.events@)),
            Err(e) => final(sm)@ == old(sm).base() && (!old(sm).reliable() || step(
                old(sm).base(),
                cmd@,
                index as i64,
            ) == Err::<Progress, ErrorView>(e@)),
        },
{
    write_local(sm, cmd, index as i64)
}

/// Why the cluster did not take a write.
#[derive(Debug)]
pub enum WriteError {
    /// This node is not the leader; who leads may be known, and at which address.
    ForwardToLeader { leader_id: Option<u64>, http_addr: Option<String> },
    /// Another failure, which may pass.
    Other(String),
}

/// What to do after an attempt.
#[derive(Debug)]
pub enum WriteStep {
    Done(Result<WriteOutcome, Error>),
    /// Wait a moment and try again.
    Retry,
}

/// The error that sends a client to the leader.
pub open spec fn redirect(hint: Seq<char>) -> ErrorView {
    ErrorView {
        leader_hint: Some(hint),
        ..err(ErrorKind::LeaderRedirect, "not leader, follow leader_hint"@)
    }
}

/// The address to send a client to: the one that came with the refusal, or else the one that this node
/// knows, or else none.
pub open spec fn hint_of(given: Option<String>, known: Option<String>) -> Seq<char> {
    match (given, known) {
        (Some(a), _) => a@,
        (None, Some(b)) => b@,
        (None, None) => Seq::empty(),
    }
}

/// Decides what to do after an attempt: the cluster answered, or it did not take the write.
/// `known_leader` is the address that this node knows, and `late` says whether the time for the write is
/// over.
pub fn after_attempt(
    attempt: Result<Result<WriteAck, Error>, WriteError>,
    known_leader: Option<String>,
    late: bool,
) -> (r: WriteStep)
    ensures
        match attempt {
            Ok(a) => r == WriteStep::Done(a),
            Err(WriteError::ForwardToLeader { leader_id, http_addr }) => r matches WriteStep::Done(
                Err(e),
            ) && e@ == redirect(hint_of(http_addr, known_leader)),
            Err(WriteError::Other(_)) => if late {
                r matches WriteStep::Done(Err(e)) && e@ == internal_err("client_write timeout"@)
            } else {
                r is Retry
            },
        },
{
    match attempt {
        Ok(a) => WriteStep::Done(a),
        Err(WriteError::ForwardToLeader { leader_id: _, http_addr }) => {
            let hint: String = match http_addr {
                Some(a) => a,
                None => match known_leader {
                    Some(b) => b,
                    None => String::new(),
                },
            };
            let e: Error = Error::new(
                ErrorKind::LeaderRedirect,
                "not leader, follow leader_hint",
            ).with_leader_hint(hint);
            WriteStep::Done(Err(e))
        },
        Err(WriteError::Other(_)) => {
            if late {
                WriteStep::Done(Err(Error::internal("client_write timeout")))
            } else {
                WriteStep::Retry
            }
        },
    }
}

/// The version of an outcome is that of its first event, and there is none without events.
pub proof fn law_outcomes_have_the_first_version(events: Seq<PublishEventView>, more: Seq<PublishEventView>)
    ensures
        first_version(Seq::empty()) == 0,
        events.len() > 0 ==> first_version(events + more) == events[0].version,
{
}

} // verus!
