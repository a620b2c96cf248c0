//! What those who watch a branch are sent: first the events they missed, then the new ones.
use vstd::prelude::*;

use crate::dup::views;
use crate::model::{
    BranchName, DiffEntry, EventType, ProjectId, PublishEvent, PublishEventView, ValueView,
};
use crate::text::same;
use crate::wire::{mask_event_for_wire, masked_event};

verus! {

/// The greatest version among the first `n` events.
pub open spec fn last_version(events: Seq<PublishEventView>, n: nat) -> u64
    decreases n,
{
    if n == 0 {
        0
    } else {
        let before = last_version(events, (n - 1) as nat);
        if events[n - 1].version > before {
            events[n - 1].version
        } else {
            before
        }
    }
}

/// The version that a replay ends with.
pub fn replay_end(events: &Vec<PublishEvent>) -> (r: u64)
    ensures
        r == last_version(views(events@), events@.len()),
{
    let mut last: u64 = 0;
    let mut i: usize = 0;
    while i < events.len()
        invariant
            i <= events@.len(),
            last == last_version(views(events@), i as nat),
        decreases events@.len() - i,
    {
        assert(views(events@)[i as int] == events@[i as int]@);
        if events[i].version > last {
            last = events[i].version;
        }
        i = i + 1;
    }
    last
}

/// Whether a new event goes to those who watch the branch: it is of that branch, and newer than what
/// they have. Events of a gradual release always go.
pub open spec fn reaches(e: PublishEventView, project: Seq<char>, branch: Seq<char>, last: u64) -> bool {
    e.project == project && e.branch == branch && (e.gray || e.version > last)
}

/// What is sent of a new event: the event without ciphertext, or nothing.
pub fn live_event(e: &PublishEvent, project: &str, branch: &str, last: u64) -> (r: Option<PublishEvent>)
    ensures
        match r {
            Some(m) => reaches(e@, project@, branch@, last) && m@ == masked_event(e@),
            None => !reaches(e@, project@, branch@, last),
        },
{
    if same(e.project.as_str(), project) && same(e.branch.as_str(), branch) && (e.gray || e.version
        > last) {
        Some(mask_event_for_wire(e))
    } else {
        None
    }
}

/// What is sent of the events that were missed: all of them, without ciphertext.
pub fn replay_events(events: &Vec<PublishEvent>) -> (r: Vec<PublishEvent>)
    ensures
        r@.len() == events@.len(),
        forall|i: int| 0 <= i < r@.len() ==> (#[trigger] r@[i])@ == masked_event(events@[i]@),
{
    let mut out: Vec<PublishEvent> = Vec::new();
    let mut i: usize = 0;
    while i < events.len()
        invariant
            i <= events@.len(),
            i == out@.len(),
            forall|j: int| 0 <= j < i ==> (#[trigger] out@[j])@ == masked_event(events@[j]@),
        decreases events@.len() - i,
    {
        out.push(mask_event_for_wire(&events[i]));
        i = i + 1;
    }
    out
}

/// The event that tells a watcher to read the configuration again: versions that it missed are gone.
pub fn snapshot_notice(project: &str, branch: &str, last: u64) -> (r: PublishEvent)
    ensures
        r@ == (PublishEventView {
            project: project@,
            branch: branch@,
            version: last,
            ty: EventType::ValuePublish,
            structure_version: 0,
            comment: "snapshot required"@,
            request_id: Seq::empty(),
            changes: Seq::empty(),
            gray: false,
        }),
{
    let changes: Vec<DiffEntry> = Vec::new();
    assert(views(changes@) =~= Seq::empty());
    PublishEvent {
        project: ProjectId(project.to_owned()),
        branch: BranchName(branch.to_owned()),
        version: last,
        ty: EventType::ValuePublish,
        structure_version: 0,
        comment: "snapshot required".to_owned(),
        request_id: String::new(),
        changes,
        gray: false,
    }
}

/// A replay ends with a version that no event of it exceeds.
pub proof fn law_replay_end_is_greatest(events: Seq<PublishEventView>, n: nat, i: int)
    requires
        0 <= i < n <= events.len(),
    ensures
        events[i].version <= last_version(events, n),
    decreases n,
{
    if i < n - 1 {
        law_replay_end_is_greatest(events, (n - 1) as nat, i);
    }
}

/// No event is sent twice: what was replayed does not go again as a new event, unless it belongs to a
/// gradual release.
pub proof fn law_no_event_twice(
    events: Seq<PublishEventView>,
    i: int,
    project: Seq<char>,
    branch: Seq<char>,
)
    requires
        0 <= i < events.len(),
        !events[i].gray,
    ensures
        !reaches(events[i], project, branch, last_version(events, events.len())),
{
    law_replay_end_is_greatest(events, events.len(), i);
}

/// A replay without events ends with no version; any other ends with the version of one of its events.
pub proof fn law_replay_end_was_replayed(events: Seq<PublishEventView>, n: nat)
    requires
        n <= events.len(),
    ensures
        last_version(events, n) == 0 || exists|i: int|
            0 <= i < n && (#[trigger] events[i]).version == last_version(events, n),
    decreases n,
{
    if n > 0 {
        law_replay_end_was_replayed(events, (n - 1) as nat);
        if events[n - 1].version <= last_version(events, (n - 1) as nat) && last_version(events, n) != 0 {
            let i = choose|i: int|
                0 <= i < n - 1 && (#[trigger] events[i]).version == last_version(events, (n - 1) as nat);
            assert(events[i].version == last_version(events, n));
        } else if last_version(events, n) != 0 {
            assert(events[n - 1].version == last_version(events, n));
        }
    }
}

/// No event is lost: whatever was replayed, an event of the branch that is newer than all of it reaches
/// those who watch the branch. An event of a gradual release reaches them in any case.
pub proof fn law_no_event_is_lost(
    replayed: Seq<PublishEventView>,
    e: PublishEventView,
    project: Seq<char>,
    branch: Seq<char>,
)
    requires
        e.project == project,
        e.branch == branch,
        e.gray || (e.version > 0 && forall|i: int|
            0 <= i < replayed.len() ==> (#[trigger] replayed[i]).version < e.version),
    ensures
        reaches(e, project, branch, last_version(replayed, replayed.len())),
{
    law_replay_end_was_replayed(replayed, replayed.len());
}

/// Nobody is sent the events of another branch.
pub proof fn law_only_own_events_are_sent(
    e: PublishEventView,
    project: Seq<char>,
    branch: Seq<char>,
    last: u64,
)
    requires
        reaches(e, project, branch, last),
    ensures
        e.project == project,
        e.branch == branch,
        e.gray || e.version > last,
{
}

/// What is sent of an event is about the same version and the same items as the event.
pub proof fn law_sent_events_are_complete(e: PublishEventView, i: int)
    requires
        0 <= i < e.changes.len(),
    ensures
        ({
            let m = masked_event(e);
            &&& m.project == e.project && m.branch == e.branch && m.version == e.version
            &&& m.ty == e.ty && m.structure_version == e.structure_version && m.gray == e.gray
            &&& m.comment == e.comment && m.request_id == e.request_id
            &&& m.changes.len() == e.changes.len()
            &&& m.changes[i].group == e.changes[i].group && m.changes[i].key == e.changes[i].key
            &&& m.changes[i].kind == e.changes[i].kind
            &&& m.changes[i].new_value is Some == e.changes[i].new_value is Some
            &&& e.changes[i].new_value matches Some(v) ==> m.changes[i].new_value == Some(
                if v is Secret {
                    ValueView::String("***"@)
                } else {
                    v
                },
            )
        }),
{
}

} // verus!
