//! What leaves the service: events and changes without the ciphertext of secrets.
use vstd::prelude::*;

use crate::dup::{Dup, views};
use crate::model::{DiffEntry, DiffEntryView, PublishEvent, PublishEventView, Value, ValueView};

verus! {

/// A secret becomes three stars; any other value stays as it is.
pub open spec fn masked(v: ValueView) -> ValueView {
    match v {
        ValueView::Secret(_) => ValueView::String("***"@),
        _ => v,
    }
}

pub open spec fn masked_entry(d: DiffEntryView) -> DiffEntryView {
    DiffEntryView {
        new_value: match d.new_value {
            Some(v) => Some(masked(v)),
            None => None,
        },
        ..d
    }
}

/// An event with every change masked.
pub open spec fn masked_event(e: PublishEventView) -> PublishEventView {
    PublishEventView {
        changes: Seq::new(e.changes.len(), |i: int| masked_entry(e.changes[i])),
        ..e
    }
}

/// A secret becomes three stars; any other value stays as it is.
pub fn masked_value(v: &Value) -> (r: Value)
    ensures
        r@ == masked(v@),
{
    match v {
        Value::Secret(_) => Value::String("***".to_owned()),
        _ => v.dup(),
    }
}

/// Masks the value of a change.
pub fn mask_diff_entry(d: &DiffEntry) -> (r: DiffEntry)
    ensures
        r@ == masked_entry(d@),
{
    DiffEntry {
        group: d.group.clone(),
        key: d.key.clone(),
        kind: d.kind,
        new_value: match &d.new_value {
            Some(v) => Some(masked_value(v)),
            None => None,
        },
    }
}

/// Masks all changes of an event; the event itself keeps its ciphertext.
pub fn mask_event_for_wire(e: &PublishEvent) -> (r: PublishEvent)
    ensures
        r@ == masked_event(e@),
{
    let mut changes: Vec<DiffEntry> = Vec::new();
    let mut i: usize = 0;
    while i < e.changes.len()
        invariant
            i == changes@.len(),
            i <= e.changes@.len(),
            forall|j: int| 0 <= j < i ==> (#[trigger] changes@[j])@ == masked_entry(e.changes@[j]@),
        decreases e.changes@.len() - i,
    {
        changes.push(mask_diff_entry(&e.changes[i]));
        i = i + 1;
    }
    assert(views(changes@) =~= masked_event(e@).changes);
    PublishEvent {
        project: e.project.dup(),
        branch: e.branch.dup(),
        version: e.version,
        ty: e.ty,
        structure_version: e.structure_version,
        comment: e.comment.clone(),
        request_id: e.request_id.clone(),
        changes,
        gray: e.gray,
    }
}

/// No change of a masked event carries ciphertext, and what is not secret passes unchanged.
pub proof fn law_masking_removes_all_ciphertext(e: PublishEventView, i: int)
    requires
        0 <= i < e.changes.len(),
    ensures
        masked_event(e).changes.len() == e.changes.len(),
        masked_event(e).changes[i].new_value matches Some(v) ==> !(v is Secret),
        !(e.changes[i].new_value matches Some(ValueView::Secret(_)))
            ==> masked_event(e).changes[i] == e.changes[i],
{
}

/// Masking twice is masking once.
pub proof fn law_masking_is_idempotent(e: PublishEventView)
    ensures
        masked_event(masked_event(e)) == masked_event(e),
{
    assert(masked_event(masked_event(e)).changes =~= masked_event(e).changes);
}

} // verus!
