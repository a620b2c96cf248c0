//! Which entries hold which entities, and how entities are ranked in lists.
use vstd::prelude::*;

use crate::model::{
    AdminSession, AuditEntry, AuditEntryView, BranchState, Entry, EntryView, Project,
    ProjectAdminAccount, ProjectAdminAccountView, ProjectView, RefBinding, SharedItem,
    SharedItemView, SnapshotMap, Structure, StructureDraft, VersionRecord, VersionRecordView,
};
use crate::sort::Ranked;
use crate::step::{DiffLog, Stored};
use crate::text::{
    lemma_text_less_irreflexive, lemma_text_less_total, lemma_text_order, less, same, text_less,
};

verus! {

impl Stored for Project {
    open spec fn pick(e: EntryView) -> Option<Self::V> {
        match e {
            EntryView::Project(x) => Some(x),
            _ => None,
        }
    }

    fn unpack(e: Entry) -> (r: Option<Self>) {
        match e {
            Entry::Project(x) => Some(x),
            _ => None,
        }
    }
}

impl Stored for Structure {
    open spec fn pick(e: EntryView) -> Option<Self::V> {
        match e {
            EntryView::Structure(x) => Some(x),
            _ => None,
        }
    }

    fn unpack(e: Entry) -> (r: Option<Self>) {
        match e {
            Entry::Structure(x) => Some(x),
            _ => None,
        }
    }
}

impl Stored for StructureDraft {
    open spec fn pick(e: EntryView) -> Option<Self::V> {
        match e {
            EntryView::StructureDraft(x) => Some(x),
            _ => None,
        }
    }

    fn unpack(e: Entry) -> (r: Option<Self>) {
        match e {
            Entry::StructureDraft(x) => Some(x),
            _ => None,
        }
    }
}

impl Stored for BranchState {
    open spec fn pick(e: EntryView) -> Option<Self::V> {
        match e {
            EntryView::Branch(x) => Some(x),
            _ => None,
        }
    }

    fn unpack(e: Entry) -> (r: Option<Self>) {
        match e {
            Entry::Branch(x) => Some(x),
            _ => None,
        }
    }
}

impl Stored for VersionRecord {
    open spec fn pick(e: EntryView) -> Option<Self::V> {
        match e {
            EntryView::Version(x) => Some(x),
            _ => None,
        }
    }

    fn unpack(e: Entry) -> (r: Option<Self>) {
        match e {
            Entry::Version(x) => Some(x),
            _ => None,
        }
    }
}

impl Stored for SnapshotMap {
    open spec fn pick(e: EntryView) -> Option<Self::V> {
        match e {
            EntryView::Snapshot(x) => Some(x),
            _ => None,
        }
    }

    fn unpack(e: Entry) -> (r: Option<Self>) {
        match e {
            Entry::Snapshot(x) => Some(x),
            _ => None,
        }
    }
}

impl Stored for SharedItem {
    open spec fn pick(e: EntryView) -> Option<Self::V> {
        match e {
            EntryView::Shared(x) => Some(x),
            _ => None,
        }
    }

    fn unpack(e: Entry) -> (r: Option<Self>) {
        match e {
            Entry::Shared(x) => Some(x),
            _ => None,
        }
    }
}

impl Stored for RefBinding {
    open spec fn pick(e: EntryView) -> Option<Self::V> {
        match e {
            EntryView::Ref(x) => Some(x),
            _ => None,
        }
    }

    fn unpack(e: Entry) -> (r: Option<Self>) {
        match e {
            Entry::Ref(x) => Some(x),
            _ => None,
        }
    }
}

impl Stored for AdminSession {
    open spec fn pick(e: EntryView) -> Option<Self::V> {
        match e {
            EntryView::Session(x) => Some(x),
            _ => None,
        }
    }

    fn unpack(e: Entry) -> (r: Option<Self>) {
        match e {
            Entry::Session(x) => Some(x),
            _ => None,
        }
    }
}

impl Stored for ProjectAdminAccount {
    open spec fn pick(e: EntryView) -> Option<Self::V> {
        match e {
            EntryView::Account(x) => Some(x),
            _ => None,
        }
    }

    fn unpack(e: Entry) -> (r: Option<Self>) {
        match e {
            Entry::Account(x) => Some(x),
            _ => None,
        }
    }
}

impl Stored for AuditEntry {
    open spec fn pick(e: EntryView) -> Option<Self::V> {
        match e {
            EntryView::Audit(x) => Some(x),
            _ => None,
        }
    }

    fn unpack(e: Entry) -> (r: Option<Self>) {
        match e {
            Entry::Audit(x) => Some(x),
            _ => None,
        }
    }
}

impl Stored for String {
    open spec fn pick(e: EntryView) -> Option<Self::V> {
        match e {
            EntryView::Text(x) => Some(x),
            _ => None,
        }
    }

    fn unpack(e: Entry) -> (r: Option<Self>) {
        match e {
            Entry::Text(x) => Some(x),
            _ => None,
        }
    }
}

impl Stored for u64 {
    open spec fn pick(e: EntryView) -> Option<Self::V> {
        match e {
            EntryView::Counter(x) => Some(x),
            _ => None,
        }
    }

    fn unpack(e: Entry) -> (r: Option<Self>) {
        match e {
            Entry::Counter(x) => Some(x),
            _ => None,
        }
    }
}

impl Stored for DiffLog {
    open spec fn pick(e: EntryView) -> Option<Self::V> {
        match e {
            EntryView::Diff(x) => Some(x),
            _ => None,
        }
    }

    fn unpack(e: Entry) -> (r: Option<Self>) {
        match e {
            Entry::Diff(entries) => Some(DiffLog { entries }),
            _ => None,
        }
    }
}

impl Ranked for Project {
    open spec fn before(a: ProjectView, b: ProjectView) -> bool {
        text_less(a.name, b.name)
    }

    proof fn lemma_order(a: ProjectView, b: ProjectView, c: ProjectView) {
        lemma_text_order(a.name, b.name, c.name);
    }

    fn is_before(&self, other: &Self) -> (r: bool) {
        less(self.name.as_str(), other.name.as_str())
    }
}

impl Ranked for AuditEntry {
    open spec fn before(a: AuditEntryView, b: AuditEntryView) -> bool {
        a.seq > b.seq
    }

    proof fn lemma_order(a: AuditEntryView, b: AuditEntryView, c: AuditEntryView) {
    }

    fn is_before(&self, other: &Self) -> (r: bool) {
        self.seq > other.seq
    }
}

impl Ranked for VersionRecord {
    open spec fn before(a: VersionRecordView, b: VersionRecordView) -> bool {
        a.no < b.no
    }

    proof fn lemma_order(a: VersionRecordView, b: VersionRecordView, c: VersionRecordView) {
    }

    fn is_before(&self, other: &Self) -> (r: bool) {
        self.no < other.no
    }
}

impl Ranked for ProjectAdminAccount {
    open spec fn before(a: ProjectAdminAccountView, b: ProjectAdminAccountView) -> bool {
        text_less(a.username, b.username)
    }

    proof fn lemma_order(a: ProjectAdminAccountView, b: ProjectAdminAccountView, c: ProjectAdminAccountView) {
        lemma_text_order(a.username, b.username, c.username);
    }

    fn is_before(&self, other: &Self) -> (r: bool) {
        less(self.username.as_str(), other.username.as_str())
    }
}

impl Ranked for SharedItem {
    open spec fn before(a: SharedItemView, b: SharedItemView) -> bool {
        text_less(a.group, b.group) || (a.group == b.group && text_less(a.key, b.key))
    }

    proof fn lemma_order(a: SharedItemView, b: SharedItemView, c: SharedItemView) {
        lemma_text_order(a.group, b.group, c.group);
        lemma_text_order(a.key, b.key, c.key);
        lemma_text_less_total(a.group, b.group);
        lemma_text_less_total(b.group, c.group);
        lemma_text_less_irreflexive(a.group);
    }

    fn is_before(&self, other: &Self) -> (r: bool) {
        less(self.group.as_str(), other.group.as_str()) || (same(
            self.group.as_str(),
            other.group.as_str(),
        ) && less(self.key.as_str(), other.key.as_str()))
    }
}

impl Ranked for u64 {
    open spec fn before(a: u64, b: u64) -> bool {
        a < b
    }

    proof fn lemma_order(a: u64, b: u64, c: u64) {
    }

    fn is_before(&self, other: &Self) -> (r: bool) {
        *self < *other
    }
}

} // verus!
