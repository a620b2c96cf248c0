//! What kind of entry stands under a key. A durable store holds bytes, and has to know what they are.
use vstd::prelude::*;

use crate::dup::views;
use crate::keys::{
    K_ADMIN_PW, K_AUDIT, K_AUDIT_SEQ, K_IDX_PNAME, K_IDX_REF, K_IDX_REFG, K_PA_ACCOUNT,
    K_PA_SESSION, K_PROJECT, K_SESSION, K_SESSIONS, K_SHARED, K_SHARED_DRAFT,
};
use crate::text::{has_prefix, same, split, split_on};

verus! {

/// The kinds of entries.
#[derive(Debug, Clone, Copy, PartialEq, Eq, Structural)]
pub enum EntryKind {
    Project,
    Structure,
    StructureDraft,
    Branch,
    Version,
    Snapshot,
    Diff,
    Shared,
    Ref,
    Session,
    Account,
    Audit,
    Text,
    Counter,
    Raw,
}

/// The kind of an entry of a project, by the parts of its key.
pub open spec fn project_kind(p: Seq<Seq<char>>) -> EntryKind {
    if p.len() == 2 {
        EntryKind::Project
    } else if p.len() == 3 && p[2] == "struct"@ {
        EntryKind::Structure
    } else if p.len() == 3 && p[2] == "struct-draft"@ {
        EntryKind::StructureDraft
    } else if p.len() > 3 && p[2] == "refs"@ {
        EntryKind::Ref
    } else if p.len() == 5 && p[2] == "b"@ && p[4] == "state"@ {
        EntryKind::Branch
    } else if p.len() == 6 && p[2] == "b"@ && p[4] == "v"@ {
        EntryKind::Version
    } else if p.len() == 7 && p[2] == "b"@ && p[4] == "v"@ && p[6] == "snap"@ {
        EntryKind::Snapshot
    } else if p.len() == 7 && p[2] == "b"@ && p[4] == "v"@ && p[6] == "diff"@ {
        EntryKind::Diff
    } else {
        EntryKind::Raw
    }
}

/// The kind of the entry under a key.
pub open spec fn kind_at(k: Seq<char>) -> EntryKind {
    if K_PROJECT@.is_prefix_of(k) {
        project_kind(split_on(k, '/'))
    } else if K_SHARED@.is_prefix_of(k) || K_SHARED_DRAFT@.is_prefix_of(k) {
        EntryKind::Shared
    } else if k == K_ADMIN_PW@ {
        EntryKind::Text
    } else if k == K_SESSION@ || K_SESSIONS@.is_prefix_of(k) || K_PA_SESSION@.is_prefix_of(k) {
        EntryKind::Session
    } else if K_PA_ACCOUNT@.is_prefix_of(k) {
        EntryKind::Account
    } else if k == K_AUDIT_SEQ@ {
        EntryKind::Counter
    } else if K_AUDIT@.is_prefix_of(k) {
        EntryKind::Audit
    } else if K_IDX_PNAME@.is_prefix_of(k) || K_IDX_REF@.is_prefix_of(k) || K_IDX_REFG@.is_prefix_of(k) {
        EntryKind::Text
    } else {
        EntryKind::Raw
    }
}

fn kind_in_project(key: &str) -> (r: EntryKind)
    ensures
        r == project_kind(split_on(key@, '/')),
{
    let p: Vec<String> = split(key, '/');
    let ghost all = split_on(key@, '/');
    assert(all == views(p@));
    let n: usize = p.len();
    if n == 2 {
        return EntryKind::Project;
    }
    if n < 3 {
        return EntryKind::Raw;
    }
    assert(all[2] == p@[2]@);
    let third: &str = p[2].as_str();
    if n == 3 {
        if same(third, "struct") {
            return EntryKind::Structure;
        }
        if same(third, "struct-draft") {
            return EntryKind::StructureDraft;
        }
        return EntryKind::Raw;
    }
    if same(third, "refs") {
        return EntryKind::Ref;
    }
    if n < 5 || n > 7 || !same(third, "b") {
        return EntryKind::Raw;
    }
    assert(all[4] == p@[4]@);
    let fifth: &str = p[4].as_str();
    if n == 5 {
        if same(fifth, "state") {
            return EntryKind::Branch;
        }
        return EntryKind::Raw;
    }
    if !same(fifth, "v") {
        return EntryKind::Raw;
    }
    if n == 6 {
        return EntryKind::Version;
    }
    assert(all[6] == p@[6]@);
    if same(p[6].as_str(), "snap") {
        EntryKind::Snapshot
    } else if same(p[6].as_str(), "diff") {
        EntryKind::Diff
    } else {
        EntryKind::Raw
    }
}

/// The kind of the entry under a key.
pub fn kind_of_key(key: &str) -> (r: EntryKind)
    ensures
        r == kind_at(key@),
{
    if has_prefix(key, K_PROJECT) {
        kind_in_project(key)
    } else if has_prefix(key, K_SHARED) || has_prefix(key, K_SHARED_DRAFT) {
        EntryKind::Shared
    } else if same(key, K_ADMIN_PW) {
        EntryKind::Text
    } else if same(key, K_SESSION) || has_prefix(key, K_SESSIONS) || has_prefix(key, K_PA_SESSION) {
        EntryKind::Session
    } else if has_prefix(key, K_PA_ACCOUNT) {
        EntryKind::Account
    } else if same(key, K_AUDIT_SEQ) {
        EntryKind::Counter
    } else if has_prefix(key, K_AUDIT) {
        EntryKind::Audit
    } else if has_prefix(key, K_IDX_PNAME) || has_prefix(key, K_IDX_REF) || has_prefix(
        key,
        K_IDX_REFG,
    ) {
        EntryKind::Text
    } else {
        EntryKind::Raw
    }
}

} // verus!
