//! Between a request and the state machine: secrets are encrypted before they are submitted, drafts that
//! others have changed meanwhile are not saved, and what a publish gave is reported.
use vstd::prelude::*;
use vstd::string::StringExecFns;
use vstd::utf8::encode_utf8;

use crate::command::{DraftUpdateItem, DraftUpdateItemView};
use crate::crypto::{Cipher, decrypted};
use crate::dup::{Dup, dup_vec, views};
use crate::error::{Error, ErrorKind, ErrorView, conflict_err, internal_err};
use crate::keys::{k_branch_state, k_struct};
use crate::model::{
    BranchName, BranchState, DiffEntry, GroupDef, GroupDefView, ItemDef, ProjectId, PublishEvent,
    Structure, StructureView, Value, ValueType, ValueView,
};
use crate::outside::sealable;
use crate::state::StateMachine;
use crate::step::read;
use crate::store::{State, Store};
use crate::text::{dec, decimal, same};
use crate::write::WriteOutcome;

verus! {

/// What a publish gave.
#[derive(Debug)]
pub struct PublishOutcome {
    pub version: u64,
    pub changes: Vec<DiffEntry>,
}

/// What publishing a structure gave: each branch with its new version.
#[derive(Debug)]
pub struct StructurePublishOutcome {
    pub affected: Vec<(String, u64)>,
}

/// Reports a publish. A request that was answered before gives no events: the version is then the active
/// one, and nothing changed.
pub fn publish_outcome(written: WriteOutcome, active: Option<u64>) -> (r: PublishOutcome)
    ensures
        r.version == reported(written.version, active),
        r.version == if written.version > 0 {
            written.version
        } else if active is Some {
            active->0
        } else {
            0
        },
        views(r.changes@) == if written.events@.len() > 0 {
            written.events@[0]@.changes
        } else {
            Seq::empty()
        },
{
    let version: u64 = published_version(written.version, active);
    let changes: Vec<DiffEntry> = if written.events.len() > 0 {
        dup_vec(&written.events[0].changes)
    } else {
        let none: Vec<DiffEntry> = Vec::new();
        assert(views(none@) =~= Seq::empty());
        none
    };
    PublishOutcome { version, changes }
}

/// The version that a publish or a rollback reports: its own, or else the active one.
pub open spec fn reported(written: u64, active: Option<u64>) -> u64 {
    if written > 0 {
        written
    } else {
        match active {
            Some(v) => v,
            None => 0,
        }
    }
}

/// The version that a publish or a rollback reports: its own, or else the active one.
pub fn published_version(written: u64, active: Option<u64>) -> (r: u64)
    ensures
        r == reported(written, active),
        r == if written > 0 {
            written
        } else if active is Some {
            active->0
        } else {
            0
        },
{
    if written > 0 {
        written
    } else {
        match active {
            Some(v) => v,
            None => 0,
        }
    }
}

/// Reports the publish of a structure.
pub fn structure_outcome(events: &Vec<PublishEvent>) -> (r: StructurePublishOutcome)
    ensures
        r.affected@.len() == events@.len(),
        forall|i: int|
            0 <= i < events@.len() ==> (#[trigger] r.affected@[i]).0@ == events@[i]@.branch
                && r.affected@[i].1 == events@[i]@.version,
{
    let mut affected: Vec<(String, u64)> = Vec::new();
    let mut i: usize = 0;
    while i < events.len()
        invariant
            i <= events@.len(),
            i == affected@.len(),
            forall|j: int|
                0 <= j < i ==> (#[trigger] affected@[j]).0@ == events@[j]@.branch && affected@[j].1
                    == events@[j]@.version,
        decreases events@.len() - i,
    {
        affected.push((events[i].branch.0.clone(), events[i].version));
        i = i + 1;
    }
    StructurePublishOutcome { affected }
}

/// Whether the structure has the item with the type of a secret.
pub open spec fn is_secret_item(groups: Seq<GroupDefView>, g: Seq<char>, k: Seq<char>) -> bool {
    exists|i: int, j: int|
        0 <= i < groups.len() && 0 <= j < groups[i].items.len() && groups[i].name == g && (
        #[trigger] groups[i].items[j]).key == k && groups[i].items[j].ty == ValueType::Secret
}

fn secret_item(groups: &Vec<GroupDef>, group: &str, key: &str) -> (r: bool)
    ensures
        r == is_secret_item(views(groups@), group@, key@),
{
    let ghost all = views(groups@);
    let mut i: usize = 0;
    while i < groups.len()
        invariant
            i <= groups@.len(),
            all == views(groups@),
            forall|a: int, b: int|
                0 <= a < i && 0 <= b < all[a].items.len() && all[a].name == group@ && (
                #[trigger] all[a].items[b]).key == key@ ==> all[a].items[b].ty != ValueType::Secret,
        decreases groups@.len() - i,
    {
        let g: &GroupDef = &groups[i];
        assert(all[i as int] == g@);
        if same(g.name.as_str(), group) {
            let mut j: usize = 0;
            while j < g.items.len()
                invariant
                    j <= g.items@.len(),
                    i < groups@.len(),
                    all == views(groups@),
                    all[i as int] == g@,
                    g@.name == group@,
                    forall|b: int|
                        0 <= b < j && (#[trigger] g@.items[b]).key == key@ ==> g@.items[b].ty
                            != ValueType::Secret,
                decreases g.items@.len() - j,
            {
                let item: &ItemDef = &g.items[j];
                assert(g@.items[j as int] == item@);
                if same(item.key.as_str(), key) && item.ty == ValueType::Secret {
                    assert(all[i as int].items[j as int].key == key@);
                    return true;
                }
                j = j + 1;
            }
        }
        i = i + 1;
    }
    false
}

/// What becomes of an update before it is submitted: the text of a secret item becomes ciphertext that
/// decrypts to it; anything else stays.
pub open spec fn submitted(
    keys: Seq<Seq<u8>>,
    groups: Seq<GroupDefView>,
    a: DraftUpdateItemView,
    b: DraftUpdateItemView,
) -> bool {
    match a.value {
        ValueView::String(plain) => if is_secret_item(groups, a.group, a.key) {
            &&& b.group == a.group
            &&& b.key == a.key
            &&& b.value matches ValueView::Secret(c) && decrypted(keys, c) == Ok::<
                Seq<u8>,
                Seq<char>,
            >(encode_utf8(plain))
        } else {
            b == a
        },
        _ => b == a,
    }
}

/// Whether an update brings a text to a secret item that is too long to be encrypted.
pub open spec fn too_long(groups: Seq<GroupDefView>, u: DraftUpdateItemView) -> bool {
    u.value matches ValueView::String(plain) && is_secret_item(groups, u.group, u.key) && !sealable(
        encode_utf8(plain),
    )
}

/// The error for a text that is too long to be encrypted.
pub open spec fn encrypt_failed() -> ErrorView {
    internal_err("encrypt secret: "@ + ("crypto: "@ + "aead: Error"@))
}

/// Encrypts the texts of secret items for a given structure.
pub fn encrypt_updates(cipher: &Cipher, groups: &Vec<GroupDef>, updates: Vec<DraftUpdateItem>) -> (r:
    Result<Vec<DraftUpdateItem>, Error>)
    requires
        cipher@.len() > 0,
    ensures
        (r is Err) == exists|i: int|
            0 <= i < updates@.len() && too_long(views(groups@), (#[trigger] updates@[i])@),
        match r {
            Ok(v) => v@.len() == updates@.len() && forall|i: int|
                0 <= i < v@.len() ==> submitted(
                    cipher@,
                    views(groups@),
                    updates@[i]@,
                    (#[trigger] v@[i])@,
                ),
            Err(e) => e@ == encrypt_failed(),
        },
{
    let mut out: Vec<DraftUpdateItem> = Vec::new();
    let mut i: usize = 0;
    while i < updates.len()
        invariant
            i <= updates@.len(),
            i == out@.len(),
            cipher@.len() > 0,
            forall|j: int|
                0 <= j < i ==> !too_long(views(groups@), (#[trigger] updates@[j])@),
            forall|j: int|
                0 <= j < i ==> submitted(
                    cipher@,
                    views(groups@),
                    updates@[j]@,
                    (#[trigger] out@[j])@,
                ),
        decreases updates@.len() - i,
    {
        let u: &DraftUpdateItem = &updates[i];
        let mut next: DraftUpdateItem = u.dup();
        match &u.value {
            Value::String(plain) => {
                if secret_item(groups, u.group.as_str(), u.key.as_str()) {
                    match cipher.encrypt_secret(plain.as_str().as_bytes()) {
                        Ok(c) => {
                            next.value = Value::Secret(c);
                        },
                        Err(e) => {
                            let mut m: String = "encrypt secret: ".to_owned();
                            m.append(e.text().as_str());
                            assert(too_long(views(groups@), updates@[i as int]@));
                            return Err(Error::internal(m.as_str()));
                        },
                    }
                }
            },
            _ => {},
        }
        out.push(next);
        i = i + 1;
    }
    Ok(out)
}

/// The groups of a structure, where there is one.
pub open spec fn groups_of(s: Option<StructureView>) -> Seq<GroupDefView> {
    match s {
        Some(x) => x.groups,
        None => Seq::empty(),
    }
}

/// Encrypts the texts of secret items of a project before they are submitted; without a cipher nothing
/// changes.
pub fn encrypt_secret_updates<S: Store>(
    sm: &StateMachine<S>,
    cipher: Option<&Cipher>,
    project: &ProjectId,
    updates: Vec<DraftUpdateItem>,
) -> (r: Result<Vec<DraftUpdateItem>, Error>)
    requires
        cipher matches Some(c) ==> c@.len() > 0,
    ensures
        match (r, cipher) {
            (Ok(v), None) => v == updates,
            (Err(_), None) => false,
            (Ok(v), Some(c)) => read::<Structure>(sm@, k_struct(project@)) matches Ok(s)
                && v@.len() == updates@.len() && forall|i: int|
                0 <= i < v@.len() ==> submitted(
                    c@,
                    groups_of(s),
                    updates@[i]@,
                    (#[trigger] v@[i])@,
                ),
            (Err(e), Some(c)) => {
                ||| !sm.reliable()
                ||| match read::<Structure>(sm@, k_struct(project@)) {
                    Err(x) => e@ == x,
                    Ok(s) => e@ == encrypt_failed() && exists|i: int|
                        0 <= i < updates@.len() && too_long(groups_of(s), (#[trigger] updates@[i])@),
                }
            },
        },
{
    let c: &Cipher = match cipher {
        Some(c) => c,
        None => {
            return Ok(updates);
        },
    };
    let groups: Vec<GroupDef> = match sm.get_structure(project)? {
        Some(x) => x.groups,
        None => {
            let none: Vec<GroupDef> = Vec::new();
            assert(views(none@) =~= Seq::empty());
            none
        },
    };
    encrypt_updates(c, &groups, updates)
}

/// No text of a secret item is submitted in the clear.
pub proof fn law_no_secret_in_the_clear(
    keys: Seq<Seq<u8>>,
    groups: Seq<GroupDefView>,
    a: DraftUpdateItemView,
    b: DraftUpdateItemView,
)
    requires
        submitted(keys, groups, a, b),
        is_secret_item(groups, b.group, b.key),
    ensures
        !(b.value is String),
{
}

// ---------------------------------------------------------------------------------------------
// The lock on drafts
// ---------------------------------------------------------------------------------------------

/// Whether a draft that was read at the revision `expected` may be saved: it may not where the branch has
/// another revision by now. Without an expected revision, or without the branch, nothing is in the way.
pub open spec fn rev_checked(s: State, id: Seq<char>, branch: Seq<char>, expected: Option<u64>) -> Result<
    (),
    ErrorView,
> {
    match expected {
        None => Ok(()),
        Some(rev) => match read::<BranchState>(s, k_branch_state(id, branch)) {
            Err(e) => Err(e),
            Ok(None) => Ok(()),
            Ok(Some(st)) => if st.draft_rev == rev {
                Ok(())
            } else {
                Err(rev_conflict(st.draft_rev, rev))
            },
        },
    }
}

pub open spec fn rev_conflict(current: u64, expected: u64) -> ErrorView {
    conflict_err("draft revision is "@ + dec(current as nat) + ", not "@ + dec(expected as nat))
}

/// Refuses to save a draft that was read at another revision than that of the branch.
pub fn check_draft_rev<S: Store>(
    sm: &StateMachine<S>,
    project: &ProjectId,
    branch: &BranchName,
    expected: Option<u64>,
) -> (r: Result<(), Error>)
    ensures
        match r {
            Ok(_) => rev_checked(sm@, project@, branch@, expected) is Ok,
            Err(e) => !sm.reliable() || rev_checked(sm@, project@, branch@, expected) == Err::<
                (),
                ErrorView,
            >(e@),
        },
        sm.reliable() ==> ((r is Err && r->Err_0@.kind == ErrorKind::Conflict) <==> (expected is Some && (
        read::<BranchState>(sm@, k_branch_state(project@, branch@)) matches Ok(Some(st)) && st.draft_rev
            != expected->0))),
{
    match expected {
        None => Ok(()),
        Some(rev) => match sm.get_branch_state(project, branch)? {
            None => Ok(()),
            Some(st) => {
                if st.draft_rev == rev {
                    Ok(())
                } else {
                    let mut m: String = "draft revision is ".to_owned();
                    m.append(decimal(st.draft_rev).as_str());
                    m.append(", not ");
                    m.append(decimal(rev).as_str());
                    Err(Error::conflict(m.as_str()))
                }
            },
        },
    }
}

} // verus!
