//! What the state machine reads and what its commands do, as functions of the state.
use vstd::prelude::*;

use crate::diff::{apply_all, diff_of};
use crate::dup::{view_opt, views};
use crate::error::{Error, ErrorView, internal_err, not_found_err};
use crate::gather::gather;
use crate::keys::{
    K_AUDIT, K_DIFF, K_PA_ACCOUNT, K_PROJECT, K_SESSIONS, K_SNAP, k_branch_state,
    k_branches_prefix, k_diff, k_refs_prefix, k_snapshot, k_struct, k_version, k_versions_prefix,
};
use crate::limits::MAX_PROJECT_NAME_BYTES;
use crate::model::{
    AdminSessionView, AuditEntry, AuditEntryView, BranchState, DiffEntryView, Entry, EntryView,
    Project, ProjectAdminAccount, ProjectAdminAccountView, ProjectView, RefBindingView, SharedItem,
    SharedItemView, SnapView, SnapshotMap, Structure, VersionKind, VersionRecord,
    VersionRecordView,
};
use crate::ordmap::listing;
use crate::sort::sorted;
use crate::store::{State, scan};
use crate::text::{dec, ends_with, number_of};

verus! {

// ---------------------------------------------------------------------------------------------
// Reading entries
// ---------------------------------------------------------------------------------------------

/// An entity that the store holds.
pub trait Stored: View + Sized {
    /// The entity in an entry, where the entry holds one of this kind.
    spec fn pick(e: EntryView) -> Option<Self::V>;

    fn unpack(e: Entry) -> (r: Option<Self>)
        ensures
            match r {
                Some(x) => Self::pick(e@) == Some(x@),
                None => Self::pick(e@) is None,
            },
    ;
}

/// The entity under `key`; an entry of another kind is an error that begins with `what`.
pub open spec fn read_as<T: Stored>(s: State, key: Seq<char>, what: Seq<char>) -> Result<
    Option<T::V>,
    ErrorView,
> {
    if !s.contains_key(key) {
        Ok(None)
    } else {
        match T::pick(s[key]) {
            Some(v) => Ok(Some(v)),
            None => Err(internal_err(what + key)),
        }
    }
}

/// The entity under `key`.
pub open spec fn read<T: Stored>(s: State, key: Seq<char>) -> Result<Option<T::V>, ErrorView> {
    read_as::<T>(s, key, "corrupt value at "@)
}

/// The entity under `key`, which has to be there.
pub open spec fn need<T: Stored>(s: State, key: Seq<char>, missing: ErrorView) -> Result<
    T::V,
    ErrorView,
> {
    match read::<T>(s, key) {
        Ok(Some(v)) => Ok(v),
        Ok(None) => Err(missing),
        Err(e) => Err(e),
    }
}

/// The result is the wanted one, or the store failed.
pub open spec fn gives<T: View>(
    r: Result<T, Error>,
    want: Result<T::V, ErrorView>,
    reliable: bool,
) -> bool {
    match r {
        Ok(x) => want == Ok::<T::V, ErrorView>(x@),
        Err(e) => !reliable || want == Err::<T::V, ErrorView>(e@),
    }
}

/// The result is the wanted one, or the store failed.
pub open spec fn finds<T: View>(
    r: Result<Option<T>, Error>,
    want: Result<Option<T::V>, ErrorView>,
    reliable: bool,
) -> bool {
    match r {
        Ok(x) => want == Ok::<Option<T::V>, ErrorView>(view_opt(x)),
        Err(e) => !reliable || want == Err::<Option<T::V>, ErrorView>(e@),
    }
}

/// The result is the wanted list, or the store failed.
pub open spec fn lists<T: View>(r: Result<Vec<T>, Error>, want: Seq<T::V>, reliable: bool) -> bool {
    match r {
        Ok(v) => views(v@) == want,
        Err(_) => !reliable,
    }
}

/// The steps `f` over `xs`, one after another, up to the first error.
pub open spec fn fold_steps<A, X>(
    xs: Seq<X>,
    a: A,
    f: spec_fn(A, X) -> Result<A, ErrorView>,
) -> Result<A, ErrorView>
    decreases xs.len(),
{
    if xs.len() == 0 {
        Ok(a)
    } else {
        match fold_steps(xs.drop_last(), a, f) {
            Ok(b) => f(b, xs.last()),
            Err(e) => Err(e),
        }
    }
}

/// An error in the first steps is the error of all.
pub proof fn lemma_fold_error<A, X>(
    xs: Seq<X>,
    n: int,
    a: A,
    f: spec_fn(A, X) -> Result<A, ErrorView>,
)
    requires
        0 <= n <= xs.len(),
        fold_steps(xs.take(n), a, f) is Err,
    ensures
        fold_steps(xs, a, f) == fold_steps(xs.take(n), a, f),
    decreases xs.len() - n,
{
    if n < xs.len() {
        assert(xs.take(n + 1).drop_last() =~= xs.take(n));
        lemma_fold_error(xs, n + 1, a, f);
    } else {
        assert(xs.take(n) =~= xs);
    }
}

// ---------------------------------------------------------------------------------------------
// Names
// ---------------------------------------------------------------------------------------------

pub open spec fn slug_char(c: char) -> bool {
    ('a' <= c <= 'z') || ('0' <= c <= '9') || c == '-'
}

/// A name of 1 to `max` lower-case letters, digits and hyphens, of which the first is no hyphen.
pub open spec fn is_slug(s: Seq<char>, max: nat) -> bool {
    0 < s.len() <= max && (forall|i: int| 0 <= i < s.len() ==> slug_char(#[trigger] s[i])) && s[0]
        != '-'
}

/// The name of a project.
pub open spec fn is_project_name(s: Seq<char>) -> bool {
    is_slug(s, MAX_PROJECT_NAME_BYTES as nat)
}

/// The name of a branch.
pub open spec fn is_branch_name(s: Seq<char>) -> bool {
    is_slug(s, 64)
}

pub open spec fn account_char(c: char) -> bool {
    ('a' <= c <= 'z') || ('A' <= c <= 'Z') || ('0' <= c <= '9') || c == '_' || c == '-'
}

/// The name of a project administrator.
pub open spec fn is_account_name(s: Seq<char>) -> bool {
    2 <= s.len() <= 64 && s != "admin"@ && forall|i: int|
        0 <= i < s.len() ==> account_char(#[trigger] s[i])
}

// ---------------------------------------------------------------------------------------------
// Reads
// ---------------------------------------------------------------------------------------------

pub open spec fn row_project(row: (Seq<char>, EntryView)) -> Seq<ProjectView> {
    if row.0.skip(K_PROJECT@.len() as int).contains('/') {
        Seq::empty()
    } else {
        match row.1 {
            EntryView::Project(p) => seq![p],
            _ => Seq::empty(),
        }
    }
}

/// All projects, by name.
pub open spec fn projects(s: State) -> Seq<ProjectView> {
    let rows = scan(s, K_PROJECT@);
    sorted::<Project>(gather(rows.len(), |i: int| row_project(rows[i])))
}

/// Whether some key belongs to the branch `n` of the project.
pub open spec fn has_branch(s: State, id: Seq<char>, n: Seq<char>) -> bool {
    n.len() > 0 && !n.contains('/') && exists|k: Seq<char>|
        s.contains_key(k) && (k_branches_prefix(id) + n + "/"@).is_prefix_of(k)
}

/// The keys of a listing.
pub open spec fn keys_of<T>(m: Map<Seq<char>, T>) -> Seq<Seq<char>> {
    Seq::new(listing(m).len(), |i: int| listing(m)[i].0)
}

pub open spec fn branch_map(s: State, id: Seq<char>) -> Map<Seq<char>, bool> {
    Map::new(|n: Seq<char>| has_branch(s, id, n), |n: Seq<char>| true)
}

/// The names of the branches of a project, in ascending order.
pub open spec fn branches(s: State, id: Seq<char>) -> Seq<Seq<char>> {
    keys_of(branch_map(s, id))
}

pub open spec fn row_audit(
    row: (Seq<char>, EntryView),
    action: Option<Seq<char>>,
    project: Option<Seq<char>>,
    since: Option<i64>,
) -> Seq<AuditEntryView> {
    if number_of(row.0.skip(K_AUDIT@.len() as int), u64::MAX as nat) is None {
        Seq::empty()
    } else {
        match row.1 {
            EntryView::Audit(e) => if (action is Some ==> e.action == action->0) && (project is Some
                ==> e.project == project) && (since is Some ==> e.ts >= since->0) {
                seq![e]
            } else {
                Seq::empty()
            },
            _ => Seq::empty(),
        }
    }
}

/// The entries of the audit trail that pass the filters, the newest first, at most `limit` of them.
pub open spec fn audit(
    s: State,
    action: Option<Seq<char>>,
    project: Option<Seq<char>>,
    since: Option<i64>,
    limit: nat,
) -> Seq<AuditEntryView> {
    let rows = scan(s, K_AUDIT@);
    let all = sorted::<AuditEntry>(
        gather(rows.len(), |i: int| row_audit(rows[i], action, project, since)),
    );
    if all.len() > limit {
        all.take(limit as int)
    } else {
        all
    }
}

pub open spec fn row_version(row: (Seq<char>, EntryView)) -> Seq<VersionRecordView> {
    if ends_with(row.0, K_SNAP@) || ends_with(row.0, K_DIFF@) {
        Seq::empty()
    } else {
        match row.1 {
            EntryView::Version(r) => seq![r],
            _ => Seq::empty(),
        }
    }
}

/// The records of the versions of a branch, by number.
pub open spec fn history(s: State, id: Seq<char>, branch: Seq<char>) -> Seq<VersionRecordView> {
    let rows = scan(s, k_versions_prefix(id, branch));
    sorted::<VersionRecord>(gather(rows.len(), |i: int| row_version(rows[i])))
}

pub open spec fn row_shared(row: (Seq<char>, EntryView)) -> Seq<SharedItemView> {
    match row.1 {
        EntryView::Shared(i) => seq![i],
        _ => Seq::empty(),
    }
}

pub open spec fn shared_under(s: State, prefix: Seq<char>) -> Seq<SharedItemView> {
    let rows = scan(s, prefix);
    sorted::<SharedItem>(gather(rows.len(), |i: int| row_shared(rows[i])))
}

pub open spec fn row_ref(row: (Seq<char>, EntryView)) -> Seq<RefBindingView> {
    match row.1 {
        EntryView::Ref(b) => seq![b],
        _ => Seq::empty(),
    }
}

/// The references of a project, in the order of their keys.
pub open spec fn refs(s: State, id: Seq<char>) -> Seq<RefBindingView> {
    let rows = scan(s, k_refs_prefix(id));
    gather(rows.len(), |i: int| row_ref(rows[i]))
}

pub open spec fn row_account(row: (Seq<char>, EntryView), project: Seq<char>) -> Seq<
    ProjectAdminAccountView,
> {
    match row.1 {
        EntryView::Account(a) => if a.project == project {
            seq![a]
        } else {
            Seq::empty()
        },
        _ => Seq::empty(),
    }
}

/// The accounts of the administrators of a project, by name.
pub open spec fn accounts(s: State, project: Seq<char>) -> Seq<ProjectAdminAccountView> {
    let rows = scan(s, K_PA_ACCOUNT@);
    sorted::<ProjectAdminAccount>(gather(rows.len(), |i: int| row_account(rows[i], project)))
}

pub open spec fn row_session(row: (Seq<char>, EntryView)) -> Seq<AdminSessionView> {
    match row.1 {
        EntryView::Session(x) => seq![x],
        _ => Seq::empty(),
    }
}

/// The sessions of the administrator that have an id, in the order of the ids.
pub open spec fn admin_sessions(s: State) -> Seq<AdminSessionView> {
    let rows = scan(s, K_SESSIONS@);
    gather(rows.len(), |i: int| row_session(rows[i]))
}

// ---------------------------------------------------------------------------------------------
// Versions
// ---------------------------------------------------------------------------------------------

/// Whether the full content of a version is stored.
pub open spec fn is_checkpoint(v: int) -> bool {
    v == 1 || v % 100 == 0
}

/// The version whose full content the content of `v` is rebuilt from.
pub open spec fn base_of(v: int) -> int {
    if v % 100 == 0 {
        v
    } else if v < 100 {
        1
    } else {
        v - v % 100
    }
}

/// The content of the version `w`, rebuilt from the full content of `start` by the changes that follow
/// it; nothing where a link is missing.
pub open spec fn rebuild(s: State, id: Seq<char>, branch: Seq<char>, start: int, w: int) -> Result<
    Option<SnapView>,
    ErrorView,
>
    decreases w - start,
{
    if w <= start {
        read_as::<SnapshotMap>(s, k_snapshot(id, branch, start as u64), "corrupt snapshot "@)
    } else {
        match rebuild(s, id, branch, start, w - 1) {
            Ok(Some(m)) => match read_as::<DiffLog>(
                s,
                k_diff(id, branch, w as u64),
                "corrupt diff "@,
            ) {
                Ok(Some(d)) => Ok(Some(apply_all(m, d))),
                Ok(None) => Ok(None),
                Err(e) => Err(e),
            },
            r => r,
        }
    }
}

/// The content of a version: rebuilt from its checkpoint, or, where a link is missing, read as it was
/// stored in full.
pub open spec fn snapshot(s: State, id: Seq<char>, branch: Seq<char>, v: u64) -> Result<
    SnapView,
    ErrorView,
> {
    if v == 0 {
        Err(not_found_err("version 0 of "@ + branch))
    } else {
        match rebuild(s, id, branch, base_of(v as int), v as int) {
            Ok(Some(m)) => Ok(m),
            Ok(None) => match read_as::<SnapshotMap>(
                s,
                k_snapshot(id, branch, v),
                "corrupt snapshot "@,
            ) {
                Ok(Some(m)) => Ok(m),
                Ok(None) => Err(
                    not_found_err("version "@ + dec(v as nat) + " of "@ + branch),
                ),
                Err(e) => Err(e),
            },
            Err(e) => Err(e),
        }
    }
}

/// A configuration as it is read: the content of a version, and the structure as it is now.
#[verifier::ext_equal]
pub struct ConfigView {
    pub project: Seq<char>,
    pub branch: Seq<char>,
    pub version: u64,
    pub structure_version: u64,
    pub groups: SnapView,
}

/// The configuration of a branch at `version`, or, for 0, at its active version.
pub open spec fn config(s: State, id: Seq<char>, branch: Seq<char>, version: u64) -> Result<
    ConfigView,
    ErrorView,
> {
    match need::<BranchState>(
        s,
        k_branch_state(id, branch),
        not_found_err("branch "@ + branch + " of "@ + id),
    ) {
        Err(e) => Err(e),
        Ok(st) => {
            let v = if version == 0 {
                st.active_version
            } else {
                version
            };
            if v == 0 {
                Err(not_found_err("no published version yet"@))
            } else {
                match snapshot(s, id, branch, v) {
                    Err(e) => Err(e),
                    Ok(groups) => match read::<Structure>(s, k_struct(id)) {
                        Err(e) => Err(e),
                        Ok(structure) => Ok(
                            ConfigView {
                                project: id,
                                branch,
                                version: v,
                                structure_version: match structure {
                                    Some(x) => x.version,
                                    None => 0,
                                },
                                groups,
                            },
                        ),
                    },
                }
            }
        },
    }
}

/// The content of the active version; nothing before the first publish.
pub open spec fn active_content(s: State, id: Seq<char>, branch: Seq<char>, v: u64) -> Result<
    SnapView,
    ErrorView,
> {
    if v == 0 {
        Ok(Map::empty())
    } else {
        snapshot(s, id, branch, v)
    }
}

/// The state with the record and the content of a version: in full for a checkpoint, as changes from
/// `old` for any other.
pub open spec fn with_version(
    s: State,
    id: Seq<char>,
    branch: Seq<char>,
    old: SnapView,
    new: SnapView,
    record: VersionRecordView,
) -> State {
    if is_checkpoint(record.no as int) {
        s.insert(k_snapshot(id, branch, record.no), EntryView::Snapshot(new)).insert(
            k_version(id, branch, record.no),
            EntryView::Version(VersionRecordView { kind: VersionKind::Full, ..record }),
        )
    } else {
        s.insert(k_diff(id, branch, record.no), EntryView::Diff(diff_of(old, new))).insert(
            k_version(id, branch, record.no),
            EntryView::Version(VersionRecordView { kind: VersionKind::Diff, ..record }),
        )
    }
}

/// The changes of a version, as the store holds them.
#[derive(Debug)]
pub struct DiffLog {
    pub entries: Vec<crate::model::DiffEntry>,
}

impl View for DiffLog {
    type V = Seq<DiffEntryView>;

    open spec fn view(&self) -> Seq<DiffEntryView> {
        views(self.entries@)
    }
}

} // verus!
