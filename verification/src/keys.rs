//! The keys under which the store holds the entities.
use vstd::prelude::*;
use vstd::string::{StrSliceExecFns, StringExecFns};

use crate::dup::view_opt;
use crate::model::{BranchName, ProjectId};
use crate::text::{dec, decimal};

verus! {

pub const K_PROJECT: &'static str = "p/";

pub const K_STRUCT: &'static str = "/struct";

pub const K_STRUCT_DRAFT: &'static str = "/struct-draft";

pub const K_BRANCH: &'static str = "/b/";

pub const K_STATE: &'static str = "/state";

pub const K_VERSION: &'static str = "/v/";

/// The full content of a version.
pub const K_SNAP: &'static str = "/snap";

/// The changes that a version makes.
pub const K_DIFF: &'static str = "/diff";

pub const K_REF: &'static str = "/refs/";

pub const K_SHARED: &'static str = "sh/";

pub const K_SHARED_DRAFT: &'static str = "sh-draft/";

pub const K_SESSION: &'static str = "sess/admin";

/// Sessions of the administrator, one for each session id.
pub const K_SESSIONS: &'static str = "sess/admin/";

/// Sessions of project administrators.
pub const K_PA_SESSION: &'static str = "sess/pa/";

/// Accounts of project administrators.
pub const K_PA_ACCOUNT: &'static str = "adm/pa/";

/// The password hash of the administrator.
pub const K_ADMIN_PW: &'static str = "sess/admin-pw";

pub const K_AUDIT: &'static str = "audit/";

/// The number of the last audit entry.
pub const K_AUDIT_SEQ: &'static str = "audit/seq";

pub const K_IDX_PNAME: &'static str = "idx/pname/";

pub const K_IDX_REF: &'static str = "idx/ref/";

/// References to whole groups.
pub const K_IDX_REFG: &'static str = "idx/refg/";

/// The key of a project.
pub open spec fn k_project(id: Seq<char>) -> Seq<char> {
    K_PROJECT@ + id
}

/// The key of a project.
pub fn project_key(id: &ProjectId) -> (r: String)
    ensures
        r@ == k_project(id@),
{
    let mut k: String = K_PROJECT.to_owned();
    k.append(id.as_str());
    k
}

/// The key of the published structure of a project.
pub open spec fn k_struct(id: Seq<char>) -> Seq<char> {
    K_PROJECT@ + id + K_STRUCT@
}

/// The key of the published structure of a project.
pub fn struct_key(id: &ProjectId) -> (r: String)
    ensures
        r@ == k_struct(id@),
{
    let mut k: String = K_PROJECT.to_owned();
    k.append(id.as_str());
    k.append(K_STRUCT);
    k
}

/// The key of the structure draft of a project.
pub open spec fn k_struct_draft(id: Seq<char>) -> Seq<char> {
    K_PROJECT@ + id + K_STRUCT_DRAFT@
}

/// The key of the structure draft of a project.
pub fn struct_draft_key(id: &ProjectId) -> (r: String)
    ensures
        r@ == k_struct_draft(id@),
{
    let mut k: String = K_PROJECT.to_owned();
    k.append(id.as_str());
    k.append(K_STRUCT_DRAFT);
    k
}

/// What the keys of all branches of a project begin with.
pub open spec fn k_branches_prefix(id: Seq<char>) -> Seq<char> {
    K_PROJECT@ + id + K_BRANCH@
}

/// What the keys of all branches of a project begin with.
pub fn branches_prefix(id: &ProjectId) -> (r: String)
    ensures
        r@ == k_branches_prefix(id@),
{
    let mut k: String = K_PROJECT.to_owned();
    k.append(id.as_str());
    k.append(K_BRANCH);
    k
}

/// What the keys of a branch begin with.
pub open spec fn k_branch_prefix(id: Seq<char>, branch: Seq<char>) -> Seq<char> {
    K_PROJECT@ + id + K_BRANCH@ + branch
}

/// What the keys of a branch begin with.
pub fn branch_prefix(id: &ProjectId, branch: &BranchName) -> (r: String)
    ensures
        r@ == k_branch_prefix(id@, branch@),
{
    let mut k: String = K_PROJECT.to_owned();
    k.append(id.as_str());
    k.append(K_BRANCH);
    k.append(branch.as_str());
    k
}

/// The key of the state of a branch.
pub open spec fn k_branch_state(id: Seq<char>, branch: Seq<char>) -> Seq<char> {
    K_PROJECT@ + id + K_BRANCH@ + branch + K_STATE@
}

/// The key of the state of a branch.
pub fn branch_state_key(id: &ProjectId, branch: &BranchName) -> (r: String)
    ensures
        r@ == k_branch_state(id@, branch@),
{
    let mut k: String = K_PROJECT.to_owned();
    k.append(id.as_str());
    k.append(K_BRANCH);
    k.append(branch.as_str());
    k.append(K_STATE);
    k
}

/// What the keys of all versions of a branch begin with.
pub open spec fn k_versions_prefix(id: Seq<char>, branch: Seq<char>) -> Seq<char> {
    K_PROJECT@ + id + K_BRANCH@ + branch + K_VERSION@
}

/// What the keys of all versions of a branch begin with.
pub fn versions_prefix(id: &ProjectId, branch: &BranchName) -> (r: String)
    ensures
        r@ == k_versions_prefix(id@, branch@),
{
    let mut k: String = K_PROJECT.to_owned();
    k.append(id.as_str());
    k.append(K_BRANCH);
    k.append(branch.as_str());
    k.append(K_VERSION);
    k
}

/// The key of the record of a version.
pub open spec fn k_version(id: Seq<char>, branch: Seq<char>, no: u64) -> Seq<char> {
    K_PROJECT@ + id + K_BRANCH@ + branch + K_VERSION@ + dec(no as nat)
}

/// The key of the record of a version.
pub fn version_key(id: &ProjectId, branch: &BranchName, no: u64) -> (r: String)
    ensures
        r@ == k_version(id@, branch@, no),
{
    let mut k: String = K_PROJECT.to_owned();
    k.append(id.as_str());
    k.append(K_BRANCH);
    k.append(branch.as_str());
    k.append(K_VERSION);
    k.append(decimal(no).as_str());
    k
}

/// The key of the full content of a version.
pub open spec fn k_snapshot(id: Seq<char>, branch: Seq<char>, no: u64) -> Seq<char> {
    K_PROJECT@ + id + K_BRANCH@ + branch + K_VERSION@ + dec(no as nat) + K_SNAP@
}

/// The key of the full content of a version.
pub fn snapshot_key(id: &ProjectId, branch: &BranchName, no: u64) -> (r: String)
    ensures
        r@ == k_snapshot(id@, branch@, no),
{
    let mut k: String = K_PROJECT.to_owned();
    k.append(id.as_str());
    k.append(K_BRANCH);
    k.append(branch.as_str());
    k.append(K_VERSION);
    k.append(decimal(no).as_str());
    k.append(K_SNAP);
    k
}

/// The key of the changes that a version makes.
pub open spec fn k_diff(id: Seq<char>, branch: Seq<char>, no: u64) -> Seq<char> {
    K_PROJECT@ + id + K_BRANCH@ + branch + K_VERSION@ + dec(no as nat) + K_DIFF@
}

/// The key of the changes that a version makes.
pub fn diff_key(id: &ProjectId, branch: &BranchName, no: u64) -> (r: String)
    ensures
        r@ == k_diff(id@, branch@, no),
{
    let mut k: String = K_PROJECT.to_owned();
    k.append(id.as_str());
    k.append(K_BRANCH);
    k.append(branch.as_str());
    k.append(K_VERSION);
    k.append(decimal(no).as_str());
    k.append(K_DIFF);
    k
}

/// What the keys of the references of a project begin with.
pub open spec fn k_refs_prefix(id: Seq<char>) -> Seq<char> {
    K_PROJECT@ + id + K_REF@
}

/// What the keys of the references of a project begin with.
pub fn refs_prefix(id: &ProjectId) -> (r: String)
    ensures
        r@ == k_refs_prefix(id@),
{
    let mut k: String = K_PROJECT.to_owned();
    k.append(id.as_str());
    k.append(K_REF);
    k
}

/// The key of a published shared item.
pub open spec fn k_shared(group: Seq<char>, key: Seq<char>) -> Seq<char> {
    K_SHARED@ + group + "/"@ + key
}

/// The key of a published shared item.
pub fn shared_key(group: &str, key: &str) -> (r: String)
    ensures
        r@ == k_shared(group@, key@),
{
    let mut k: String = K_SHARED.to_owned();
    k.append(group);
    k.append("/");
    k.append(key);
    k
}

/// What the keys of the published items of a shared group begin with.
pub open spec fn k_shared_prefix(group: Seq<char>) -> Seq<char> {
    K_SHARED@ + group + "/"@
}

/// What the keys of the published items of a shared group begin with.
pub fn shared_prefix(group: &str) -> (r: String)
    ensures
        r@ == k_shared_prefix(group@),
{
    let mut k: String = K_SHARED.to_owned();
    k.append(group);
    k.append("/");
    k
}

/// The key of the draft of a shared item.
pub open spec fn k_shared_draft(group: Seq<char>, key: Seq<char>) -> Seq<char> {
    K_SHARED_DRAFT@ + group + "/"@ + key
}

/// The key of the draft of a shared item.
pub fn shared_draft_key(group: &str, key: &str) -> (r: String)
    ensures
        r@ == k_shared_draft(group@, key@),
{
    let mut k: String = K_SHARED_DRAFT.to_owned();
    k.append(group);
    k.append("/");
    k.append(key);
    k
}

/// The key of a session of the administrator.
pub open spec fn k_admin_session(session_id: Seq<char>) -> Seq<char> {
    K_SESSIONS@ + session_id
}

/// The key of a session of the administrator.
pub fn admin_session_key(session_id: &str) -> (r: String)
    ensures
        r@ == k_admin_session(session_id@),
{
    let mut k: String = K_SESSIONS.to_owned();
    k.append(session_id);
    k
}

/// The key of the account of a project administrator.
pub open spec fn k_project_admin(username: Seq<char>) -> Seq<char> {
    K_PA_ACCOUNT@ + username
}

/// The key of the account of a project administrator.
pub fn project_admin_key(username: &str) -> (r: String)
    ensures
        r@ == k_project_admin(username@),
{
    let mut k: String = K_PA_ACCOUNT.to_owned();
    k.append(username);
    k
}

/// The key of the single session of a project administrator.
pub open spec fn k_pa_session(username: Seq<char>) -> Seq<char> {
    K_PA_SESSION@ + username
}

/// The key of the single session of a project administrator.
pub fn pa_session_key(username: &str) -> (r: String)
    ensures
        r@ == k_pa_session(username@),
{
    let mut k: String = K_PA_SESSION.to_owned();
    k.append(username);
    k
}

/// What the keys of the sessions of a project administrator begin with.
pub open spec fn k_pa_sessions_prefix(username: Seq<char>) -> Seq<char> {
    K_PA_SESSION@ + username + "/"@
}

/// What the keys of the sessions of a project administrator begin with.
pub fn pa_sessions_prefix(username: &str) -> (r: String)
    ensures
        r@ == k_pa_sessions_prefix(username@),
{
    let mut k: String = K_PA_SESSION.to_owned();
    k.append(username);
    k.append("/");
    k
}

/// The key of one session of a project administrator.
pub open spec fn k_pa_session_with(username: Seq<char>, session_id: Seq<char>) -> Seq<char> {
    K_PA_SESSION@ + username + "/"@ + session_id
}

/// The key of one session of a project administrator.
pub fn pa_session_key_with(username: &str, session_id: &str) -> (r: String)
    ensures
        r@ == k_pa_session_with(username@, session_id@),
{
    let mut k: String = K_PA_SESSION.to_owned();
    k.append(username);
    k.append("/");
    k.append(session_id);
    k
}

/// The key that marks the name of a project as taken.
pub open spec fn k_idx_pname(name: Seq<char>) -> Seq<char> {
    K_IDX_PNAME@ + name
}

/// The key that marks the name of a project as taken.
pub fn idx_pname(name: &str) -> (r: String)
    ensures
        r@ == k_idx_pname(name@),
{
    let mut k: String = K_IDX_PNAME.to_owned();
    k.append(name);
    k
}

/// What the keys of the references to a shared item begin with.
pub open spec fn k_idx_ref(shared_group: Seq<char>, shared_key: Seq<char>) -> Seq<char> {
    K_IDX_REF@ + shared_group + "/"@ + shared_key
}

/// What the keys of the references to a shared item begin with.
pub fn idx_ref(shared_group: &str, shared_key: &str) -> (r: String)
    ensures
        r@ == k_idx_ref(shared_group@, shared_key@),
{
    let mut k: String = K_IDX_REF.to_owned();
    k.append(shared_group);
    k.append("/");
    k.append(shared_key);
    k
}

/// What the keys of the references to a shared group begin with.
pub open spec fn k_idx_refg(shared_group: Seq<char>) -> Seq<char> {
    K_IDX_REFG@ + shared_group
}

/// What the keys of the references to a shared group begin with.
pub fn idx_refg(shared_group: &str) -> (r: String)
    ensures
        r@ == k_idx_refg(shared_group@),
{
    let mut k: String = K_IDX_REFG.to_owned();
    k.append(shared_group);
    k
}

/// The key that marks a reference to a shared item.
pub open spec fn k_ref_index(shared_group: Seq<char>, shared_key: Seq<char>, project: Seq<char>, group: Seq<char>, item_key: Seq<char>) -> Seq<char> {
    K_IDX_REF@ + shared_group + "/"@ + shared_key + "/"@ + project + "/"@ + group + "/"@ + item_key
}

/// The key that marks a reference to a shared item.
pub fn ref_index_key(shared_group: &str, shared_key: &str, project: &ProjectId, group: &str, item_key: &str) -> (r: String)
    ensures
        r@ == k_ref_index(shared_group@, shared_key@, project@, group@, item_key@),
{
    let mut k: String = K_IDX_REF.to_owned();
    k.append(shared_group);
    k.append("/");
    k.append(shared_key);
    k.append("/");
    k.append(project.as_str());
    k.append("/");
    k.append(group);
    k.append("/");
    k.append(item_key);
    k
}

/// The key that marks a reference to a shared group.
pub open spec fn k_group_ref_index(shared_group: Seq<char>, project: Seq<char>, group: Seq<char>) -> Seq<char> {
    K_IDX_REFG@ + shared_group + "/"@ + project + "/"@ + group
}

/// The key that marks a reference to a shared group.
pub fn group_ref_index_key(shared_group: &str, project: &ProjectId, group: &str) -> (r: String)
    ensures
        r@ == k_group_ref_index(shared_group@, project@, group@),
{
    let mut k: String = K_IDX_REFG.to_owned();
    k.append(shared_group);
    k.append("/");
    k.append(project.as_str());
    k.append("/");
    k.append(group);
    k
}

/// The key of a reference of a project: to one item, or to a whole group.
pub open spec fn k_ref(id: Seq<char>, group: Seq<char>, item_key: Option<Seq<char>>) -> Seq<char> {
    match item_key {
        Some(k) => K_PROJECT@ + id + K_REF@ + group + "/"@ + k,
        None => K_PROJECT@ + id + K_REF@ + group,
    }
}

/// The key of a reference of a project: to one item, or to a whole group.
pub fn ref_key(id: &ProjectId, group: &str, item_key: Option<&str>) -> (r: String)
    ensures
        r@ == k_ref(id@, group@, view_opt(item_key)),
{
    let mut k: String = K_PROJECT.to_owned();
    k.append(id.as_str());
    k.append(K_REF);
    k.append(group);
    match item_key {
        Some(item) => {
            k.append("/");
            k.append(item);
        },
        None => {},
    }
    k
}

/// The key of the session of the administrator.
pub fn session_key() -> (r: &'static str)
    ensures
        r@ == K_SESSION@,
{
    K_SESSION
}

/// `n` zeros.
pub open spec fn zeros(n: nat) -> Seq<char> {
    Seq::new(n, |i: int| '0')
}

/// A number in decimal, with zeros before it up to twenty digits.
pub open spec fn padded(n: nat) -> Seq<char> {
    if dec(n).len() < 20 {
        zeros((20 - dec(n).len()) as nat) + dec(n)
    } else {
        dec(n)
    }
}

/// The key of an entry of the audit trail.
pub open spec fn k_audit(seq: u64) -> Seq<char> {
    K_AUDIT@ + padded(seq as nat)
}

/// The key of an entry of the audit trail.
pub fn audit_key(seq: u64) -> (r: String)
    ensures
        r@ == k_audit(seq),
{
    let digits: String = decimal(seq);
    let len: usize = digits.as_str().unicode_len();
    let mut k: String = K_AUDIT.to_owned();
    let mut n: usize = len;
    proof {
        reveal_strlit("0");
        assert(k@ =~= K_AUDIT@ + zeros(0));
    }
    while n < 20
        invariant
            len <= n,
            n <= 20 || n == len,
            k@ == K_AUDIT@ + zeros((n - len) as nat),
        decreases 20 - n,
    {
        proof {
            reveal_strlit("0");
        }
        k.append("0");
        assert(zeros((n + 1 - len) as nat) =~= zeros((n - len) as nat) + "0"@);
        assert(k@ =~= K_AUDIT@ + zeros((n + 1 - len) as nat));
        n = n + 1;
    }
    k.append(digits.as_str());
    assert(k@ =~= k_audit(seq));
    k
}

} // verus!
