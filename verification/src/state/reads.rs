//! Reads.
use vstd::prelude::*;

use crate::dup::{Dup, views};
use crate::error::Error;
use crate::gather::gather;
use crate::keys::{
    K_ADMIN_PW, K_DIFF, K_PA_ACCOUNT, K_PROJECT, K_SESSION, K_SESSIONS, K_SHARED, K_SHARED_DRAFT,
    K_SNAP, admin_session_key, branch_state_key, k_admin_session, k_branch_state, k_pa_session,
    k_pa_session_with, k_project, k_project_admin, k_shared, k_struct, k_struct_draft, k_version,
    pa_session_key, pa_session_key_with, project_admin_key, project_key, refs_prefix, session_key,
    shared_key, struct_draft_key, struct_key, version_key, versions_prefix,
};
use crate::model::{
    AdminSession, BranchName, BranchState, Entry, Project, ProjectAdminAccount, ProjectId,
    RefBinding, SharedItem, Structure, StructureDraft, VersionRecord,
};
use crate::sort::sort;
use crate::state::StateMachine;
use crate::step::{
    Stored, accounts, admin_sessions, finds, history, lists, projects, read, read_as, refs,
    row_account, row_project, row_ref, row_session, row_shared, row_version, shared_under,
};
use crate::store::{KeyValuePairs, Store, row_views};
use crate::text::{after_prefix, has_char, has_suffix, same};

verus! {

impl<S: Store> StateMachine<S> {
    /// The entity under `key`; an entry of another kind is an error that begins with `what`.
    pub(crate) fn load_as<T: Stored>(&self, key: &str, what: &str) -> (r: Result<Option<T>, Error>)
        ensures
            finds(r, read_as::<T>(self@, key@, what@), self.reliable()),
    {
        match self.get_merged(key)? {
            Some(e) => match T::unpack(e) {
                Some(x) => Ok(Some(x)),
                None => {
                    let mut m: String = what.to_owned();
                    m.append(key);
                    Err(Error::internal(m.as_str()))
                },
            },
            None => Ok(None),
        }
    }

    /// The entity under `key`.
    pub fn load_merged<T: Stored>(&self, key: &str) -> (r: Result<Option<T>, Error>)
        ensures
            finds(r, read::<T>(self@, key@), self.reliable()),
    {
        self.load_as(key, "corrupt value at ")
    }

    /// The project with the id.
    pub fn get_project(&self, id: &ProjectId) -> (r: Result<Option<Project>, Error>)
        ensures
            finds(r, read::<Project>(self@, k_project(id@)), self.reliable()),
    {
        self.load_merged(project_key(id).as_str())
    }

    /// The published structure of a project.
    pub fn get_structure(&self, id: &ProjectId) -> (r: Result<Option<Structure>, Error>)
        ensures
            finds(r, read::<Structure>(self@, k_struct(id@)), self.reliable()),
    {
        self.load_merged(struct_key(id).as_str())
    }

    /// The structure draft of a project.
    pub fn get_structure_draft(&self, id: &ProjectId) -> (r: Result<Option<StructureDraft>, Error>)
        ensures
            finds(r, read::<StructureDraft>(self@, k_struct_draft(id@)), self.reliable()),
    {
        self.load_merged(struct_draft_key(id).as_str())
    }

    /// The state of a branch.
    pub fn get_branch_state(&self, id: &ProjectId, branch: &BranchName) -> (r: Result<Option<BranchState>, Error>)
        ensures
            finds(r, read::<BranchState>(self@, k_branch_state(id@, branch@)), self.reliable()),
    {
        self.load_merged(branch_state_key(id, branch).as_str())
    }

    /// The single session of the administrator.
    pub fn get_session(&self) -> (r: Result<Option<AdminSession>, Error>)
        ensures
            finds(r, read::<AdminSession>(self@, K_SESSION@), self.reliable()),
    {
        self.load_merged(session_key())
    }

    /// The session of the administrator with the id.
    pub fn get_session_with(&self, session_id: &str) -> (r: Result<Option<AdminSession>, Error>)
        ensures
            finds(r, read::<AdminSession>(self@, k_admin_session(session_id@)), self.reliable()),
    {
        self.load_merged(admin_session_key(session_id).as_str())
    }

    /// The single session of a project administrator.
    pub fn get_pa_session(&self, username: &str) -> (r: Result<Option<AdminSession>, Error>)
        ensures
            finds(r, read::<AdminSession>(self@, k_pa_session(username@)), self.reliable()),
    {
        self.load_merged(pa_session_key(username).as_str())
    }

    /// The session of a project administrator with the id.
    pub fn get_pa_session_with(&self, username: &str, session_id: &str) -> (r: Result<Option<AdminSession>, Error>)
        ensures
            finds(r, read::<AdminSession>(self@, k_pa_session_with(username@, session_id@)), self.reliable()),
    {
        self.load_merged(pa_session_key_with(username, session_id).as_str())
    }

    /// The account of a project administrator.
    pub fn get_project_admin(&self, username: &str) -> (r: Result<Option<ProjectAdminAccount>, Error>)
        ensures
            finds(r, read::<ProjectAdminAccount>(self@, k_project_admin(username@)), self.reliable()),
    {
        self.load_merged(project_admin_key(username).as_str())
    }

    /// The password hash of the administrator, where one was set.
    pub fn get_admin_password_hash(&self) -> (r: Result<Option<String>, Error>)
        ensures
            finds(r, read::<String>(self@, K_ADMIN_PW@), self.reliable()),
    {
        self.load_merged(K_ADMIN_PW)
    }

    /// The published shared item.
    pub fn get_shared(&self, group: &str, key: &str) -> (r: Result<Option<SharedItem>, Error>)
        ensures
            finds(r, read::<SharedItem>(self@, k_shared(group@, key@)), self.reliable()),
    {
        self.load_merged(shared_key(group, key).as_str())
    }

    /// The record of a version.
    pub fn get_version_record(&self, id: &ProjectId, branch: &BranchName, no: u64) -> (r: Result<Option<VersionRecord>, Error>)
        ensures
            finds(r, read::<VersionRecord>(self@, k_version(id@, branch@, no)), self.reliable()),
    {
        self.load_merged(version_key(id, branch, no).as_str())
    }

    /// All projects, by name.
    pub fn list_projects(&self) -> (r: Result<Vec<Project>, Error>)
        ensures
            lists(r, projects(self@), self.reliable()),
    {
        let mut rows: KeyValuePairs = self.get_prefix_merged(K_PROJECT)?;
        let ghost all = row_views(rows@);
        let ghost f = |i: int| row_project(all[i]);
        let mut out: Vec<Project> = Vec::new();
        let n: usize = rows.len();
        let mut i: usize = 0;
        assert(views(out@) =~= gather(0, f));
        while i < n
            invariant
                i <= n == rows@.len() == all.len(),
                f == |i: int| row_project(all[i]),
                all == row_views(rows@),
                forall|j: int| 0 <= j < all.len() ==> K_PROJECT@.is_prefix_of((#[trigger] all[j]).0),
                views(out@) == gather(i as nat, f),
            decreases n - i,
        {
            let ghost before = views(out@);
            assert(all[i as int] == (rows@[i as int].0@, rows@[i as int].1@));
            assert(gather((i + 1) as nat, f) == gather(i as nat, f) + f(i as int));
            let below: bool = match after_prefix(rows[i].0.as_str(), K_PROJECT) {
                Some(rest) => has_char(rest, '/'),
                None => true,
            };
            if !below {
                match &rows[i].1 {
                    Entry::Project(x) => {
                        out.push(x.dup());
                    },
                    _ => {},
                }
            }
            assert(views(out@) =~= gather((i + 1) as nat, f));
            i = i + 1;
        }
        assert(gather(n as nat, f) == gather(all.len(), |i: int| row_project(all[i])));
        Ok(sort(out))
    }

    /// The records of the versions of a branch, by number.
    pub fn version_history(&self, id: &ProjectId, branch: &BranchName) -> (r: Result<Vec<VersionRecord>, Error>)
        ensures
            lists(r, history(self@, id@, branch@), self.reliable()),
    {
        let mut rows: KeyValuePairs = self.get_prefix_merged(versions_prefix(id, branch).as_str())?;
        let ghost all = row_views(rows@);
        let ghost f = |i: int| row_version(all[i]);
        let mut out: Vec<VersionRecord> = Vec::new();
        let n: usize = rows.len();
        let mut i: usize = 0;
        assert(views(out@) =~= gather(0, f));
        while i < n
            invariant
                i <= n == rows@.len() == all.len(),
                f == |i: int| row_version(all[i]),
                all == row_views(rows@),
                views(out@) == gather(i as nat, f),
            decreases n - i,
        {
            let ghost before = views(out@);
            assert(all[i as int] == (rows@[i as int].0@, rows@[i as int].1@));
            assert(gather((i + 1) as nat, f) == gather(i as nat, f) + f(i as int));
            let content: bool = has_suffix(rows[i].0.as_str(), K_SNAP) || has_suffix(
                rows[i].0.as_str(),
                K_DIFF,
            );
            if !content {
                match &rows[i].1 {
                    Entry::Version(x) => {
                        out.push(x.dup());
                    },
                    _ => {},
                }
            }
            assert(views(out@) =~= gather((i + 1) as nat, f));
            i = i + 1;
        }
        assert(gather(n as nat, f) == gather(all.len(), |i: int| row_version(all[i])));
        Ok(sort(out))
    }

    /// The drafts of shared items, by group and key.
    pub fn list_shared_drafts(&self) -> (r: Result<Vec<SharedItem>, Error>)
        ensures
            lists(r, shared_under(self@, K_SHARED_DRAFT@), self.reliable()),
    {
        let mut rows: KeyValuePairs = self.get_prefix_merged(K_SHARED_DRAFT)?;
        let ghost all = row_views(rows@);
        let ghost f = |i: int| row_shared(all[i]);
        let mut out: Vec<SharedItem> = Vec::new();
        let n: usize = rows.len();
        let mut i: usize = 0;
        assert(views(out@) =~= gather(0, f));
        while i < n
            invariant
                i <= n == rows@.len() == all.len(),
                f == |i: int| row_shared(all[i]),
                all == row_views(rows@),
                views(out@) == gather(i as nat, f),
            decreases n - i,
        {
            let ghost before = views(out@);
            assert(all[i as int] == (rows@[i as int].0@, rows@[i as int].1@));
            assert(gather((i + 1) as nat, f) == gather(i as nat, f) + f(i as int));
            match &rows[i].1 {
                Entry::Shared(x) => {
                    out.push(x.dup());
                },
                _ => {},
            }
            assert(views(out@) =~= gather((i + 1) as nat, f));
            i = i + 1;
        }
        assert(gather(n as nat, f) == gather(all.len(), |i: int| row_shared(all[i])));
        Ok(sort(out))
    }

    /// The published shared items, by group and key.
    pub fn list_shared_published(&self) -> (r: Result<Vec<SharedItem>, Error>)
        ensures
            lists(r, shared_under(self@, K_SHARED@), self.reliable()),
    {
        let mut rows: KeyValuePairs = self.get_prefix_merged(K_SHARED)?;
        let ghost all = row_views(rows@);
        let ghost f = |i: int| row_shared(all[i]);
        let mut out: Vec<SharedItem> = Vec::new();
        let n: usize = rows.len();
        let mut i: usize = 0;
        assert(views(out@) =~= gather(0, f));
        while i < n
            invariant
                i <= n == rows@.len() == all.len(),
                f == |i: int| row_shared(all[i]),
                all == row_views(rows@),
                views(out@) == gather(i as nat, f),
            decreases n - i,
        {
            let ghost before = views(out@);
            assert(all[i as int] == (rows@[i as int].0@, rows@[i as int].1@));
            assert(gather((i + 1) as nat, f) == gather(i as nat, f) + f(i as int));
            match &rows[i].1 {
                Entry::Shared(x) => {
                    out.push(x.dup());
                },
                _ => {},
            }
            assert(views(out@) =~= gather((i + 1) as nat, f));
            i = i + 1;
        }
        assert(gather(n as nat, f) == gather(all.len(), |i: int| row_shared(all[i])));
        Ok(sort(out))
    }

    /// The references of a project.
    pub fn list_refs(&self, project: &ProjectId) -> (r: Result<Vec<RefBinding>, Error>)
        ensures
            lists(r, refs(self@, project@), self.reliable()),
    {
        let mut rows: KeyValuePairs = self.get_prefix_merged(refs_prefix(project).as_str())?;
        let ghost all = row_views(rows@);
        let ghost f = |i: int| row_ref(all[i]);
        let mut out: Vec<RefBinding> = Vec::new();
        let n: usize = rows.len();
        let mut i: usize = 0;
        assert(views(out@) =~= gather(0, f));
        while i < n
            invariant
                i <= n == rows@.len() == all.len(),
                f == |i: int| row_ref(all[i]),
                all == row_views(rows@),
                views(out@) == gather(i as nat, f),
            decreases n - i,
        {
            let ghost before = views(out@);
            assert(all[i as int] == (rows@[i as int].0@, rows@[i as int].1@));
            assert(gather((i + 1) as nat, f) == gather(i as nat, f) + f(i as int));
            match &rows[i].1 {
                Entry::Ref(x) => {
                    out.push(x.dup());
                },
                _ => {},
            }
            assert(views(out@) =~= gather((i + 1) as nat, f));
            i = i + 1;
        }
        assert(gather(n as nat, f) == gather(all.len(), |i: int| row_ref(all[i])));
        Ok(out)
    }

    /// The accounts of the administrators of a project, by name.
    pub fn list_project_admins(&self, project: &str) -> (r: Result<Vec<ProjectAdminAccount>, Error>)
        ensures
            lists(r, accounts(self@, project@), self.reliable()),
    {
        let mut rows: KeyValuePairs = self.get_prefix_merged(K_PA_ACCOUNT)?;
        let ghost all = row_views(rows@);
        let ghost f = |i: int| row_account(all[i], project@);
        let mut out: Vec<ProjectAdminAccount> = Vec::new();
        let n: usize = rows.len();
        let mut i: usize = 0;
        assert(views(out@) =~= gather(0, f));
        while i < n
            invariant
                i <= n == rows@.len() == all.len(),
                f == |i: int| row_account(all[i], project@),
                all == row_views(rows@),
                views(out@) == gather(i as nat, f),
            decreases n - i,
        {
            let ghost before = views(out@);
            assert(all[i as int] == (rows@[i as int].0@, rows@[i as int].1@));
            assert(gather((i + 1) as nat, f) == gather(i as nat, f) + f(i as int));
            match &rows[i].1 {
                Entry::Account(x) => {
                    if same(x.project.as_str(), project) {
                        out.push(x.dup());
                    }
                },
                _ => {},
            }
            assert(views(out@) =~= gather((i + 1) as nat, f));
            i = i + 1;
        }
        assert(gather(n as nat, f) == gather(all.len(), |i: int| row_account(all[i], project@)));
        Ok(sort(out))
    }

    /// The sessions of the administrator that have an id.
    pub fn list_admin_sessions(&self) -> (r: Result<Vec<AdminSession>, Error>)
        ensures
            lists(r, admin_sessions(self@), self.reliable()),
    {
        let mut rows: KeyValuePairs = self.get_prefix_merged(K_SESSIONS)?;
        let ghost all = row_views(rows@);
        let ghost f = |i: int| row_session(all[i]);
        let mut out: Vec<AdminSession> = Vec::new();
        let n: usize = rows.len();
        let mut i: usize = 0;
        assert(views(out@) =~= gather(0, f));
        while i < n
            invariant
                i <= n == rows@.len() == all.len(),
                f == |i: int| row_session(all[i]),
                all == row_views(rows@),
                views(out@) == gather(i as nat, f),
            decreases n - i,
        {
            let ghost before = views(out@);
            assert(all[i as int] == (rows@[i as int].0@, rows@[i as int].1@));
            assert(gather((i + 1) as nat, f) == gather(i as nat, f) + f(i as int));
            match &rows[i].1 {
                Entry::Session(x) => {
                    out.push(x.dup());
                },
                _ => {},
            }
            assert(views(out@) =~= gather((i + 1) as nat, f));
            i = i + 1;
        }
        assert(gather(n as nat, f) == gather(all.len(), |i: int| row_session(all[i])));
        Ok(out)
    }

}

} // verus!
