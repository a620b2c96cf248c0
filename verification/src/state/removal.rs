//! Deleting a project with everything that belongs to it.
use vstd::prelude::*;

use crate::dup::views;
use crate::error::Error;
use crate::keys::{
    K_IDX_REF, K_IDX_REFG, idx_pname, pa_session_key, pa_sessions_prefix, project_admin_key,
    project_key,
};
use crate::model::{Project, ProjectAdminAccount, ProjectId};
use crate::ordmap::{has_row, is_listing};
use crate::state::{ApplyOutcome, StateMachine};
use crate::state::projects::{add_keys, lemma_under_rows, no_events, no_project, push_key};
use crate::step::accounts;
use crate::store::{KeyValuePairs, Store, row_views, under};
use crate::text::{after_prefix, same, split, split_on};
use crate::transition::{
    account_key, account_owns, applies, goes_with_project, project_delete, ref_mark, session_of,
};

verus! {

impl<S: Store> StateMachine<S> {
    /// Adds to `keys` the marks of references whose keys, behind `prefix`, have `parts` parts with the
    /// project at `at`.
    fn add_marks(
        &self,
        keys: &mut Vec<String>,
        id: &ProjectId,
        prefix: &str,
        parts: usize,
        at: usize,
    ) -> (r: Result<(), Error>)
        requires
            at < parts,
        ensures
            r is Err ==> !self.reliable(),
            r is Ok ==> forall|k: Seq<char>| #[trigger]
                views(final(keys)@).contains(k) <==> views(old(keys)@).contains(k) || (
                self@.contains_key(k) && is_mark(id@, prefix@, parts as int, at as int, k)),
    {
        let rows: KeyValuePairs = self.get_prefix_merged(prefix)?;
        let ghost all = row_views(rows@);
        let ghost start = views(keys@);
        let ghost s = self@;
        let mut i: usize = 0;
        while i < rows.len()
            invariant
                i <= rows@.len() == all.len(),
                at < parts,
                all == row_views(rows@),
                is_listing(under(s, prefix@), all),
                forall|k: Seq<char>| #[trigger]
                    views(keys@).contains(k) <==> start.contains(k) || exists|j: int|
                        0 <= j < i && #[trigger] all[j].0 == k && is_mark(
                            id@,
                            prefix@,
                            parts as int,
                            at as int,
                            k,
                        ),
            decreases rows@.len() - i,
        {
            let ghost before = views(keys@);
            let key: &String = &rows[i].0;
            assert(all[i as int].0 == key@);
            let mut hit: bool = false;
            match after_prefix(key.as_str(), prefix) {
                Some(rest) => {
                    let pieces: Vec<String> = split(rest, '/');
                    assert(views(pieces@) == split_on(rest@, '/'));
                    if pieces.len() == parts {
                        assert(views(pieces@)[at as int] == pieces@[at as int]@);
                        hit = same(pieces[at].as_str(), id.as_str());
                    }
                },
                None => {},
            }
            assert(hit == is_mark(id@, prefix@, parts as int, at as int, key@));
            if hit {
                push_key(keys, key.clone());
            }
            proof {
                assert forall|k: Seq<char>| #[trigger] views(keys@).contains(k) <==> start.contains(k)
                    || exists|j: int|
                    0 <= j < i + 1 && #[trigger] all[j].0 == k && is_mark(
                        id@,
                        prefix@,
                        parts as int,
                        at as int,
                        k,
                    ) by {
                    if before.contains(k) && !start.contains(k) {
                        let j = choose|j: int|
                            0 <= j < i && #[trigger] all[j].0 == k && is_mark(
                                id@,
                                prefix@,
                                parts as int,
                                at as int,
                                k,
                            );
                        assert(all[j].0 == k);
                    }
                    if k == key@ && hit {
                        assert(all[i as int].0 == k);
                    }
                }
            }
            i = i + 1;
        }
        proof {
            lemma_under_rows(s, prefix@, all);
            assert forall|k: Seq<char>| #[trigger] views(keys@).contains(k) <==> start.contains(k) || (
            s.contains_key(k) && is_mark(id@, prefix@, parts as int, at as int, k)) by {
                if s.contains_key(k) && is_mark(id@, prefix@, parts as int, at as int, k) {
                    assert(has_row(all, k));
                    let j = choose|j: int| 0 <= j < all.len() && #[trigger] all[j].0 == k;
                    assert(all[j].0 == k);
                }
                if views(keys@).contains(k) && !start.contains(k) {
                    assert(has_row(all, k));
                }
            }
        }
        Ok(())
    }

    /// Adds to `keys` the sessions of a project administrator.
    pub(crate) fn add_sessions(&self, keys: &mut Vec<String>, username: &str) -> (r: Result<(), Error>)
        ensures
            r is Err ==> !self.reliable(),
            r is Ok ==> forall|k: Seq<char>|
                self@.contains_key(k) ==> (#[trigger] views(final(keys)@).contains(k) <==> views(
                    old(keys)@,
                ).contains(k) || session_of(username@, k)),
    {
        let prefix: String = pa_sessions_prefix(username);
        let rows: KeyValuePairs = self.get_prefix_merged(prefix.as_str())?;
        proof {
            lemma_under_rows(self@, prefix@, row_views(rows@));
        }
        add_keys(keys, &rows);
        push_key(keys, pa_session_key(username));
        Ok(())
    }

    /// Adds to `keys` the accounts of a project and their sessions.
    fn add_accounts(&self, keys: &mut Vec<String>, id: &ProjectId) -> (r: Result<(), Error>)
        ensures
            r is Err ==> !self.reliable(),
            r is Ok ==> forall|k: Seq<char>|
                self@.contains_key(k) ==> (#[trigger] views(final(keys)@).contains(k) <==> views(
                    old(keys)@,
                ).contains(k) || account_key(self@, id@, k)),
    {
        let list: Vec<ProjectAdminAccount> = self.list_project_admins(id.as_str())?;
        let ghost all = accounts(self@, id@);
        let ghost start = views(keys@);
        let mut i: usize = 0;
        while i < list.len()
            invariant
                i <= list@.len(),
                all == views(list@),
                forall|k: Seq<char>|
                    self@.contains_key(k) ==> (#[trigger] views(keys@).contains(k) <==> start.contains(k)
                        || exists|j: int| 0 <= j < i && account_owns(#[trigger] all[j].username, k)),
            decreases list@.len() - i,
        {
            let ghost before = views(keys@);
            let name: &str = list[i].username.as_str();
            assert(all[i as int].username == name@);
            self.add_sessions(keys, name)?;
            push_key(keys, project_admin_key(name));
            proof {
                assert forall|k: Seq<char>| self@.contains_key(k) implies (#[trigger] views(
                    keys@,
                ).contains(k) <==> start.contains(k) || exists|j: int|
                    0 <= j < i + 1 && account_owns(#[trigger] all[j].username, k)) by {
                    if before.contains(k) && !start.contains(k) {
                        let j = choose|j: int| 0 <= j < i && account_owns(#[trigger] all[j].username, k);
                        assert(account_owns(all[j].username, k));
                    }
                    if account_owns(all[i as int].username, k) {
                        assert(views(keys@).contains(k));
                    }
                }
            }
            i = i + 1;
        }
        Ok(())
    }

    pub fn apply_project_delete(&mut self, id: &ProjectId, operator: &str) -> (r: ApplyOutcome)
        ensures
            applies(r, project_delete(old(self)@, id@), final(self)@, old(self).reliable()),
            r is Err ==> final(self)@ == old(self)@,
            final(self).base() == old(self).base(),
            final(self).reliable() == old(self).reliable(),
    {
        proof {
            reveal(project_delete);
        }
        let project: Project = match self.get_project(id)? {
            Some(p) => p,
            None => {
                return Err(no_project(id));
            },
        };
        let prefix: String = project_key(id);
        let rows: KeyValuePairs = self.get_prefix_merged(prefix.as_str())?;
        let ghost s = self@;
        let mut keys: Vec<String> = Vec::new();
        add_keys(&mut keys, &rows);
        push_key(&mut keys, idx_pname(project.name.as_str()));
        self.add_accounts(&mut keys, id)?;
        self.add_marks(&mut keys, id, K_IDX_REF, 5, 2)?;
        self.add_marks(&mut keys, id, K_IDX_REFG, 3, 1)?;
        self.delete_each(&keys);
        proof {
            lemma_under_rows(s, prefix@, row_views(rows@));
            let gone = Set::new(|k: Seq<char>| goes_with_project(s, id@, project@.name, k));
            assert forall|k: Seq<char>| s.contains_key(k) implies #[trigger] views(keys@).contains(k)
                == gone.contains(k) by {
                assert(ref_mark(id@, k) == (is_mark(id@, K_IDX_REF@, 5, 2, k) || is_mark(
                    id@,
                    K_IDX_REFG@,
                    3,
                    1,
                    k,
                )));
            }
            assert(self@ =~= s.remove_keys(gone));
        }
        no_events()
    }
}

/// Whether the key, behind `prefix`, has `parts` parts with the project at `at`.
spec fn is_mark(id: Seq<char>, prefix: Seq<char>, parts: int, at: int, k: Seq<char>) -> bool {
    prefix.is_prefix_of(k) && split_on(k.skip(prefix.len() as int), '/').len() == parts && split_on(
        k.skip(prefix.len() as int),
        '/',
    )[at] == id
}

} // verus!
