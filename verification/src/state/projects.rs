//! Commands on projects and branches.
use vstd::prelude::*;
use vstd::std_specs::iter::IteratorSpec;
use vstd::string::{StrSliceExecFns, StringExecFns};

use crate::dup::{Dup, view_opt, views};
use crate::error::Error;
use crate::keys::{branch_prefix, branch_state_key, idx_pname, project_key, struct_key};
use crate::limits::{MAX_BRANCHES_PER_PROJECT, MAX_PROJECTS, MAX_PROJECT_NAME_BYTES};
use crate::model::{
    BranchName, BranchState, DraftValue, DraftValueView, Entry, EntryView, GroupDef, Project,
    ProjectId, PublishEvent, PublishEventView, SnapshotMap, Structure, Value, ValueView,
};
use crate::ordmap::{OrdMap, Recast, has_row, is_listing};
use crate::outside::quote;
use crate::state::{ApplyOutcome, StateMachine};
use crate::state::versions::branch_missing;
use crate::step::{is_branch_name, is_project_name, is_slug, slug_char};
use crate::store::{KeyValuePairs, State, Store, delete_all, row_views, under};
use crate::transition::{
    applies, branch_create, branch_delete, draft_from, of_branch, project_create, project_missing,
};

verus! {

/// Whether `name` is made of 1 to `max` lower-case letters, digits and hyphens, of which the first is no
/// hyphen.
fn valid_slug(name: &str, max: usize) -> (r: bool)
    ensures
        r == is_slug(name@, max as nat),
{
    let n: usize = name.unicode_len();
    if n == 0 || n > max {
        return false;
    }
    let mut it = name.chars();
    let mut i: usize = 0;
    while i < n
        invariant
            i <= n == name@.len(),
            it.remaining() == name@.skip(i as int),
            forall|j: int| 0 <= j < i ==> slug_char(#[trigger] name@[j]),
        decreases n - i,
    {
        let c: char = match it.next() {
            Some(c) => c,
            None => {
                return false;
            },
        };
        assert(c == name@[i as int]);
        if !(('a' <= c && c <= 'z') || ('0' <= c && c <= '9') || c == '-') {
            assert(!slug_char(name@[i as int]));
            return false;
        }
        i = i + 1;
    }
    name.get_char(0) != '-'
}

/// Whether `name` may name a project.
pub fn valid_name(name: &str) -> (r: bool)
    ensures
        r == is_project_name(name@),
{
    valid_slug(name, MAX_PROJECT_NAME_BYTES)
}

/// Whether `name` may name a branch.
pub fn valid_branch(name: &str) -> (r: bool)
    ensures
        r == is_branch_name(name@),
{
    valid_slug(name, 64)
}

/// The texts one after another.
pub(crate) fn text3(a: &str, b: &str, c: &str) -> (r: String)
    ensures
        r@ == a@ + b@ + c@,
{
    let mut m: String = a.to_owned();
    m.append(b);
    m.append(c);
    m
}

pub(crate) fn text2(a: &str, b: &str) -> (r: String)
    ensures
        r@ == a@ + b@,
{
    let mut m: String = a.to_owned();
    m.append(b);
    m
}

/// The project is not there.
pub(crate) fn no_project(id: &ProjectId) -> (r: Error)
    ensures
        r@ == project_missing(id@),
{
    Error::not_found(text2("project ", id.as_str()).as_str())
}

/// An outcome without events.
pub(crate) fn no_events() -> (r: ApplyOutcome)
    ensures
        r matches Ok(v) && views(v@) == Seq::<PublishEventView>::empty(),
{
    let v: Vec<PublishEvent> = Vec::new();
    assert(views(v@) =~= Seq::empty());
    Ok(v)
}

/// The mark of an index.
pub(crate) fn mark() -> (r: Entry)
    ensures
        r@ == EntryView::Text("1"@),
{
    Entry::Text("1".to_owned())
}

/// Adds to `keys` the keys of the rows.
pub(crate) fn add_keys(keys: &mut Vec<String>, rows: &KeyValuePairs)
    ensures
        forall|k: Seq<char>| #[trigger]
            views(final(keys)@).contains(k) <==> views(old(keys)@).contains(k) || has_row(
                row_views(rows@),
                k,
            ),
{
    let ghost start = views(keys@);
    let ghost all = row_views(rows@);
    let mut i: usize = 0;
    while i < rows.len()
        invariant
            i <= rows@.len() == all.len(),
            all == row_views(rows@),
            forall|k: Seq<char>| #[trigger]
                views(keys@).contains(k) <==> start.contains(k) || exists|j: int|
                    0 <= j < i && #[trigger] all[j].0 == k,
        decreases rows@.len() - i,
    {
        let ghost before = views(keys@);
        push_key(keys, rows[i].0.clone());
        proof {
            assert(all[i as int].0 == rows@[i as int].0@);
            assert forall|k: Seq<char>| #[trigger] views(keys@).contains(k) <==> start.contains(k)
                || exists|j: int| 0 <= j < i + 1 && #[trigger] all[j].0 == k by {
                if before.contains(k) && !start.contains(k) {
                    let j = choose|j: int| 0 <= j < i && #[trigger] all[j].0 == k;
                    assert(all[j].0 == k);
                }
                if k == all[i as int].0 {
                    assert(views(keys@).contains(k));
                }
            }
        }
        i = i + 1;
    }
}

pub(crate) fn push_key(keys: &mut Vec<String>, key: String)
    ensures
        forall|k: Seq<char>| #[trigger]
            views(final(keys)@).contains(k) <==> views(old(keys)@).contains(k) || k == key@,
{
    let ghost before = views(keys@);
    let ghost x = key@;
    keys.push(key);
    let ghost now = views(keys@);
    proof {
        assert(now =~= before.push(x));
        assert forall|k: Seq<char>| #[trigger] now.contains(k) <==> before.contains(k) || k == x by {
            if before.contains(k) {
                let j = before.index_of(k);
                assert(now[j] == k);
            }
            if k == x {
                assert(now[now.len() - 1] == k);
            }
            if now.contains(k) && k != x {
                let j = now.index_of(k);
                assert(before[j] == k);
            }
        }
    }
}

impl<S: Store> StateMachine<S> {
    /// Holds back the deletion of each key.
    pub(crate) fn delete_each(&mut self, keys: &Vec<String>)
        ensures
            final(self)@ == delete_all(old(self)@, views(keys@)),
            final(self).base() == old(self).base(),
            final(self).reliable() == old(self).reliable(),
    {
        let ghost start = self@;
        let ghost all = views(keys@);
        let mut i: usize = 0;
        assert(delete_all(start, all.take(0)) =~= start);
        while i < keys.len()
            invariant
                i <= keys@.len(),
                all == views(keys@),
                self@ == delete_all(start, all.take(i as int)),
                self.base() == old(self).base(),
                self.reliable() == old(self).reliable(),
            decreases keys@.len() - i,
        {
            self.delete_pending(keys[i].as_str());
            proof {
                let a = all.take(i as int);
                let b = all.take(i + 1);
                assert(b =~= a.push(all[i as int]));
                assert forall|k: Seq<char>| b.contains(k) == (a.contains(k) || k == all[i as int]) by {
                    if k == all[i as int] {
                        assert(b[i as int] == k);
                    }
                    if a.contains(k) {
                        let j = a.index_of(k);
                        assert(b[j] == k);
                    }
                    if b.contains(k) && k != all[i as int] {
                        let j = b.index_of(k);
                        assert(a[j] == k);
                    }
                }
                assert(delete_all(start, a).remove(all[i as int]) =~= delete_all(start, b));
            }
            i = i + 1;
        }
        assert(all.take(i as int) =~= all);
    }

    pub fn apply_project_create(&mut self, name: &str, now_ms: i64, operator: &str) -> (r: ApplyOutcome)
        ensures
            applies(r, project_create(old(self)@, name@, now_ms), final(self)@, old(self).reliable()),
            r is Err ==> final(self)@ == old(self)@,
            final(self).base() == old(self).base(),
            final(self).reliable() == old(self).reliable(),
    {
        proof {
            reveal(project_create);
        }
        if !valid_name(name) {
            return Err(
                Error::validation(text2("invalid project name: ", quote(name).as_str()).as_str()),
            );
        }
        let count: usize = self.list_projects()?.len();
        if count >= MAX_PROJECTS {
            return Err(Error::limit_exceeded("too many projects"));
        }
        let id: ProjectId = ProjectId(name.to_owned());
        if self.get_project(&id)?.is_some() {
            return Err(Error::conflict(text3("project ", name, " already exists").as_str()));
        }
        let project: Project = Project { id: id.dup(), name: name.to_owned(), created_at: now_ms };
        self.put_pending(project_key(&id), Entry::Project(project));
        self.put_pending(idx_pname(name), mark());
        let groups: Vec<GroupDef> = Vec::new();
        assert(views(groups@) =~= Seq::empty());
        self.put_pending(struct_key(&id), Entry::Structure(Structure { version: 1, groups }));
        let dev: BranchName = BranchName(BranchName::DEV.to_owned());
        self.put_pending(branch_state_key(&id, &dev), Entry::Branch(BranchState::new(1)));
        let test: BranchName = BranchName(BranchName::TEST.to_owned());
        self.put_pending(branch_state_key(&id, &test), Entry::Branch(BranchState::new(1)));
        let prod: BranchName = BranchName(BranchName::PROD.to_owned());
        self.put_pending(branch_state_key(&id, &prod), Entry::Branch(BranchState::new(1)));
        no_events()
    }

    pub fn apply_branch_delete(&mut self, id: &ProjectId, name: &BranchName, operator: &str) -> (r:
        ApplyOutcome)
        ensures
            applies(r, branch_delete(old(self)@, id@, name@), final(self)@, old(self).reliable()),
            r is Err ==> final(self)@ == old(self)@,
            final(self).base() == old(self).base(),
            final(self).reliable() == old(self).reliable(),
    {
        proof {
            reveal(branch_delete);
        }
        let st: BranchState = match self.get_branch_state(id, name)? {
            Some(st) => st,
            None => {
                return Err(branch_missing(id, name));
            },
        };
        if st.active_version > 0 || !st.value_draft.is_empty() {
            return Err(Error::conflict("branch has published versions or pending draft"));
        }
        let prefix: String = branch_prefix(id, name);
        let rows: KeyValuePairs = self.get_prefix_merged(prefix.as_str())?;
        let mut keys: Vec<String> = Vec::new();
        add_keys(&mut keys, &rows);
        let ghost s = self@;
        self.delete_each(&keys);
        proof {
            let gone = Set::new(|k: Seq<char>| of_branch(id@, name@, k));
            lemma_under_rows(s, prefix@, row_views(rows@));
            assert(self@ =~= s.remove_keys(gone));
        }
        no_events()
    }

    pub fn apply_branch_create(
        &mut self,
        id: &ProjectId,
        name: &BranchName,
        source: Option<&BranchName>,
        now_ms: i64,
        operator: &str,
    ) -> (r: ApplyOutcome)
        ensures
            applies(
                r,
                branch_create(old(self)@, id@, name@, view_opt(source), now_ms),
                final(self)@,
                old(self).reliable(),
            ),
            r is Err ==> final(self)@ == old(self)@,
            final(self).base() == old(self).base(),
            final(self).reliable() == old(self).reliable(),
    {
        proof {
            reveal(branch_create);
        }
        if !valid_branch(name.as_str()) {
            return Err(
                Error::validation(
                    text3(
                        "invalid branch name: BranchName(",
                        quote(name.as_str()).as_str(),
                        ")",
                    ).as_str(),
                ),
            );
        }
        if self.get_project(id)?.is_none() {
            return Err(no_project(id));
        }
        if self.get_branch_state(id, name)?.is_some() {
            return Err(Error::conflict(text3("branch ", name.as_str(), " exists").as_str()));
        }
        let count: usize = self.list_branches(id)?.len();
        if count >= MAX_BRANCHES_PER_PROJECT {
            return Err(Error::limit_exceeded("too many branches"));
        }
        let version: u64 = match self.get_structure(id)? {
            Some(x) => x.version,
            None => 1,
        };
        let mut state: BranchState = BranchState::new(version);
        match source {
            Some(src) => {
                let from: BranchState = match self.get_branch_state(id, src)? {
                    Some(st) => st,
                    None => {
                        return Err(
                            Error::validation(
                                text3("source branch ", src.as_str(), " not found").as_str(),
                            ),
                        );
                    },
                };
                if from.active_version == 0 {
                    return Err(
                        Error::validation(
                            text3(
                                "source branch ",
                                src.as_str(),
                                " has no published version",
                            ).as_str(),
                        ),
                    );
                }
                let snap: SnapshotMap = self.snapshot_of(id, src, from.active_version)?;
                state.value_draft = as_draft(&snap, now_ms);
            },
            None => {},
        }
        self.put_pending(branch_state_key(id, name), Entry::Branch(state));
        no_events()
    }
}

/// The rows under a prefix are those whose keys begin with it.
pub(crate) proof fn lemma_under_rows(s: State, prefix: Seq<char>, rows: Seq<(Seq<char>, EntryView)>)
    requires
        is_listing(under(s, prefix), rows),
    ensures
        forall|k: Seq<char>| #[trigger]
            has_row(rows, k) <==> s.contains_key(k) && prefix.is_prefix_of(k),
{
    assert forall|k: Seq<char>| #[trigger] has_row(rows, k) <==> s.contains_key(k)
        && prefix.is_prefix_of(k) by {
        if has_row(rows, k) {
            let i = choose|i: int| 0 <= i < rows.len() && #[trigger] rows[i].0 == k;
            assert(under(s, prefix).contains_key(rows[i].0));
        }
        if s.contains_key(k) && prefix.is_prefix_of(k) {
            assert(under(s, prefix).contains_key(k));
        }
    }
}

/// Values become draft values of one time.
pub(crate) struct ToDraft {
    pub(crate) now_ms: i64,
}

impl Recast<Value, DraftValue> for ToDraft {
    open spec fn recast_of(&self, v: ValueView) -> DraftValueView {
        DraftValueView { value: v, updated_at: self.now_ms }
    }

    fn recast(&self, v: &Value) -> (u: DraftValue) {
        DraftValue { value: v.dup(), updated_at: self.now_ms }
    }
}

impl Recast<OrdMap<Value>, OrdMap<DraftValue>> for ToDraft {
    open spec fn recast_of(&self, v: Map<Seq<char>, ValueView>) -> Map<Seq<char>, DraftValueView> {
        v.map_values(|x: ValueView| DraftValueView { value: x, updated_at: self.now_ms })
    }

    fn recast(&self, v: &OrdMap<Value>) -> (u: OrdMap<DraftValue>) {
        let u: OrdMap<DraftValue> = v.map_values(self);
        assert(u@ =~= v@.map_values(
            |x: ValueView| DraftValueView { value: x, updated_at: self.now_ms },
        ));
        u
    }
}

/// The values of a version as a draft.
fn as_draft(snap: &SnapshotMap, now_ms: i64) -> (r: OrdMap<OrdMap<DraftValue>>)
    ensures
        r@ == draft_from(snap@, now_ms),
{
    let f: ToDraft = ToDraft { now_ms };
    let r: OrdMap<OrdMap<DraftValue>> = snap.map_values(&f);
    assert(r@ =~= draft_from(snap@, now_ms));
    r
}

} // verus!
