//! Commands on drafts and structures.
use vstd::prelude::*;
use vstd::string::StringExecFns;

use crate::command::{DraftUpdateItem, DraftUpdateItemView};
use crate::diff::{compute_diff, set_item};
use crate::dup::{Dup, dup_vec, pair_views, views};
use crate::error::{Detail, Error, ErrorKind, ErrorView};
use crate::json::value_json;
use crate::keys::{
    branch_state_key, diff_key, snapshot_key, struct_draft_key, struct_key, version_key,
};
use crate::limits::{CHECKPOINT_INTERVAL, MAX_ITEMS_PER_PROJECT, MAX_VALUE_BYTES};
use crate::model::{
    BranchName, BranchState, DiffEntry, DraftValue, Entry, EventType, GroupDef, GroupDefView,
    ItemDef, ItemDefView, ProjectId, PublishEvent, SnapshotMap, Structure, StructureDraft,
    VersionKind, VersionRecord,
};
use crate::ordmap::{OrdMap, has_row, is_listing, listing};
use crate::state::{ApplyOutcome, PendingOp, StateMachine};
use crate::state::projects::{no_events, no_project, text3};
use crate::state::versions::branch_missing;
use crate::step::{fold_steps, lemma_fold_error, with_version};
use crate::store::Store;
use crate::text::{decimal, join, same};
use crate::transition::{
    Progress, after_deletes, after_updates, applies, blocked_by, check_update, def_in, def_of,
    draft_size, draft_update, has_item, kept_draft, kept_keys, next_number, operator_of, proceeds,
    publish_structure, structure_draft_set, structure_step,
};
use crate::validator::{byte_len, validate_structure, validate_value};

verus! {

/// The number after `v`.
pub(crate) fn next_after(v: u64) -> (r: Result<u64, Error>)
    ensures
        match r {
            Ok(n) => next_number(v) == Ok::<u64, ErrorView>(n),
            Err(e) => next_number(v) == Err::<u64, ErrorView>(e@),
        },
{
    if v == u64::MAX {
        Err(Error::internal("number overflow"))
    } else {
        Ok(v + 1)
    }
}

/// The error that lists what is wrong.
pub(crate) fn blocked(messages: Vec<String>) -> (r: Error)
    ensures
        r@ == blocked_by(views(messages@)),
{
    Error::publish_blocked(Detail { name: "errors".to_owned(), messages })
}

/// Who gave a command: an empty name stands for the administrator.
pub(crate) fn operator_id(operator: &str) -> (r: String)
    ensures
        r@ == operator_of(operator@),
{
    if operator.is_empty() {
        "admin".to_owned()
    } else {
        operator.to_owned()
    }
}

/// The definition with the key, the last one where there are several.
pub(crate) fn find_item<'a>(items: &'a Vec<ItemDef>, key: &str) -> (r: Option<&'a ItemDef>)
    ensures
        match r {
            Some(d) => def_in(views(items@), items@.len(), key@) == Some(d@),
            None => def_in(views(items@), items@.len(), key@) is None,
        },
{
    let ghost all = views(items@);
    let mut i: usize = items.len();
    while i > 0
        invariant
            i <= items@.len(),
            all == views(items@),
            def_in(all, items@.len(), key@) == def_in(all, i as nat, key@),
        decreases i,
    {
        i = i - 1;
        assert(all[i as int] == items@[i as int]@);
        if same(items[i].key.as_str(), key) {
            return Some(&items[i]);
        }
    }
    None
}

/// The definition of an item, the last one where the structure has several.
fn find_def<'a>(groups: &'a Vec<GroupDef>, group: &str, key: &str) -> (r: Option<&'a ItemDef>)
    ensures
        match r {
            Some(d) => def_of(views(groups@), groups@.len(), group@, key@) == Some(d@),
            None => def_of(views(groups@), groups@.len(), group@, key@) is None,
        },
{
    let ghost all = views(groups@);
    let mut i: usize = groups.len();
    while i > 0
        invariant
            i <= groups@.len(),
            all == views(groups@),
            def_of(all, groups@.len(), group@, key@) == def_of(all, i as nat, group@, key@),
        decreases i,
    {
        i = i - 1;
        assert(all[i as int] == groups@[i as int]@);
        if same(groups[i].name.as_str(), group) {
            match find_item(&groups[i].items, key) {
                Some(d) => {
                    return Some(d);
                },
                None => {},
            }
        }
    }
    None
}

/// An item that the definitions have is one that the structure has, and the other way round.
proof fn lemma_def_in(items: Seq<ItemDefView>, n: nat, k: Seq<char>)
    requires
        n <= items.len(),
    ensures
        def_in(items, n, k) is Some <==> exists|j: int| 0 <= j < n && (#[trigger] items[j]).key == k,
    decreases n,
{
    if n > 0 {
        lemma_def_in(items, (n - 1) as nat, k);
        if items[n - 1].key == k {
            assert(items[n - 1].key == k);
        }
    }
}

proof fn lemma_def_of(groups: Seq<GroupDefView>, n: nat, g: Seq<char>, k: Seq<char>)
    requires
        n <= groups.len(),
    ensures
        def_of(groups, n, g, k) is Some <==> exists|i: int, j: int|
            0 <= i < n && 0 <= j < groups[i].items.len() && groups[i].name == g && (
            #[trigger] groups[i].items[j]).key == k,
    decreases n,
{
    if n > 0 {
        let last = groups[n - 1];
        lemma_def_of(groups, (n - 1) as nat, g, k);
        lemma_def_in(last.items, last.items.len(), k);
        if last.name == g && def_in(last.items, last.items.len(), k) is Some {
            let j = choose|j: int| 0 <= j < last.items.len() && (#[trigger] last.items[j]).key == k;
            assert(groups[n - 1].items[j].key == k);
        }
        if exists|i: int, j: int|
            0 <= i < n && 0 <= j < groups[i].items.len() && groups[i].name == g && (
            #[trigger] groups[i].items[j]).key == k {
            let (i, j) = choose|i: int, j: int|
                0 <= i < n && 0 <= j < groups[i].items.len() && groups[i].name == g && (
                #[trigger] groups[i].items[j]).key == k;
            if i == n - 1 {
                assert(last.items[j].key == k);
            } else {
                assert(groups[i].items[j].key == k);
            }
        }
    }
}

/// Whether the structure has the item.
pub(crate) fn structure_has(groups: &Vec<GroupDef>, group: &str, key: &str) -> (r: bool)
    ensures
        r == has_item(views(groups@), group@, key@),
{
    proof {
        lemma_def_of(views(groups@), groups@.len(), group@, key@);
    }
    find_def(groups, group, key).is_some()
}

/// The number of items of a draft, counted no further than one above the limit.
fn count_draft(draft: &OrdMap<OrdMap<DraftValue>>) -> (r: usize)
    ensures
        draft_size(listing(draft@)) <= MAX_ITEMS_PER_PROJECT ==> r == draft_size(listing(draft@)),
        draft_size(listing(draft@)) > MAX_ITEMS_PER_PROJECT ==> r == MAX_ITEMS_PER_PROJECT + 1,
{
    let n: usize = draft.len();
    let ghost rows = listing(draft@);
    let mut total: usize = 0;
    let mut i: usize = 0;
    assert(rows.take(0) =~= Seq::empty());
    while i < n
        invariant
            i <= n == rows.len(),
            rows == listing(draft@),
            draft_size(rows.take(i as int)) <= MAX_ITEMS_PER_PROJECT ==> total == draft_size(
                rows.take(i as int),
            ),
            draft_size(rows.take(i as int)) > MAX_ITEMS_PER_PROJECT ==> total == MAX_ITEMS_PER_PROJECT
                + 1,
        decreases n - i,
    {
        assert(rows.take(i + 1).drop_last() =~= rows.take(i as int));
        let len: usize = draft.value_at(i).len();
        if total > MAX_ITEMS_PER_PROJECT || len > MAX_ITEMS_PER_PROJECT - total {
            total = MAX_ITEMS_PER_PROJECT + 1;
        } else {
            total = total + len;
        }
        i = i + 1;
    }
    assert(rows.take(i as int) =~= rows);
    total
}

/// Checks the updates of a draft.
fn check_updates(
    groups: &Vec<GroupDef>,
    draft: &OrdMap<OrdMap<DraftValue>>,
    updates: &Vec<DraftUpdateItem>,
) -> (r: Result<(), Error>)
    ensures
        match (
            r,
            fold_steps(
                views(updates@),
                draft_size(listing(draft@)),
                |total: nat, u: DraftUpdateItemView|
                    check_update(views(groups@), draft@, total, u),
            ),
        ) {
            (Ok(_), Ok(_)) => true,
            (Err(e), Err(f)) => e@ == f,
            _ => false,
        },
{
    let ghost all = views(updates@);
    let ghost size = draft_size(listing(draft@));
    let ghost f = |total: nat, u: DraftUpdateItemView| check_update(views(groups@), draft@, total, u);
    let mut total: usize = count_draft(draft);
    let ghost mut count: nat = size;
    let mut i: usize = 0;
    assert(all.take(0) =~= Seq::empty());
    while i < updates.len()
        invariant
            i <= updates@.len(),
            all == views(updates@),
            size == draft_size(listing(draft@)),
            f == |total: nat, u: DraftUpdateItemView|
                check_update(views(groups@), draft@, total, u),
            fold_steps(all.take(i as int), size, f) == Ok::<nat, ErrorView>(count),
            count <= MAX_ITEMS_PER_PROJECT ==> total == count,
            count > MAX_ITEMS_PER_PROJECT ==> total == MAX_ITEMS_PER_PROJECT + 1,
        decreases updates@.len() - i,
    {
        let u: &DraftUpdateItem = &updates[i];
        proof {
            assert(all.take(i + 1).drop_last() =~= all.take(i as int));
            assert(all.take(i + 1).last() == u@);
            if fold_steps(all.take(i + 1), size, f) is Err {
                lemma_fold_error(all, i + 1, size, f);
            }
        }
        let def: &ItemDef = match find_def(groups, u.group.as_str(), u.key.as_str()) {
            Some(d) => d,
            None => {
                let mut m: String = text3("unknown item ", u.group.as_str(), "/");
                m.append(u.key.as_str());
                return Err(Error::validation(m.as_str()));
            },
        };
        if def.shared_ref.is_some() {
            let mut m: String = text3("read-only item ", u.group.as_str(), "/");
            m.append(u.key.as_str());
            return Err(Error::validation(m.as_str()));
        }
        let errs: Vec<String> = validate_value(def, &u.value);
        if errs.len() > 0 {
            return Err(Error::validation(join(&errs, "; ").as_str()));
        }
        if byte_len(value_json(&u.value).as_str()) > MAX_VALUE_BYTES {
            return Err(Error::limit_exceeded("value too large"));
        }
        let there: bool = match draft.get(u.group.as_str()) {
            Some(inner) => inner.contains_key(u.key.as_str()),
            None => false,
        };
        if !there {
            if total >= MAX_ITEMS_PER_PROJECT {
                return Err(Error::limit_exceeded("too many draft items"));
            }
            total = total + 1;
            proof {
                count = count + 1;
            }
        }
        i = i + 1;
    }
    assert(all.take(i as int) =~= all);
    Ok(())
}

fn delete_items(draft: &mut OrdMap<OrdMap<DraftValue>>, deletes: &Vec<(String, String)>)
    ensures
        final(draft)@ == after_deletes(old(draft)@, pair_views(deletes@)),
{
    let ghost start = draft@;
    let ghost all = pair_views(deletes@);
    let mut i: usize = 0;
    assert(all.take(0) =~= Seq::empty());
    while i < deletes.len()
        invariant
            i <= deletes@.len(),
            all == pair_views(deletes@),
            draft@ == after_deletes(start, all.take(i as int)),
        decreases deletes@.len() - i,
    {
        proof {
            assert(all.take(i + 1).drop_last() =~= all.take(i as int));
            assert(all.take(i + 1).last() == (deletes@[i as int].0@, deletes@[i as int].1@));
        }
        let ghost before = draft@;
        let group: &str = deletes[i].0.as_str();
        match draft.take(group) {
            Some(inner) => {
                let mut inner: OrdMap<DraftValue> = inner;
                inner.remove(deletes[i].1.as_str());
                let ghost now = inner@;
                draft.insert(group.to_owned(), inner);
                assert(before.remove(group@).insert(group@, now) =~= before.insert(group@, now));
            },
            None => {
                assert(before.remove(group@) =~= before);
            },
        }
        i = i + 1;
    }
    assert(all.take(i as int) =~= all);
}

fn update_items(draft: &mut OrdMap<OrdMap<DraftValue>>, updates: &Vec<DraftUpdateItem>, now_ms: i64)
    ensures
        final(draft)@ == after_updates(old(draft)@, views(updates@), now_ms),
{
    let ghost start = draft@;
    let ghost all = views(updates@);
    let mut i: usize = 0;
    assert(all.take(0) =~= Seq::empty());
    while i < updates.len()
        invariant
            i <= updates@.len(),
            all == views(updates@),
            draft@ == after_updates(start, all.take(i as int), now_ms),
        decreases updates@.len() - i,
    {
        let u: &DraftUpdateItem = &updates[i];
        proof {
            assert(all.take(i + 1).drop_last() =~= all.take(i as int));
            assert(all.take(i + 1).last() == u@);
        }
        let dv: DraftValue = DraftValue { value: u.value.dup(), updated_at: now_ms };
        set_item(draft, u.group.as_str(), u.key.as_str(), dv);
        i = i + 1;
    }
    assert(all.take(i as int) =~= all);
}

/// The draft of group `group`, without the values of items that the structure does not have.
fn keep_group(inner: &OrdMap<DraftValue>, groups: &Vec<GroupDef>, group: &str) -> (r: OrdMap<
    DraftValue,
>)
    ensures
        r@ == Map::new(
            |k: Seq<char>| inner@.contains_key(k) && has_item(views(groups@), group@, k),
            |k: Seq<char>| inner@[k],
        ),
{
    let n: usize = inner.len();
    let ghost rows = listing(inner@);
    let mut out: OrdMap<DraftValue> = OrdMap::new();
    let mut i: usize = 0;
    while i < n
        invariant
            i <= n == rows.len(),
            rows == listing(inner@),
            is_listing(inner@, rows),
            forall|k: Seq<char>| #[trigger]
                out@.contains_key(k) ==> inner@.contains_key(k) && has_item(
                    views(groups@),
                    group@,
                    k,
                ) && out@[k] == inner@[k],
            forall|j: int|
                0 <= j < i && has_item(views(groups@), group@, (#[trigger] rows[j]).0)
                    ==> out@.contains_key(rows[j].0),
        decreases n - i,
    {
        let key: &String = inner.key_at(i);
        assert(inner@[rows[i as int].0] == rows[i as int].1);
        if structure_has(groups, group, key.as_str()) {
            out.insert(key.clone(), inner.value_at(i).dup());
        }
        i = i + 1;
    }
    proof {
        let m = Map::new(
            |k: Seq<char>| inner@.contains_key(k) && has_item(views(groups@), group@, k),
            |k: Seq<char>| inner@[k],
        );
        assert forall|k: Seq<char>| m.contains_key(k) == out@.contains_key(k) by {
            if m.contains_key(k) {
                assert(has_row(rows, k));
            }
        }
        assert(out@ =~= m);
    }
    out
}

/// The draft without the values of items that the structure does not have.
fn keep_draft(draft: &OrdMap<OrdMap<DraftValue>>, groups: &Vec<GroupDef>) -> (r: OrdMap<
    OrdMap<DraftValue>,
>)
    ensures
        r@ == kept_draft(draft@, views(groups@)),
{
    let n: usize = draft.len();
    let ghost rows = listing(draft@);
    let ghost defs = views(groups@);
    let mut out: OrdMap<OrdMap<DraftValue>> = OrdMap::new();
    let mut i: usize = 0;
    while i < n
        invariant
            i <= n == rows.len(),
            rows == listing(draft@),
            is_listing(draft@, rows),
            defs == views(groups@),
            forall|g: Seq<char>| #[trigger]
                out@.contains_key(g) ==> kept_draft(draft@, defs).contains_key(g) && out@[g] == kept_keys(
                    draft@,
                    defs,
                    g,
                ),
            forall|j: int|
                0 <= j < i && kept_draft(draft@, defs).contains_key((#[trigger] rows[j]).0)
                    ==> out@.contains_key(rows[j].0),
        decreases n - i,
    {
        let group: &String = draft.key_at(i);
        assert(draft@[rows[i as int].0] == rows[i as int].1);
        let inner: OrdMap<DraftValue> = keep_group(draft.value_at(i), groups, group.as_str());
        assert(inner@ =~= kept_keys(draft@, defs, group@));
        if !inner.is_empty() {
            out.insert(group.clone(), inner);
        }
        i = i + 1;
    }
    proof {
        assert forall|g: Seq<char>| kept_draft(draft@, defs).contains_key(g) == out@.contains_key(g) by {
            if kept_draft(draft@, defs).contains_key(g) {
                assert(draft@.contains_key(g));
                assert(has_row(rows, g));
            }
        }
        assert(out@ =~= kept_draft(draft@, defs));
    }
    out
}

impl<S: Store> StateMachine<S> {
    pub fn apply_structure_draft_set(
        &mut self,
        id: &ProjectId,
        base_version: u64,
        groups: &Vec<GroupDef>,
        operator: &str,
    ) -> (r: ApplyOutcome)
        ensures
            applies(
                r,
                structure_draft_set(old(self)@, id@, base_version, views(groups@)),
                final(self)@,
                old(self).reliable(),
            ),
            r is Err ==> final(self)@ == old(self)@,
            final(self).base() == old(self).base(),
            final(self).reliable() == old(self).reliable(),
    {
        proof {
            reveal(structure_draft_set);
        }
        let structure: Structure = match self.get_structure(id)? {
            Some(x) => x,
            None => {
                return Err(no_project(id));
            },
        };
        if base_version != structure.version {
            let mut m: String = text3(
                "base_version ",
                decimal(base_version).as_str(),
                " != current structure version ",
            );
            m.append(decimal(structure.version).as_str());
            return Err(Error::conflict(m.as_str()));
        }
        let wanted: Structure = Structure { version: base_version, groups: dup_vec(groups) };
        let errs: Vec<String> = validate_structure(&wanted);
        if errs.len() > 0 {
            return Err(blocked(errs));
        }
        let draft: StructureDraft = StructureDraft { base_version, groups: wanted.groups };
        self.put_pending(struct_draft_key(id), Entry::StructureDraft(draft));
        no_events()
    }

    /// Holds back the record and the content of a version.
    pub(crate) fn write_version_snapshot(
        &mut self,
        id: &ProjectId,
        branch: &BranchName,
        old_snap: &SnapshotMap,
        new_snap: &SnapshotMap,
        record: VersionRecord,
    )
        ensures
            final(self)@ == with_version(
                old(self)@,
                id@,
                branch@,
                old_snap@,
                new_snap@,
                record@,
            ),
            final(self).base() == old(self).base(),
            final(self).reliable() == old(self).reliable(),
    {
        let mut record: VersionRecord = record;
        let no: u64 = record.no;
        if no == 1 || no % CHECKPOINT_INTERVAL == 0 {
            record.kind = VersionKind::Full;
            self.put_pending(snapshot_key(id, branch, no), Entry::Snapshot(new_snap.dup()));
        } else {
            record.kind = VersionKind::Diff;
            let diff: Vec<DiffEntry> = compute_diff(old_snap, new_snap);
            self.put_pending(diff_key(id, branch, no), Entry::Diff(diff));
        }
        self.put_pending(version_key(id, branch, no), Entry::Version(record));
    }

    /// Takes one branch to its next version with a new structure.
    fn advance_structure(
        &mut self,
        id: &ProjectId,
        branch: &BranchName,
        structure: &Structure,
        comment: &str,
        request_id: &str,
        now_ms: i64,
        operator: &str,
        events: &mut Vec<PublishEvent>,
    ) -> (r: Result<(), Error>)
        ensures
            final(self).base() == old(self).base(),
            final(self).reliable() == old(self).reliable(),
            proceeds(
                r,
                structure_step(
                    (old(self)@, views(old(events)@)),
                    id@,
                    branch@,
                    structure@,
                    comment@,
                    request_id@,
                    now_ms,
                    operator@,
                ),
                final(self)@,
                views(final(events)@),
                old(self).reliable(),
            ),
    {
        let mut st: BranchState = match self.get_branch_state(id, branch)? {
            Some(st) => st,
            None => {
                return Err(Error::internal("branch state missing"));
            },
        };
        let vno: u64 = next_after(st.active_version)?;
        let values: SnapshotMap = self.active_snapshot(id, branch, st.active_version)?;
        let record: VersionRecord = VersionRecord {
            no: vno,
            structure_version: structure.version,
            created_at: now_ms,
            operator: operator_id(operator),
            comment: comment.to_owned(),
            rollback_of: None,
            kind: VersionKind::Full,
            snapshot_ref: None,
            diff_ref: None,
            event_ty: Some(EventType::StructurePublish),
            gray: false,
        };
        self.write_version_snapshot(id, branch, &values, &values, record);
        st.active_version = vno;
        st.structure_version = structure.version;
        st.value_draft = keep_draft(&st.value_draft, &structure.groups);
        self.put_pending(branch_state_key(id, branch), Entry::Branch(st));
        let changes: Vec<DiffEntry> = Vec::new();
        assert(views(changes@) =~= Seq::empty());
        let ghost before = views(events@);
        let event: PublishEvent = PublishEvent {
            project: id.dup(),
            branch: branch.dup(),
            version: vno,
            ty: EventType::StructurePublish,
            structure_version: structure.version,
            comment: comment.to_owned(),
            request_id: request_id.to_owned(),
            changes,
            gray: false,
        };
        let ghost e = event@;
        events.push(event);
        assert(views(events@) =~= before.push(e));
        Ok(())
    }

    /// Takes the branches of the list to their next version with a new structure.
    fn advance_all(
        &mut self,
        id: &ProjectId,
        list: &Vec<BranchName>,
        structure: &Structure,
        comment: &str,
        request_id: &str,
        now_ms: i64,
        operator: &str,
        events: &mut Vec<PublishEvent>,
    ) -> (r: Result<(), Error>)
        ensures
            final(self).base() == old(self).base(),
            final(self).reliable() == old(self).reliable(),
            proceeds(
                r,
                fold_steps(
                    views(list@),
                    (old(self)@, views(old(events)@)),
                    |a: Progress, b: Seq<char>|
                        structure_step(
                            a,
                            id@,
                            b,
                            structure@,
                            comment@,
                            request_id@,
                            now_ms,
                            operator@,
                        ),
                ),
                final(self)@,
                views(final(events)@),
                old(self).reliable(),
            ),
    {
        let ghost all = views(list@);
        let ghost start: Progress = (self@, views(events@));
        let ghost f = |a: Progress, b: Seq<char>|
            structure_step(a, id@, b, structure@, comment@, request_id@, now_ms, operator@);
        let mut i: usize = 0;
        assert(all.take(0) =~= Seq::empty());
        while i < list.len()
            invariant
                i <= list@.len(),
                all == views(list@),
                start == (old(self)@, views(old(events)@)),
                self.base() == old(self).base(),
                self.reliable() == old(self).reliable(),
                f == |a: Progress, b: Seq<char>|
                    structure_step(a, id@, b, structure@, comment@, request_id@, now_ms, operator@),
                fold_steps(all.take(i as int), start, f) == Ok::<Progress, ErrorView>(
                    (self@, views(events@)),
                ),
            decreases list@.len() - i,
        {
            proof {
                assert(all.take(i + 1).drop_last() =~= all.take(i as int));
                assert(all.take(i + 1).last() == list@[i as int]@);
                if fold_steps(all.take(i + 1), start, f) is Err {
                    lemma_fold_error(all, i + 1, start, f);
                }
            }
            self.advance_structure(
                id,
                &list[i],
                structure,
                comment,
                request_id,
                now_ms,
                operator,
                events,
            )?;
            i = i + 1;
        }
        assert(all.take(i as int) =~= all);
        Ok(())
    }

    pub fn apply_publish_structure(
        &mut self,
        id: &ProjectId,
        comment: &str,
        request_id: &str,
        now_ms: i64,
        operator: &str,
    ) -> (r: ApplyOutcome)
        ensures
            applies(
                r,
                publish_structure(old(self)@, id@, comment@, request_id@, now_ms, operator@),
                final(self)@,
                old(self).reliable(),
            ),
            r is Err ==> final(self)@ == old(self)@,
            final(self).base() == old(self).base(),
            final(self).reliable() == old(self).reliable(),
    {
        proof {
            reveal(publish_structure);
        }
        let structure: Structure = match self.get_structure(id)? {
            Some(x) => x,
            None => {
                return Err(no_project(id));
            },
        };
        let draft: StructureDraft = match self.get_structure_draft(id)? {
            Some(d) => d,
            None => {
                return Err(Error::new(ErrorKind::NoDraft, "no structure draft"));
            },
        };
        if draft.base_version != structure.version {
            return Err(Error::conflict("structure draft base_version mismatch"));
        }
        let checked: Structure = Structure {
            version: structure.version,
            groups: draft.groups,
        };
        let errs: Vec<String> = validate_structure(&checked);
        if errs.len() > 0 {
            return Err(blocked(errs));
        }
        let version: u64 = next_after(structure.version)?;
        let new_structure: Structure = Structure { version, groups: checked.groups };
        let list: Vec<BranchName> = self.list_branches(id)?;
        let mut events: Vec<PublishEvent> = Vec::new();
        assert(views(events@) =~= Seq::empty());
        let held: Vec<PendingOp> = self.held();
        match self.advance_all(
            id,
            &list,
            &new_structure,
            comment,
            request_id,
            now_ms,
            operator,
            &mut events,
        ) {
            Ok(_) => {},
            Err(e) => {
                self.hold(held);
                return Err(e);
            },
        }
        self.put_pending(struct_key(id), Entry::Structure(new_structure));
        self.delete_pending(struct_draft_key(id).as_str());
        Ok(events)
    }

    pub fn apply_draft_update(
        &mut self,
        id: &ProjectId,
        branch: &BranchName,
        updates: &Vec<DraftUpdateItem>,
        deletes: &Vec<(String, String)>,
        now_ms: i64,
        operator: &str,
    ) -> (r: ApplyOutcome)
        ensures
            applies(
                r,
                draft_update(
                    old(self)@,
                    id@,
                    branch@,
                    views(updates@),
                    pair_views(deletes@),
                    now_ms,
                ),
                final(self)@,
                old(self).reliable(),
            ),
            r is Err ==> final(self)@ == old(self)@,
            final(self).base() == old(self).base(),
            final(self).reliable() == old(self).reliable(),
    {
        proof {
            reveal(draft_update);
        }
        let mut st: BranchState = match self.get_branch_state(id, branch)? {
            Some(st) => st,
            None => {
                return Err(branch_missing(id, branch));
            },
        };
        let structure: Structure = match self.get_structure(id)? {
            Some(x) => x,
            None => {
                return Err(no_project(id));
            },
        };
        check_updates(&structure.groups, &st.value_draft, updates)?;
        let rev: u64 = next_after(st.draft_rev)?;
        delete_items(&mut st.value_draft, deletes);
        update_items(&mut st.value_draft, updates, now_ms);
        st.draft_rev = rev;
        self.put_pending(branch_state_key(id, branch), Entry::Branch(st));
        no_events()
    }
}

} // verus!
