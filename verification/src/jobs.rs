//! Work in the background, for the leader: pruning versions and the audit trail, and wrapping data keys
//! under the current master key.
use vstd::prelude::*;
use vstd::string::StringExecFns;

use crate::crypto::{Cipher, CryptoError, decrypted, makes, nonce_fits, rewrappable, rewrapped};
use crate::dup::views;
use crate::error::{Error, ErrorView, code_of, internal_err};
use crate::keys::{K_DIFF, K_SHARED, K_SHARED_DRAFT, K_SNAP};
use crate::model::{
    BranchName, BranchStateView, Ciphertext, CiphertextView, DiffEntryView, EntryView, Project,
    ProjectId, ProjectView, SharedItemView, ValueView,
};
use crate::ordmap::{has_row, is_listing, lemma_is_listing, listing};
use crate::state::{
    StateMachine, change_kept, change_renewed, draft_group_done, entries_done, entry_done,
    group_done, group_times, group_values, in_state, is_state_key, kept, marks, offered, refused,
    renewed, rows_done,
};
use crate::step::{branches, projects};
use crate::store::{State, Store};
use crate::text::ends_with;
use crate::transition::{audit_pruned, versions_pruned};

verus! {

/// Keeps, for each branch, the active version and the last `keep` versions.
pub struct VersionRetention {
    pub keep: usize,
}

/// Keeps the last `keep` entries of the audit trail.
pub struct AuditRetention {
    pub keep: usize,
}

/// Wraps the data keys of all secrets under the current master key.
pub struct RewrapDeks {
    pub cipher: Cipher,
}

/// The line of text for an error.
pub open spec fn error_line(e: ErrorView) -> Seq<char> {
    "["@ + code_of(e.kind) + "] "@ + e.message
}

/// The state after some work, and the error that ended it, if one did.
pub type Work = (State, Option<ErrorView>);

/// The first `n` branches of the list, pruned one after another up to the first error.
pub open spec fn branches_pruned(
    s: State,
    id: Seq<char>,
    list: Seq<Seq<char>>,
    n: nat,
    keep: nat,
) -> Work
    decreases n,
{
    if n == 0 {
        (s, None)
    } else {
        let w = branches_pruned(s, id, list, (n - 1) as nat, keep);
        if w.1 is Some {
            w
        } else {
            match versions_pruned(w.0, id, list[n - 1], keep) {
                Ok(p) => (p.0, None),
                Err(e) => (w.0, Some(e)),
            }
        }
    }
}

/// The first `n` projects of the list, pruned one after another up to the first error.
pub open spec fn projects_pruned(s: State, list: Seq<ProjectView>, n: nat, keep: nat) -> Work
    decreases n,
{
    if n == 0 {
        (s, None)
    } else {
        let w = projects_pruned(s, list, (n - 1) as nat, keep);
        if w.1 is Some {
            w
        } else {
            let names = branches(w.0, list[n - 1].id);
            branches_pruned(w.0, list[n - 1].id, names, names.len(), keep)
        }
    }
}

/// All projects, pruned.
pub open spec fn all_pruned(s: State, keep: nat) -> Work {
    projects_pruned(s, projects(s), projects(s).len(), keep)
}

proof fn lemma_branches_stop(
    s: State,
    id: Seq<char>,
    list: Seq<Seq<char>>,
    a: nat,
    b: nat,
    keep: nat,
)
    requires
        a <= b,
        branches_pruned(s, id, list, a, keep).1 is Some,
    ensures
        branches_pruned(s, id, list, b, keep) == branches_pruned(s, id, list, a, keep),
    decreases b,
{
    if a < b {
        lemma_branches_stop(s, id, list, a, (b - 1) as nat, keep);
    }
}

proof fn lemma_projects_stop(s: State, list: Seq<ProjectView>, a: nat, b: nat, keep: nat)
    requires
        a <= b,
        projects_pruned(s, list, a, keep).1 is Some,
    ensures
        projects_pruned(s, list, b, keep) == projects_pruned(s, list, a, keep),
    decreases b,
{
    if a < b {
        lemma_projects_stop(s, list, a, (b - 1) as nat, keep);
    }
}

impl VersionRetention {
    pub fn name(&self) -> (r: &'static str)
        ensures
            r@ == "version-retention"@,
    {
        "version-retention"
    }

    /// Seconds between two runs.
    pub fn interval(&self) -> (r: u64)
        ensures
            r == 60,
    {
        60
    }

    fn run_project<S: Store>(&self, sm: &mut StateMachine<S>, id: &ProjectId) -> (r: Result<(), Error>)
        requires
            old(sm).idle(),
        ensures
            final(sm).idle(),
            final(sm).reliable() == old(sm).reliable(),
            old(sm).reliable() ==> ({
                let names = branches(old(sm)@, id@);
                let w = branches_pruned(old(sm)@, id@, names, names.len(), self.keep as nat);
                final(sm)@ == w.0 && match r {
                    Ok(_) => w.1 is None,
                    Err(e) => w.1 == Some(e@),
                }
            }),
    {
        let list: Vec<BranchName> = sm.list_branches(id)?;
        let ghost s = sm@;
        let ghost names = views(list@);
        let keep: usize = self.keep;
        let mut i: usize = 0;
        while i < list.len()
            invariant
                i <= list@.len(),
                names == views(list@),
                s == old(sm)@,
                keep == self.keep,
                sm.idle(),
                sm.reliable() == old(sm).reliable(),
                names == branches(s, id@),
                old(sm).reliable() ==> branches_pruned(s, id@, names, i as nat, keep as nat) == (
                    sm@,
                    None::<ErrorView>,
                ),
            decreases list@.len() - i,
        {
            assert(names[i as int] == list@[i as int]@);
            proof {
                if branches_pruned(s, id@, names, (i + 1) as nat, keep as nat).1 is Some {
                    lemma_branches_stop(
                        s,
                        id@,
                        names,
                        (i + 1) as nat,
                        names.len(),
                        keep as nat,
                    );
                }
            }
            sm.prune_versions(id, &list[i], keep)?;
            i = i + 1;
        }
        Ok(())
    }

    /// Prunes the versions of every branch of every project.
    pub fn run<S: Store>(&self, sm: &mut StateMachine<S>) -> (r: Result<(), String>)
        requires
            old(sm).idle(),
        ensures
            final(sm).idle(),
            final(sm).reliable() == old(sm).reliable(),
            old(sm).reliable() ==> ({
                let w = all_pruned(old(sm)@, self.keep as nat);
                final(sm)@ == w.0 && match r {
                    Ok(_) => w.1 is None,
                    Err(m) => w.1 matches Some(e) && m@ == error_line(e),
                }
            }),
    {
        let list: Vec<Project> = match sm.list_projects() {
            Ok(v) => v,
            Err(e) => {
                return Err(e.text());
            },
        };
        let ghost s = sm@;
        let ghost all = views(list@);
        let mut i: usize = 0;
        while i < list.len()
            invariant
                i <= list@.len(),
                all == views(list@),
                s == old(sm)@,
                sm.idle(),
                sm.reliable() == old(sm).reliable(),
                all == projects(s),
                old(sm).reliable() ==> projects_pruned(s, all, i as nat, self.keep as nat) == (
                    sm@,
                    None::<ErrorView>,
                ),
            decreases list@.len() - i,
        {
            assert(all[i as int] == list@[i as int]@);
            proof {
                if projects_pruned(s, all, (i + 1) as nat, self.keep as nat).1 is Some {
                    lemma_projects_stop(s, all, (i + 1) as nat, all.len(), self.keep as nat);
                }
            }
            match self.run_project(sm, &list[i].id) {
                Ok(_) => {},
                Err(e) => {
                    return Err(e.text());
                },
            }
            i = i + 1;
        }
        Ok(())
    }
}

impl AuditRetention {
    pub fn name(&self) -> (r: &'static str)
        ensures
            r@ == "audit-retention"@,
    {
        "audit-retention"
    }

    /// Seconds between two runs.
    pub fn interval(&self) -> (r: u64)
        ensures
            r == 3600,
    {
        3600
    }

    /// Prunes the audit trail.
    pub fn run<S: Store>(&self, sm: &mut StateMachine<S>) -> (r: Result<(), String>)
        ensures
            final(sm).idle(),
            final(sm).reliable() == old(sm).reliable(),
            match r {
                Ok(_) => final(sm)@ == audit_pruned(old(sm)@, self.keep as nat),
                Err(_) => !old(sm).reliable() && final(sm)@ == old(sm).base(),
            },
    {
        match sm.prune_audit(self.keep) {
            Ok(_) => Ok(()),
            Err(e) => Err(e.text()),
        }
    }
}

/// Whether the data key of a ciphertext is due: it is wrapped under an older master key.
pub open spec fn is_due(keys: Seq<Seq<u8>>, c: CiphertextView) -> bool {
    c.dek_v < keys.len()
}

/// What the job may give for a ciphertext: nothing where its data key is not due; else the ciphertext
/// with its data key under the current master key, for some nonce, or the error in its place.
pub open spec fn due_result(
    keys: Seq<Seq<u8>>,
    c: CiphertextView,
    r: Option<Result<Ciphertext, Error>>,
) -> bool {
    match r {
        None => !is_due(keys, c),
        Some(Ok(d)) => {
            &&& is_due(keys, c)
            &&& nonce_fits(c.edek_nonce)
            &&& rewrappable(keys, c)
            &&& exists|n: [u8; 12]| #[trigger]
                rewrapped(keys, c, n@) == Ok::<CiphertextView, Seq<char>>(d@)
            &&& decrypted(keys, d@) == decrypted(keys, c)
            &&& d@.dek_v == keys.len()
        },
        Some(Err(e)) => not_renewed(keys, c, e@),
    }
}

/// The error stands for the ciphertext, whose data key is due and cannot be wrapped anew.
pub open spec fn not_renewed(keys: Seq<Seq<u8>>, c: CiphertextView, e: ErrorView) -> bool {
    is_due(keys, c) && if nonce_fits(c.edek_nonce) {
        !rewrappable(keys, c) && exists|n: [u8; 12]|
            (#[trigger] rewrapped(keys, c, n@)) matches Err(m) && e == internal_err(
                "rewrap: "@ + ("crypto: "@ + m),
            )
    } else {
        e == internal_err("rewrap: nonce must be 12 bytes"@)
    }
}

impl RewrapDeks {
    pub fn name(&self) -> (r: &'static str)
        ensures
            r@ == "rewrap-deks"@,
    {
        "rewrap-deks"
    }

    /// Seconds between two runs.
    pub fn interval(&self) -> (r: u64)
        ensures
            r == 300,
    {
        300
    }

    /// What takes the place of a ciphertext.
    pub fn renew(&self, c: &Ciphertext) -> (r: Option<Result<Ciphertext, Error>>)
        ensures
            due_result(self.cipher@, c@, r),
    {
        let generation: u64 = self.cipher.keyring().generation();
        if c.dek_v >= generation {
            return None;
        }
        let given: Option<Result<Ciphertext, CryptoError>> = self.cipher.try_rewrap_dek(c);
        proof {
            if given is Some {
                let n = choose|n: [u8; 12]|
                    makes(given->0, #[trigger] rewrapped(self.cipher@, c@, n@));
                assert(makes(given->0, rewrapped(self.cipher@, c@, n@)));
            }
        }
        match given {
            Some(Ok(d)) => Some(Ok(d)),
            Some(Err(e)) => {
                let mut m: String = "rewrap: ".to_owned();
                m.append(e.text().as_str());
                Some(Err(Error::internal(m.as_str())))
            },
            None => Some(Err(Error::internal("rewrap: nonce must be 12 bytes"))),
        }
    }

    /// Offers every ciphertext in the store to [`RewrapDeks::renew`]. Where nothing fails, no data key is
    /// due any more; the result counts the entries that held one that was.
    pub fn run<S: Store>(&self, sm: &mut StateMachine<S>) -> (r: Result<usize, String>)
        requires
            old(sm).idle(),
        ensures
            final(sm).idle(),
            final(sm).reliable() == old(sm).reliable(),
            same_secrets(self.cipher@, old(sm)@, final(sm)@),
            match r {
                Ok(n) => n == due_entries(self.cipher@, listing(old(sm)@)) && none_due(
                    self.cipher@,
                    final(sm)@,
                ),
                Err(m) => !old(sm).reliable() || exists|c: CiphertextView, e: ErrorView| #[trigger]
                    not_renewed(self.cipher@, c, e) && in_state(old(sm)@, ValueView::Secret(c)) && m@
                        == error_line(e),
            },
    {
        let f = |c: &Ciphertext| -> (r: Option<Result<Ciphertext, Error>>)
            ensures
                due_result(self.cipher@, c@, r),
            { self.renew(c) };
        let done: Result<usize, Error> = sm.rewrap_deks(&f);
        proof {
            let keys = self.cipher@;
            lemma_renewal(f, keys, old(sm)@, sm@);
            match &done {
                Ok(n) => {
                    let (rows, flags) = choose|
                        rows: Seq<(Seq<char>, EntryView)>,
                        flags: Seq<bool>,
                    |
                        is_listing(old(sm)@, rows) && flags.len() == rows.len() && #[trigger] rows_done(
                            f,
                            rows,
                            sm@,
                            flags,
                        ) && *n == marks(flags);
                    lemma_is_listing(old(sm)@, rows);
                    lemma_flags(f, keys, rows, sm@, flags);
                    assert forall|k: Seq<char>| #[trigger] sm@.contains_key(k) implies !entry_due(
                        keys,
                        k,
                        sm@[k],
                    ) by {
                        assert(old(sm)@.dom().contains(k));
                        assert(has_row(rows, k));
                        let i = choose|i: int| 0 <= i < rows.len() && #[trigger] rows[i].0 == k;
                        lemma_row_flag(f, keys, rows, sm@, flags, i);
                    }
                },
                Err(e) => {
                    if old(sm).reliable() {
                        let v = choose|v: ValueView| in_state(old(sm)@, v) && #[trigger] refused(f, v, e@);
                        assert(not_renewed(keys, v->Secret_0, e@));
                    }
                },
            }
        }
        match done {
            Ok(n) => Ok(n),
            Err(e) => Err(e.text()),
        }
    }
}

/// Whether a value is a secret whose data key is due.
pub open spec fn value_due(keys: Seq<Seq<u8>>, v: ValueView) -> bool {
    match v {
        ValueView::Secret(c) => is_due(keys, c),
        _ => false,
    }
}

pub open spec fn group_due(keys: Seq<Seq<u8>>, m: Map<Seq<char>, ValueView>) -> bool {
    exists|k: Seq<char>| #[trigger] m.contains_key(k) && value_due(keys, m[k])
}

pub open spec fn change_due(keys: Seq<Seq<u8>>, d: DiffEntryView) -> bool {
    offered(d) matches Some(v) && value_due(keys, v)
}

/// Whether an entry holds a secret whose data key is due.
pub open spec fn entry_due(keys: Seq<Seq<u8>>, key: Seq<char>, e: EntryView) -> bool {
    if K_SHARED@.is_prefix_of(key) || K_SHARED_DRAFT@.is_prefix_of(key) {
        match e {
            EntryView::Shared(x) => value_due(keys, x.value),
            _ => false,
        }
    } else if ends_with(key, K_SNAP@) {
        match e {
            EntryView::Snapshot(m) => exists|g: Seq<char>| #[trigger]
                m.contains_key(g) && group_due(keys, m[g]),
            _ => false,
        }
    } else if ends_with(key, K_DIFF@) {
        match e {
            EntryView::Diff(d) => exists|i: int| 0 <= i < d.len() && change_due(keys, #[trigger] d[i]),
            _ => false,
        }
    } else if is_state_key(key) {
        match e {
            EntryView::Branch(x) => exists|g: Seq<char>| #[trigger]
                x.value_draft.contains_key(g) && group_due(keys, group_values(x.value_draft[g])),
            _ => false,
        }
    } else {
        false
    }
}

/// The number of entries that hold a secret whose data key is due.
pub open spec fn due_entries(keys: Seq<Seq<u8>>, rows: Seq<(Seq<char>, EntryView)>) -> nat
    decreases rows.len(),
{
    if rows.len() == 0 {
        0
    } else {
        due_entries(keys, rows.drop_last()) + if entry_due(keys, rows.last().0, rows.last().1) {
            1nat
        } else {
            0nat
        }
    }
}

/// No secret has a data key that is due.
pub open spec fn none_due(keys: Seq<Seq<u8>>, s: State) -> bool {
    forall|k: Seq<char>| #[trigger] s.contains_key(k) ==> !entry_due(keys, k, s[k])
}

/// Where no data key is due, a run has nothing to do.
pub proof fn law_rewrapping_is_idempotent(
    keys: Seq<Seq<u8>>,
    s: State,
    rows: Seq<(Seq<char>, EntryView)>,
)
    requires
        none_due(keys, s),
        is_listing(s, rows),
    ensures
        due_entries(keys, rows) == 0,
{
    assert forall|i: int| 0 <= i < rows.len() implies !entry_due(
        keys,
        (#[trigger] rows[i]).0,
        rows[i].1,
    ) by {
        assert(s.contains_key(rows[i].0));
    }
    lemma_none_counted(keys, rows);
}

proof fn lemma_none_counted(keys: Seq<Seq<u8>>, rows: Seq<(Seq<char>, EntryView)>)
    requires
        forall|i: int|
            0 <= i < rows.len() ==> !entry_due(keys, (#[trigger] rows[i]).0, rows[i].1),
    ensures
        due_entries(keys, rows) == 0,
    decreases rows.len(),
{
    if rows.len() > 0 {
        let d = rows.drop_last();
        assert forall|i: int| 0 <= i < d.len() implies !entry_due(keys, (#[trigger] d[i]).0, d[i].1) by {
            assert(d[i] == rows[i]);
        }
        lemma_none_counted(keys, d);
        assert(rows[rows.len() - 1] == rows.last());
    }
}

proof fn lemma_flags<F: Fn(&Ciphertext) -> Option<Result<Ciphertext, Error>>>(
    f: F,
    keys: Seq<Seq<u8>>,
    rows: Seq<(Seq<char>, EntryView)>,
    b: State,
    flags: Seq<bool>,
)
    requires
        forall|c: &Ciphertext, r: Option<Result<Ciphertext, Error>>|
            call_ensures(f, (c,), r) ==> due_result(keys, c@, r),
        flags.len() == rows.len(),
        rows_done(f, rows, b, flags),
    ensures
        marks(flags) == due_entries(keys, rows),
    decreases rows.len(),
{
    if rows.len() > 0 {
        let d = rows.drop_last();
        let g = flags.drop_last();
        assert forall|i: int| 0 <= i < g.len() implies if #[trigger] g[i] {
            entry_done(f, d[i].0, d[i].1, b[d[i].0], true)
        } else {
            b[d[i].0] == d[i].1 && exists|x: EntryView| entry_done(f, d[i].0, d[i].1, x, false)
        } by {
            assert(g[i] == flags[i]);
            assert(d[i] == rows[i]);
        }
        lemma_flags(f, keys, d, b, g);
        lemma_row_flag(f, keys, rows, b, flags, rows.len() - 1);
    }
}

/// A row is marked exactly where it holds something due, and then nothing in it is due any more.
proof fn lemma_row_flag<F: Fn(&Ciphertext) -> Option<Result<Ciphertext, Error>>>(
    f: F,
    keys: Seq<Seq<u8>>,
    rows: Seq<(Seq<char>, EntryView)>,
    b: State,
    flags: Seq<bool>,
    i: int,
)
    requires
        forall|c: &Ciphertext, r: Option<Result<Ciphertext, Error>>|
            call_ensures(f, (c,), r) ==> due_result(keys, c@, r),
        flags.len() == rows.len(),
        rows_done(f, rows, b, flags),
        0 <= i < rows.len(),
    ensures
        flags[i] == entry_due(keys, rows[i].0, rows[i].1),
        !entry_due(keys, rows[i].0, b[rows[i].0]),
{
    let k = rows[i].0;
    let a = rows[i].1;
    if flags[i] {
        lemma_entry_flag(f, keys, k, a, b[k], true);
    } else {
        let x = choose|x: EntryView| entry_done(f, k, a, x, false);
        lemma_entry_flag(f, keys, k, a, x, false);
    }
}

proof fn lemma_value_flag<F: Fn(&Ciphertext) -> Option<Result<Ciphertext, Error>>>(
    f: F,
    keys: Seq<Seq<u8>>,
    a: ValueView,
    b: ValueView,
)
    requires
        forall|c: &Ciphertext, r: Option<Result<Ciphertext, Error>>|
            call_ensures(f, (c,), r) ==> due_result(keys, c@, r),
    ensures
        kept(f, a, b) ==> !value_due(keys, a) && !value_due(keys, b),
        renewed(f, a, b) ==> value_due(keys, a) && !value_due(keys, b),
{
    if kept(f, a, b) {
        match a {
            ValueView::Secret(c) => {
                let x = choose|x: &Ciphertext| x@ == c && #[trigger] call_ensures(f, (x,), None);
                assert(due_result(keys, x@, None));
            },
            _ => {},
        }
    }
    if renewed(f, a, b) {
        match (a, b) {
            (ValueView::Secret(c), ValueView::Secret(d)) => {
                let (x, y) = choose|x: &Ciphertext, y: Ciphertext|
                    x@ == c && y@ == d && #[trigger] call_ensures(f, (x,), Some(Ok(y)));
                assert(due_result(keys, x@, Some(Ok(y))));
            },
            _ => {},
        }
    }
}

proof fn lemma_group_flag<F: Fn(&Ciphertext) -> Option<Result<Ciphertext, Error>>>(
    f: F,
    keys: Seq<Seq<u8>>,
    a: Map<Seq<char>, ValueView>,
    b: Map<Seq<char>, ValueView>,
    changed: bool,
)
    requires
        forall|c: &Ciphertext, r: Option<Result<Ciphertext, Error>>|
            call_ensures(f, (c,), r) ==> due_result(keys, c@, r),
        group_done(f, a, b, changed),
    ensures
        changed == group_due(keys, a),
        !group_due(keys, b),
{
    assert forall|k: Seq<char>| #[trigger] a.contains_key(k) implies !value_due(keys, b[k]) && (
    !changed ==> !value_due(keys, a[k])) by {
        lemma_value_flag(f, keys, a[k], b[k]);
    }
    if changed {
        let k = choose|k: Seq<char>| #[trigger] a.contains_key(k) && renewed(f, a[k], b[k]);
        lemma_value_flag(f, keys, a[k], b[k]);
        assert(a.contains_key(k) && value_due(keys, a[k]));
    }
    if group_due(keys, b) {
        let k = choose|k: Seq<char>| #[trigger] b.contains_key(k) && value_due(keys, b[k]);
        assert(b.dom().contains(k));
        assert(a.contains_key(k));
    }
}

proof fn lemma_entry_flag<F: Fn(&Ciphertext) -> Option<Result<Ciphertext, Error>>>(
    f: F,
    keys: Seq<Seq<u8>>,
    key: Seq<char>,
    a: EntryView,
    b: EntryView,
    changed: bool,
)
    requires
        forall|c: &Ciphertext, r: Option<Result<Ciphertext, Error>>|
            call_ensures(f, (c,), r) ==> due_result(keys, c@, r),
        entry_done(f, key, a, b, changed),
    ensures
        changed == entry_due(keys, key, a),
        !entry_due(keys, key, b),
{
    if K_SHARED@.is_prefix_of(key) || K_SHARED_DRAFT@.is_prefix_of(key) {
        match (a, b) {
            (EntryView::Shared(x), EntryView::Shared(y)) => {
                lemma_value_flag(f, keys, x.value, y.value);
            },
            _ => {},
        }
    } else if ends_with(key, K_SNAP@) {
        match (a, b) {
            (EntryView::Snapshot(x), EntryView::Snapshot(y)) => {
                assert forall|g: Seq<char>| #[trigger] x.contains_key(g) implies !group_due(keys, y[g])
                    && (!changed ==> !group_due(keys, x[g])) by {
                    if group_done(f, x[g], y[g], false) {
                        lemma_group_flag(f, keys, x[g], y[g], false);
                    } else {
                        lemma_group_flag(f, keys, x[g], y[g], true);
                    }
                }
                if changed {
                    let g = choose|g: Seq<char>| #[trigger]
                        x.contains_key(g) && group_done(f, x[g], y[g], true);
                    lemma_group_flag(f, keys, x[g], y[g], true);
                    assert(x.contains_key(g) && group_due(keys, x[g]));
                }
                if entry_due(keys, key, b) {
                    let g = choose|g: Seq<char>| #[trigger] y.contains_key(g) && group_due(keys, y[g]);
                    assert(y.dom().contains(g));
                    assert(x.contains_key(g));
                }
            },
            _ => {},
        }
    } else if ends_with(key, K_DIFF@) {
        match (a, b) {
            (EntryView::Diff(x), EntryView::Diff(y)) => {
                assert forall|i: int| 0 <= i < x.len() implies !change_due(keys, y[i]) && (!changed
                    ==> !change_due(keys, #[trigger] x[i])) by {
                    if change_kept(f, x[i], y[i]) {
                        if offered(x[i]) is Some {
                            lemma_value_flag(f, keys, offered(x[i])->0, offered(x[i])->0);
                        }
                    } else {
                        lemma_value_flag(f, keys, offered(x[i])->0, y[i].new_value->0);
                    }
                }
                if changed {
                    let i = choose|i: int|
                        0 <= i < x.len() && change_renewed(f, #[trigger] x[i], y[i]);
                    lemma_value_flag(f, keys, offered(x[i])->0, y[i].new_value->0);
                    assert(change_due(keys, x[i]));
                }
                if entry_due(keys, key, b) {
                    let i = choose|i: int| 0 <= i < y.len() && change_due(keys, #[trigger] y[i]);
                    assert(x[i] == x[i]);
                }
            },
            _ => {},
        }
    } else if is_state_key(key) {
        match (a, b) {
            (EntryView::Branch(x), EntryView::Branch(y)) => {
                let p = x.value_draft;
                let q = y.value_draft;
                assert forall|g: Seq<char>| #[trigger] p.contains_key(g) implies !group_due(
                    keys,
                    group_values(q[g]),
                ) && (!changed ==> !group_due(keys, group_values(p[g]))) by {
                    if draft_group_done(f, p[g], q[g], false) {
                        lemma_group_flag(f, keys, group_values(p[g]), group_values(q[g]), false);
                    } else {
                        lemma_group_flag(f, keys, group_values(p[g]), group_values(q[g]), true);
                    }
                }
                if changed {
                    let g = choose|g: Seq<char>| #[trigger]
                        p.contains_key(g) && draft_group_done(f, p[g], q[g], true);
                    lemma_group_flag(f, keys, group_values(p[g]), group_values(q[g]), true);
                    assert(p.contains_key(g) && group_due(keys, group_values(p[g])));
                }
                if entry_due(keys, key, b) {
                    let g = choose|g: Seq<char>| #[trigger]
                        q.contains_key(g) && group_due(keys, group_values(q[g]));
                    assert(q.dom().contains(g));
                    assert(p.contains_key(g));
                }
            },
            _ => {},
        }
    }
}

/// The value is the same, or a secret with the same data whose data key is under the current master key.
pub open spec fn same_secret(keys: Seq<Seq<u8>>, a: ValueView, b: ValueView) -> bool {
    match (a, b) {
        (ValueView::Secret(c), ValueView::Secret(d)) => c == d || (d.dek_v == keys.len() && decrypted(
            keys,
            d,
        ) == decrypted(keys, c)),
        _ => a == b,
    }
}

pub open spec fn same_group(
    keys: Seq<Seq<u8>>,
    a: Map<Seq<char>, ValueView>,
    b: Map<Seq<char>, ValueView>,
) -> bool {
    a.dom() == b.dom() && forall|k: Seq<char>| #[trigger]
        a.contains_key(k) ==> same_secret(keys, a[k], b[k])
}

/// The entries differ at most in how the data keys of their secrets are wrapped.
pub open spec fn same_entry(keys: Seq<Seq<u8>>, a: EntryView, b: EntryView) -> bool {
    a == b || match (a, b) {
        (EntryView::Snapshot(x), EntryView::Snapshot(y)) => x.dom() == y.dom() && forall|g: Seq<char>|
         #[trigger] x.contains_key(g) ==> same_group(keys, x[g], y[g]),
        (EntryView::Diff(x), EntryView::Diff(y)) => x.len() == y.len() && forall|i: int|
            0 <= i < x.len() ==> same_change(keys, #[trigger] x[i], y[i]),
        (EntryView::Shared(x), EntryView::Shared(y)) => y == (SharedItemView {
            value: y.value,
            ..x
        }) && same_secret(keys, x.value, y.value),
        (EntryView::Branch(x), EntryView::Branch(y)) => y == (BranchStateView {
            value_draft: y.value_draft,
            ..x
        }) && x.value_draft.dom() == y.value_draft.dom() && forall|g: Seq<char>| #[trigger]
            x.value_draft.contains_key(g) ==> same_group(
                keys,
                group_values(x.value_draft[g]),
                group_values(y.value_draft[g]),
            ) && group_times(x.value_draft[g]) == group_times(y.value_draft[g]),
        _ => false,
    }
}

pub open spec fn same_change(keys: Seq<Seq<u8>>, a: DiffEntryView, b: DiffEntryView) -> bool {
    a == b || (a.new_value is Some && b.new_value is Some && same_secret(
        keys,
        a.new_value->0,
        b.new_value->0,
    ) && b == (DiffEntryView { new_value: b.new_value, ..a }))
}

/// The states differ at most in how the data keys of their secrets are wrapped: every secret decrypts to
/// what it did.
pub open spec fn same_secrets(keys: Seq<Seq<u8>>, a: State, b: State) -> bool {
    a.dom() == b.dom() && forall|k: Seq<char>| #[trigger]
        a.contains_key(k) ==> same_entry(keys, a[k], b[k])
}

proof fn lemma_renewed_same<F: Fn(&Ciphertext) -> Option<Result<Ciphertext, Error>>>(
    f: F,
    keys: Seq<Seq<u8>>,
    a: ValueView,
    b: ValueView,
)
    requires
        forall|c: &Ciphertext, r: Option<Result<Ciphertext, Error>>|
            call_ensures(f, (c,), r) ==> due_result(keys, c@, r),
        kept(f, a, b) || renewed(f, a, b),
    ensures
        same_secret(keys, a, b),
{
    if !kept(f, a, b) {
        match (a, b) {
            (ValueView::Secret(c), ValueView::Secret(d)) => {
                let (x, y) = choose|x: &Ciphertext, y: Ciphertext|
                    x@ == c && y@ == d && #[trigger] call_ensures(f, (x,), Some(Ok(y)));
                assert(due_result(keys, x@, Some(Ok(y))));
            },
            _ => {},
        }
    }
}

proof fn lemma_renewal<F: Fn(&Ciphertext) -> Option<Result<Ciphertext, Error>>>(
    f: F,
    keys: Seq<Seq<u8>>,
    a: State,
    b: State,
)
    requires
        forall|c: &Ciphertext, r: Option<Result<Ciphertext, Error>>|
            call_ensures(f, (c,), r) ==> due_result(keys, c@, r),
        entries_done(f, a, b),
    ensures
        same_secrets(keys, a, b),
{
    assert forall|k: Seq<char>| #[trigger] a.contains_key(k) implies same_entry(keys, a[k], b[k]) by {
        if b[k] != a[k] {
            assert(entry_done(f, k, a[k], b[k], true));
            match (a[k], b[k]) {
                (EntryView::Snapshot(x), EntryView::Snapshot(y)) => {
                    assert forall|g: Seq<char>| #[trigger] x.contains_key(g) implies same_group(
                        keys,
                        x[g],
                        y[g],
                    ) by {
                        lemma_group_same(f, keys, x[g], y[g]);
                    }
                },
                (EntryView::Diff(x), EntryView::Diff(y)) => {
                    assert forall|i: int| 0 <= i < x.len() implies same_change(
                        keys,
                        #[trigger] x[i],
                        y[i],
                    ) by {
                        if !change_kept(f, x[i], y[i]) {
                            lemma_renewed_same(f, keys, offered(x[i])->0, y[i].new_value->0);
                        }
                    }
                },
                (EntryView::Shared(x), EntryView::Shared(y)) => {
                    lemma_renewed_same(f, keys, x.value, y.value);
                },
                (EntryView::Branch(x), EntryView::Branch(y)) => {
                    assert forall|g: Seq<char>| #[trigger] x.value_draft.contains_key(g) implies same_group(
                        keys,
                        group_values(x.value_draft[g]),
                        group_values(y.value_draft[g]),
                    ) && group_times(x.value_draft[g]) == group_times(y.value_draft[g]) by {
                        lemma_group_same(
                            f,
                            keys,
                            group_values(x.value_draft[g]),
                            group_values(y.value_draft[g]),
                        );
                    }
                },
                _ => {},
            }
        }
    }
}

proof fn lemma_group_same<F: Fn(&Ciphertext) -> Option<Result<Ciphertext, Error>>>(
    f: F,
    keys: Seq<Seq<u8>>,
    a: Map<Seq<char>, ValueView>,
    b: Map<Seq<char>, ValueView>,
)
    requires
        forall|c: &Ciphertext, r: Option<Result<Ciphertext, Error>>|
            call_ensures(f, (c,), r) ==> due_result(keys, c@, r),
        group_done(f, a, b, false) || group_done(f, a, b, true),
    ensures
        same_group(keys, a, b),
{
    assert forall|k: Seq<char>| #[trigger] a.contains_key(k) implies same_secret(keys, a[k], b[k]) by {
        lemma_renewed_same(f, keys, a[k], b[k]);
    }
}

} // verus!
