//! The keys of projects, branches and versions do not get in each other's way.
use vstd::prelude::*;

use crate::keys::{
    K_ADMIN_PW, K_AUDIT_SEQ, K_BRANCH, K_DIFF, K_PROJECT, K_SESSION, K_SNAP, K_STATE, K_STRUCT,
    K_STRUCT_DRAFT, K_VERSION, k_admin_session, k_audit, k_branch_prefix, k_branch_state, k_diff,
    k_group_ref_index, k_idx_pname, k_pa_session, k_pa_session_with, k_project, k_project_admin,
    k_ref_index, k_shared, k_shared_draft, k_snapshot, k_struct, k_struct_draft, k_version,
};
use crate::step::{is_slug, slug_char};
use crate::text::{
    dec, is_digit, lemma_dec_injective, lemma_dec_value, lemma_split_join, lemma_split_nonempty,
    lemma_split_single, split_on,
};
use crate::transition::{of_branch, of_project};

verus! {

/// A text that can be one part of a key.
pub open spec fn is_part(s: Seq<char>) -> bool {
    !s.contains('/')
}

/// The parts of a key.
pub open spec fn parts(k: Seq<char>) -> Seq<Seq<char>> {
    split_on(k, '/')
}

/// The names of projects and branches are parts of keys.
pub proof fn law_names_are_parts(s: Seq<char>, max: nat)
    requires
        is_slug(s, max),
    ensures
        is_part(s),
{
    assert forall|i: int| 0 <= i < s.len() implies s[i] != '/' by {
        assert(slug_char(s[i]));
    }
}

pub proof fn lemma_dec_is_part(n: nat)
    ensures
        is_part(dec(n)),
{
    lemma_dec_value(n);
    assert forall|i: int| 0 <= i < dec(n).len() implies dec(n)[i] != '/' by {
        assert(is_digit(dec(n)[i]));
    }
}

/// A text of one part is that part.
pub proof fn lemma_one_part(s: Seq<char>)
    requires
        parts(s).len() == 1,
    ensures
        is_part(s),
        parts(s) == seq![s],
    decreases s.len(),
{
    if s.len() > 0 {
        lemma_split_nonempty(s.drop_last(), '/');
        assert(s.last() != '/');
        lemma_one_part(s.drop_last());
        assert forall|i: int| 0 <= i < s.len() implies s[i] != '/' by {
            if i < s.len() - 1 {
                assert(s[i] == s.drop_last()[i]);
            }
        }
        lemma_split_single(s, '/');
    } else {
        lemma_split_single(s, '/');
    }
}

/// The parts of `a/b`.
pub proof fn lemma_joined_parts(a: Seq<char>, sep: Seq<char>, b: Seq<char>)
    requires
        sep == seq!['/'],
    ensures
        parts(a + sep + b) == parts(a) + parts(b),
{
    lemma_split_join(a, b, '/');
    assert(a.push('/') + b =~= a + sep + b);
}

/// The parts of `a/mid/b`.
pub proof fn lemma_parts_around(a: Seq<char>, mid: Seq<char>, b: Seq<char>)
    requires
        is_part(mid),
    ensures
        parts(a + (seq!['/'] + mid + seq!['/']) + b) == parts(a) + seq![mid] + parts(b),
{
    lemma_split_single(mid, '/');
    lemma_joined_parts(a, seq!['/'], mid);
    lemma_joined_parts(a + seq!['/'] + mid, seq!['/'], b);
    assert(a + (seq!['/'] + mid + seq!['/']) + b =~= a + seq!['/'] + mid + seq!['/'] + b);
}

/// The parts of `a/end`.
pub proof fn lemma_parts_end(a: Seq<char>, end: Seq<char>)
    requires
        is_part(end),
    ensures
        parts(a + (seq!['/'] + end)) == parts(a).push(end),
{
    lemma_split_single(end, '/');
    lemma_joined_parts(a, seq!['/'], end);
    assert(a + (seq!['/'] + end) =~= a + seq!['/'] + end);
    assert(parts(a) + seq![end] =~= parts(a).push(end));
}

/// The parts of the key of a project.
pub proof fn lemma_project_parts(id: Seq<char>)
    ensures
        parts(k_project(id)) == seq!["p"@] + parts(id),
{
    reveal_strlit("p/");
    reveal_strlit("p");
    assert(k_project(id) =~= "p"@ + seq!['/'] + id);
    lemma_joined_parts("p"@, seq!['/'], id);
    lemma_split_single("p"@, '/');
}

/// The parts of the key of a structure.
pub proof fn lemma_struct_parts(id: Seq<char>)
    ensures
        parts(k_struct(id)) == (seq!["p"@] + parts(id)).push("struct"@),
{
    lemma_project_parts(id);
    reveal_strlit("/struct");
    reveal_strlit("struct");
    assert(K_STRUCT@ =~= seq!['/'] + "struct"@);
    lemma_parts_end(k_project(id), "struct"@);
}

/// The parts of the key of the draft of a structure.
pub proof fn lemma_struct_draft_parts(id: Seq<char>)
    ensures
        parts(k_struct_draft(id)) == (seq!["p"@] + parts(id)).push("struct-draft"@),
{
    lemma_project_parts(id);
    reveal_strlit("/struct-draft");
    reveal_strlit("struct-draft");
    assert(K_STRUCT_DRAFT@ =~= seq!['/'] + "struct-draft"@);
    lemma_parts_end(k_project(id), "struct-draft"@);
}

/// The parts of what the keys of a branch begin with.
pub proof fn lemma_branch_parts(id: Seq<char>, branch: Seq<char>)
    ensures
        parts(k_branch_prefix(id, branch)) == seq!["p"@] + parts(id) + seq!["b"@] + parts(branch),
{
    lemma_project_parts(id);
    reveal_strlit("/b/");
    reveal_strlit("b");
    assert(K_BRANCH@ =~= seq!['/'] + "b"@ + seq!['/']);
    lemma_parts_around(k_project(id), "b"@, branch);
}

/// The parts of the key of the state of a branch.
pub proof fn lemma_state_parts(id: Seq<char>, branch: Seq<char>)
    ensures
        parts(k_branch_state(id, branch)) == (seq!["p"@] + parts(id) + seq!["b"@] + parts(
            branch,
        )).push("state"@),
{
    lemma_branch_parts(id, branch);
    reveal_strlit("/state");
    reveal_strlit("state");
    assert(K_STATE@ =~= seq!['/'] + "state"@);
    lemma_parts_end(k_branch_prefix(id, branch), "state"@);
}

/// The parts of the key of the record of a version.
pub proof fn lemma_version_parts(id: Seq<char>, branch: Seq<char>, no: u64)
    ensures
        parts(k_version(id, branch, no)) == seq!["p"@] + parts(id) + seq!["b"@] + parts(branch)
            + seq!["v"@] + seq![dec(no as nat)],
{
    lemma_branch_parts(id, branch);
    reveal_strlit("/v/");
    reveal_strlit("v");
    assert(K_VERSION@ =~= seq!['/'] + "v"@ + seq!['/']);
    lemma_dec_is_part(no as nat);
    lemma_split_single(dec(no as nat), '/');
    lemma_parts_around(k_branch_prefix(id, branch), "v"@, dec(no as nat));
}

/// The parts of the key of the content of a version.
pub proof fn lemma_content_parts(id: Seq<char>, branch: Seq<char>, no: u64)
    ensures
        parts(k_snapshot(id, branch, no)) == parts(k_version(id, branch, no)).push("snap"@),
        parts(k_diff(id, branch, no)) == parts(k_version(id, branch, no)).push("diff"@),
{
    reveal_strlit("/snap");
    reveal_strlit("snap");
    reveal_strlit("/diff");
    reveal_strlit("diff");
    assert(K_SNAP@ =~= seq!['/'] + "snap"@);
    assert(K_DIFF@ =~= seq!['/'] + "diff"@);
    lemma_parts_end(k_version(id, branch, no), "snap"@);
    lemma_parts_end(k_version(id, branch, no), "diff"@);
}

/// The words in keys differ.
pub proof fn lemma_words()
    ensures
        "snap"@ != "diff"@,
        "snap"@ != "state"@,
        "diff"@ != "state"@,
        "struct"@ != "state"@,
        "struct"@ != "snap"@,
        "struct"@ != "diff"@,
        "struct-draft"@ != "state"@,
        "struct-draft"@ != "struct"@,
        "struct-draft"@ != "snap"@,
        "struct-draft"@ != "diff"@,
        "b"@ != "v"@,
{
    reveal_strlit("snap");
    reveal_strlit("diff");
    reveal_strlit("state");
    reveal_strlit("struct");
    reveal_strlit("struct-draft");
    reveal_strlit("b");
    reveal_strlit("v");
    assert("snap"@[0] != "diff"@[0]);
    assert("snap"@.len() != "state"@.len());
    assert("diff"@.len() != "state"@.len());
    assert("struct-draft"@.len() != "struct"@.len());
    assert("b"@[0] != "v"@[0]);
}

/// The names in the parts of a key that a project and a branch make.
pub proof fn lemma_state_names(id: Seq<char>, branch: Seq<char>, i: Seq<char>, b: Seq<char>)
    requires
        is_part(i),
        is_part(b),
        k_branch_state(id, branch) == k_branch_state(i, b),
    ensures
        id == i,
        branch == b,
{
    lemma_state_parts(id, branch);
    lemma_state_parts(i, b);
    lemma_split_single(i, '/');
    lemma_split_single(b, '/');
    lemma_split_nonempty(id, '/');
    lemma_split_nonempty(branch, '/');
    let p = parts(k_branch_state(i, b));
    assert(p.len() == 5);
    assert(parts(id).len() == 1 && parts(branch).len() == 1);
    lemma_one_part(id);
    lemma_one_part(branch);
    let q = (seq!["p"@] + parts(id) + seq!["b"@] + parts(branch)).push("state"@);
    assert(q[1] == id);
    assert(q[3] == branch);
    assert(p[1] == i);
    assert(p[3] == b);
}

pub proof fn lemma_struct_name(id: Seq<char>, i: Seq<char>)
    requires
        is_part(i),
        k_struct(id) == k_struct(i),
    ensures
        id == i,
{
    lemma_struct_parts(id);
    lemma_struct_parts(i);
    lemma_split_single(i, '/');
    lemma_split_nonempty(id, '/');
    let p = parts(k_struct(i));
    assert(p.len() == 3);
    assert(parts(id).len() == 1);
    lemma_one_part(id);
    assert((seq!["p"@] + parts(id)).push("struct"@)[1] == id);
    assert(p[1] == i);
}

pub proof fn lemma_project_name(id: Seq<char>, i: Seq<char>)
    requires
        k_project(id) == k_project(i),
    ensures
        id == i,
{
    assert(id =~= k_project(id).skip(K_PROJECT@.len() as int));
    assert(i =~= k_project(i).skip(K_PROJECT@.len() as int));
}

/// The parts of the keys of a branch with proper names.
pub proof fn lemma_branch_keys(id: Seq<char>, branch: Seq<char>, no: u64)
    requires
        is_part(id),
        is_part(branch),
    ensures
        parts(k_branch_state(id, branch)) == seq!["p"@, id, "b"@, branch, "state"@],
        parts(k_version(id, branch, no)) == seq!["p"@, id, "b"@, branch, "v"@, dec(no as nat)],
        parts(k_snapshot(id, branch, no)) == seq![
            "p"@,
            id,
            "b"@,
            branch,
            "v"@,
            dec(no as nat),
            "snap"@,
        ],
        parts(k_diff(id, branch, no)) == seq![
            "p"@,
            id,
            "b"@,
            branch,
            "v"@,
            dec(no as nat),
            "diff"@,
        ],
{
    lemma_split_single(id, '/');
    lemma_split_single(branch, '/');
    lemma_state_parts(id, branch);
    lemma_version_parts(id, branch, no);
    lemma_content_parts(id, branch, no);
    assert(parts(k_branch_state(id, branch)) =~= seq!["p"@, id, "b"@, branch, "state"@]);
    assert(parts(k_version(id, branch, no)) =~= seq![
        "p"@,
        id,
        "b"@,
        branch,
        "v"@,
        dec(no as nat),
    ]);
    assert(parts(k_snapshot(id, branch, no)) =~= seq![
        "p"@,
        id,
        "b"@,
        branch,
        "v"@,
        dec(no as nat),
        "snap"@,
    ]);
    assert(parts(k_diff(id, branch, no)) =~= seq![
        "p"@,
        id,
        "b"@,
        branch,
        "v"@,
        dec(no as nat),
        "diff"@,
    ]);
}

/// Whether the key is one of those of the version `no` of the branch.
pub open spec fn version_key_of(id: Seq<char>, branch: Seq<char>, no: u64, k: Seq<char>) -> bool {
    k == k_version(id, branch, no) || k == k_snapshot(id, branch, no) || k == k_diff(id, branch, no)
}

/// The keys of two versions have nothing in common, and a version has three keys.
pub proof fn law_version_keys_differ(
    id: Seq<char>,
    branch: Seq<char>,
    no: u64,
    i: Seq<char>,
    b: Seq<char>,
    n: u64,
    k: Seq<char>,
)
    requires
        is_part(id) && is_part(branch) && is_part(i) && is_part(b),
        version_key_of(id, branch, no, k),
        version_key_of(i, b, n, k),
    ensures
        id == i && branch == b && no == n,
        k_version(id, branch, no) != k_snapshot(id, branch, no),
        k_version(id, branch, no) != k_diff(id, branch, no),
        k_snapshot(id, branch, no) != k_diff(id, branch, no),
{
    lemma_branch_keys(id, branch, no);
    lemma_branch_keys(i, b, n);
    lemma_words();
    let p = parts(k);
    assert(p[1] == id && p[3] == branch && p[5] == dec(no as nat));
    assert(p[1] == i && p[3] == b && p[5] == dec(n as nat));
    lemma_dec_injective(no as nat, n as nat);
    assert(parts(k_snapshot(id, branch, no))[6] != parts(k_diff(id, branch, no))[6]);
    assert(parts(k_version(id, branch, no)).len() != parts(k_snapshot(id, branch, no)).len());
    assert(parts(k_version(id, branch, no)).len() != parts(k_diff(id, branch, no)).len());
}

/// The key of the state of a branch is no key of a version.
pub proof fn law_state_key_is_no_version_key(
    id: Seq<char>,
    branch: Seq<char>,
    i: Seq<char>,
    b: Seq<char>,
    n: u64,
)
    requires
        is_part(id) && is_part(branch) && is_part(i) && is_part(b),
    ensures
        !version_key_of(i, b, n, k_branch_state(id, branch)),
{
    lemma_branch_keys(id, branch, n);
    lemma_branch_keys(i, b, n);
    assert(parts(k_branch_state(id, branch)).len() == 5);
}

/// Whether a key belongs to a project.
pub open spec fn in_project(k: Seq<char>) -> bool {
    K_PROJECT@.is_prefix_of(k)
}

/// The keys of branches and versions belong to a project.
pub proof fn lemma_in_project(id: Seq<char>, branch: Seq<char>, no: u64)
    ensures
        in_project(k_project(id)),
        in_project(k_struct(id)),
        in_project(k_branch_state(id, branch)),
        in_project(k_version(id, branch, no)),
        in_project(k_snapshot(id, branch, no)),
        in_project(k_diff(id, branch, no)),
{
    lemma_prefix_of_sum(K_PROJECT@, id);
    lemma_prefix_of_sum(K_PROJECT@, id + K_STRUCT@);
    assert(k_struct(id) =~= K_PROJECT@ + (id + K_STRUCT@));
    let rest = id + K_BRANCH@ + branch + K_STATE@;
    lemma_prefix_of_sum(K_PROJECT@, rest);
    assert(k_branch_state(id, branch) =~= K_PROJECT@ + rest);
    let rest = id + K_BRANCH@ + branch + K_VERSION@ + dec(no as nat);
    lemma_prefix_of_sum(K_PROJECT@, rest);
    assert(k_version(id, branch, no) =~= K_PROJECT@ + rest);
    lemma_prefix_of_sum(K_PROJECT@, rest + K_SNAP@);
    assert(k_snapshot(id, branch, no) =~= K_PROJECT@ + (rest + K_SNAP@));
    lemma_prefix_of_sum(K_PROJECT@, rest + K_DIFF@);
    assert(k_diff(id, branch, no) =~= K_PROJECT@ + (rest + K_DIFF@));
}

pub proof fn lemma_prefix_of_sum(a: Seq<char>, b: Seq<char>)
    ensures
        a.is_prefix_of(a + b),
{
    assert((a + b).subrange(0, a.len() as int) =~= a);
}

/// A key that begins with another letter belongs to no project.
pub proof fn lemma_not_in_project(k: Seq<char>)
    requires
        k.len() == 0 || k[0] != 'p',
    ensures
        !in_project(k),
{
    reveal_strlit("p/");
    if in_project(k) {
        assert(K_PROJECT@[0] == k[0]);
    }
}

/// The keys of everything else belong to no project.
pub proof fn lemma_outside_keys(a: Seq<char>, b: Seq<char>, c: Seq<char>, d: Seq<char>, e: Seq<char>, no: u64)
    ensures
        !in_project(k_idx_pname(a)),
        !in_project(k_shared(a, b)),
        !in_project(k_shared_draft(a, b)),
        !in_project(K_SESSION@),
        !in_project(k_admin_session(a)),
        !in_project(k_pa_session(a)),
        !in_project(k_pa_session_with(a, b)),
        !in_project(k_project_admin(a)),
        !in_project(K_ADMIN_PW@),
        !in_project(K_AUDIT_SEQ@),
        !in_project(k_audit(no)),
        !in_project(k_ref_index(a, b, c, d, e)),
        !in_project(k_group_ref_index(a, b, c)),
{
    reveal_strlit("idx/pname/");
    reveal_strlit("sh/");
    reveal_strlit("sh-draft/");
    reveal_strlit("sess/admin");
    reveal_strlit("sess/admin/");
    reveal_strlit("sess/pa/");
    reveal_strlit("adm/pa/");
    reveal_strlit("sess/admin-pw");
    reveal_strlit("audit/seq");
    reveal_strlit("audit/");
    reveal_strlit("idx/ref/");
    reveal_strlit("idx/refg/");
    lemma_not_in_project(k_idx_pname(a));
    lemma_not_in_project(k_shared(a, b));
    lemma_not_in_project(k_shared_draft(a, b));
    lemma_not_in_project(K_SESSION@);
    lemma_not_in_project(k_admin_session(a));
    lemma_not_in_project(k_pa_session(a));
    lemma_not_in_project(k_pa_session_with(a, b));
    lemma_not_in_project(k_project_admin(a));
    lemma_not_in_project(K_ADMIN_PW@);
    lemma_not_in_project(K_AUDIT_SEQ@);
    lemma_not_in_project(k_audit(no));
    lemma_not_in_project(k_ref_index(a, b, c, d, e));
    lemma_not_in_project(k_group_ref_index(a, b, c));
}

/// Whether the key is that of the project, or stands below it.
pub open spec fn belongs_to(id: Seq<char>, k: Seq<char>) -> bool {
    k == k_project(id) || (k_project(id) + "/"@).is_prefix_of(k)
}

/// A key of a project belongs to that project and to no other.
pub proof fn lemma_belongs_to(id: Seq<char>, i: Seq<char>, rest: Seq<char>)
    requires
        is_part(id) && is_part(i),
        rest.len() > 0 ==> rest[0] == '/',
    ensures
        belongs_to(id, k_project(i) + rest) <==> id == i,
{
    reveal_strlit("/");
    let k = k_project(i) + rest;
    let own = k_project(id) + "/"@;
    let p = K_PROJECT@.len() as int;
    if belongs_to(id, k) {
        if k == k_project(id) {
            if rest.len() > 0 {
                assert(k[p + i.len()] == '/');
                assert(k_project(id)[p + i.len()] == id[i.len() as int]);
                assert(id.contains('/'));
            }
        } else {
            assert(own[p + id.len()] == '/');
            if id.len() < i.len() {
                assert(k[p + id.len()] == i[id.len() as int]);
                assert(i.contains('/'));
            }
            if i.len() < id.len() {
                assert(k[p + i.len()] == '/');
                assert(own[p + i.len()] == id[i.len() as int]);
                assert(id.contains('/'));
            }
        }
        assert forall|j: int| 0 <= j < id.len() implies id[j] == i[j] by {
            assert(k_project(id)[p + j] == id[j]);
            assert(k[p + j] == i[j]);
            if k != k_project(id) {
                assert(own[p + j] == k[p + j]);
            }
        }
        assert(id =~= i);
    }
    if id == i {
        if rest.len() > 0 {
            assert(k.subrange(0, own.len() as int) =~= own);
        } else {
            assert(k =~= k_project(id));
        }
    }
}

/// A key of a project goes with the projects whose names begin that of the project.
pub proof fn lemma_of_project(id: Seq<char>, i: Seq<char>, rest: Seq<char>)
    requires
        is_part(id) && is_part(i),
        rest.len() > 0 ==> rest[0] == '/',
    ensures
        of_project(id, k_project(i) + rest) <==> id.is_prefix_of(i),
{
    let k = k_project(i) + rest;
    let own = k_project(id);
    let p = K_PROJECT@.len() as int;
    if of_project(id, k) {
        assert forall|j: int| 0 <= j < own.len() implies own[j] == k[j] by {}
        if i.len() < id.len() {
            assert(k[p + i.len()] == '/');
            assert(own[p + i.len()] == id[i.len() as int]);
            assert(id.contains('/'));
        }
        assert forall|j: int| 0 <= j < id.len() implies id[j] == i[j] by {
            assert(own[p + j] == id[j]);
            assert(k[p + j] == i[j]);
        }
        assert(i.subrange(0, id.len() as int) =~= id);
    }
    if id.is_prefix_of(i) {
        assert(k.subrange(0, own.len() as int) =~= own);
    }
}

/// A key of a branch goes with the branches of its project whose names begin that of the branch.
pub proof fn lemma_of_branch(
    id: Seq<char>,
    name: Seq<char>,
    i: Seq<char>,
    b: Seq<char>,
    rest: Seq<char>,
)
    requires
        is_part(id) && is_part(name) && is_part(i) && is_part(b),
        rest.len() > 0 && rest[0] == '/',
    ensures
        of_branch(id, name, k_branch_prefix(i, b) + rest) <==> id == i && name.is_prefix_of(b),
{
    reveal_strlit("/b/");
    let pre = k_branch_prefix(id, name);
    let k = k_branch_prefix(i, b) + rest;
    let p = K_PROJECT@.len() as int;
    if of_branch(id, name, k) {
        assert forall|j: int| 0 <= j < pre.len() implies pre[j] == k[j] by {}
        if id.len() < i.len() {
            assert(pre[p + id.len()] == '/');
            assert(k[p + id.len()] == i[id.len() as int]);
            assert(i.contains('/'));
        }
        if i.len() < id.len() {
            assert(k[p + i.len()] == '/');
            assert(pre[p + i.len()] == id[i.len() as int]);
            assert(id.contains('/'));
        }
        assert forall|j: int| 0 <= j < id.len() implies id[j] == i[j] by {
            assert(pre[p + j] == id[j]);
            assert(k[p + j] == i[j]);
        }
        assert(id =~= i);
        let q = p + i.len() + 3;
        if b.len() < name.len() {
            assert(k[q + b.len()] == '/');
            assert(pre[q + b.len()] == name[b.len() as int]);
            assert(name.contains('/'));
        }
        assert forall|j: int| 0 <= j < name.len() implies name[j] == b[j] by {
            assert(pre[q + j] == name[j]);
            assert(k[q + j] == b[j]);
        }
        assert(b.subrange(0, name.len() as int) =~= name);
    }
    if id == i && name.is_prefix_of(b) {
        assert(k.subrange(0, pre.len() as int) =~= pre);
    }
}

} // verus!
