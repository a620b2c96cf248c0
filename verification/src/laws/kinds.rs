//! What a key says of its entry.
use vstd::prelude::*;

use crate::keys::{
    K_ADMIN_PW, K_AUDIT, K_AUDIT_SEQ, K_IDX_PNAME, K_IDX_REF, K_IDX_REFG, K_PA_ACCOUNT,
    K_PA_SESSION, K_PROJECT, K_REF, K_SESSION, K_SESSIONS, K_SHARED, K_SHARED_DRAFT,
    K_STRUCT_DRAFT, k_admin_session, k_audit, k_branch_state, k_diff, k_group_ref_index,
    k_idx_pname, k_pa_session, k_pa_session_with, k_project, k_project_admin, k_ref, k_ref_index,
    k_shared, k_shared_draft, k_snapshot, k_struct, k_struct_draft, k_version,
};
use crate::kinds::{EntryKind, kind_at};
use crate::laws::paths::{
    is_part, lemma_branch_keys, lemma_in_project, lemma_parts_around, lemma_prefix_of_sum,
    lemma_project_parts, lemma_struct_draft_parts, lemma_struct_parts, lemma_words, parts,
};
use crate::laws::upkeep::lemma_audit_keys;
use crate::text::{lemma_split_nonempty, lemma_split_single};

verus! {

/// The keys of a project and its branches say what stands under them.
pub proof fn law_project_keys_tell_their_kind(id: Seq<char>, branch: Seq<char>, no: u64)
    requires
        is_part(id),
        is_part(branch),
    ensures
        kind_at(k_project(id)) == EntryKind::Project,
        kind_at(k_struct(id)) == EntryKind::Structure,
        kind_at(k_struct_draft(id)) == EntryKind::StructureDraft,
        kind_at(k_branch_state(id, branch)) == EntryKind::Branch,
        kind_at(k_version(id, branch, no)) == EntryKind::Version,
        kind_at(k_snapshot(id, branch, no)) == EntryKind::Snapshot,
        kind_at(k_diff(id, branch, no)) == EntryKind::Diff,
{
    lemma_in_project(id, branch, no);
    lemma_prefix_of_sum(K_PROJECT@, id + K_STRUCT_DRAFT@);
    assert(k_struct_draft(id) =~= K_PROJECT@ + (id + K_STRUCT_DRAFT@));
    lemma_split_single(id, '/');
    lemma_project_parts(id);
    lemma_struct_parts(id);
    lemma_struct_draft_parts(id);
    lemma_branch_keys(id, branch, no);
    lemma_words();
    reveal_strlit("refs");
    reveal_strlit("b");
    assert("refs"@.len() != "b"@.len());
    assert(parts(k_project(id)).len() == 2);
    let p = parts(k_struct(id));
    assert(p.len() == 3 && p[2] == "struct"@);
    let q = parts(k_struct_draft(id));
    assert(q.len() == 3 && q[2] == "struct-draft"@);
    let r = parts(k_branch_state(id, branch));
    assert(r.len() == 5 && r[2] == "b"@ && r[4] == "state"@);
    let v = parts(k_version(id, branch, no));
    assert(v.len() == 6 && v[2] == "b"@ && v[4] == "v"@);
    let s = parts(k_snapshot(id, branch, no));
    assert(s.len() == 7 && s[2] == "b"@ && s[4] == "v"@ && s[6] == "snap"@);
    let d = parts(k_diff(id, branch, no));
    assert(d.len() == 7 && d[2] == "b"@ && d[4] == "v"@ && d[6] == "diff"@);
}

/// The keys of references say what stands under them.
pub proof fn law_reference_keys_tell_their_kind(
    id: Seq<char>,
    group: Seq<char>,
    item_key: Option<Seq<char>>,
)
    requires
        is_part(id),
    ensures
        kind_at(k_ref(id, group, item_key)) == EntryKind::Ref,
{
    let k = k_ref(id, group, item_key);
    let rest = match item_key {
        Some(x) => group + "/"@ + x,
        None => group,
    };
    reveal_strlit("/refs/");
    reveal_strlit("refs");
    reveal_strlit("struct");
    reveal_strlit("struct-draft");
    assert(K_REF@ =~= seq!['/'] + "refs"@ + seq!['/']);
    assert(k =~= k_project(id) + K_REF@ + rest);
    lemma_project_parts(id);
    lemma_split_single(id, '/');
    lemma_parts_around(k_project(id), "refs"@, rest);
    lemma_split_nonempty(rest, '/');
    let p = parts(k);
    assert(p.len() >= 4 && p[2] == "refs"@);
    lemma_prefix_of_sum(K_PROJECT@, id + K_REF@ + rest);
    assert(k =~= K_PROJECT@ + (id + K_REF@ + rest));
}

/// Shared items, drafted or not, stand where their keys say.
pub proof fn law_shared_keys_tell_their_kind(group: Seq<char>, key: Seq<char>)
    ensures
        kind_at(k_shared(group, key)) == EntryKind::Shared,
        kind_at(k_shared_draft(group, key)) == EntryKind::Shared,
{
    reveal_strlit("p/");
    reveal_strlit("sh/");
    reveal_strlit("sh-draft/");
    let rest = group + "/"@ + key;
    lemma_prefix_of_sum(K_SHARED@, rest);
    assert(k_shared(group, key) =~= K_SHARED@ + rest);
    lemma_prefix_of_sum(K_SHARED_DRAFT@, rest);
    assert(k_shared_draft(group, key) =~= K_SHARED_DRAFT@ + rest);
    assert(k_shared(group, key)[0] == 's' && k_shared_draft(group, key)[0] == 's');
    assert(K_PROJECT@[0] == 'p');
}

/// The keys of sessions, accounts and the password say what stands under them.
pub proof fn law_people_keys_tell_their_kind(user: Seq<char>, token: Seq<char>)
    ensures
        kind_at(K_ADMIN_PW@) == EntryKind::Text,
        kind_at(K_SESSION@) == EntryKind::Session,
        kind_at(k_admin_session(token)) == EntryKind::Session,
        kind_at(k_pa_session(token)) == EntryKind::Session,
        kind_at(k_pa_session_with(user, token)) == EntryKind::Session,
        kind_at(k_project_admin(user)) == EntryKind::Account,
{
    reveal_strlit("sess/admin");
    reveal_strlit("sess/admin/");
    reveal_strlit("sess/admin-pw");
    reveal_strlit("sess/pa/");
    reveal_strlit("adm/pa/");
    lemma_begins(K_ADMIN_PW@, 's', 'e');
    lemma_begins(K_SESSION@, 's', 'e');
    let k = k_admin_session(token);
    lemma_prefix_of_sum(K_SESSIONS@, token);
    assert(k[10] == '/' && K_ADMIN_PW@[10] == '-');
    lemma_begins(k, 's', 'e');
    let k = k_pa_session(token);
    lemma_prefix_of_sum(K_PA_SESSION@, token);
    assert(k[5] == 'p' && K_ADMIN_PW@[5] == 'a');
    lemma_begins(k, 's', 'e');
    let k = k_pa_session_with(user, token);
    lemma_prefix_of_sum(K_PA_SESSION@, user + "/"@ + token);
    assert(k =~= K_PA_SESSION@ + (user + "/"@ + token));
    assert(k[5] == 'p');
    lemma_begins(k, 's', 'e');
    let k = k_project_admin(user);
    lemma_prefix_of_sum(K_PA_ACCOUNT@, user);
    lemma_begins(k, 'a', 'd');
}

/// The keys of the audit trail say what stands under them.
pub proof fn law_audit_keys_tell_their_kind(no: u64)
    ensures
        kind_at(K_AUDIT_SEQ@) == EntryKind::Counter,
        kind_at(k_audit(no)) == EntryKind::Audit,
{
    reveal_strlit("audit/");
    reveal_strlit("audit/seq");
    lemma_begins(K_AUDIT_SEQ@, 'a', 'u');
    lemma_audit_keys(no, no);
    let k = k_audit(no);
    lemma_prefix_of_sum(K_AUDIT@, k.skip(K_AUDIT@.len() as int));
    assert(k =~= K_AUDIT@ + k.skip(K_AUDIT@.len() as int));
    lemma_begins(k, 'a', 'u');
}

/// The keys of the indexes say what stands under them.
pub proof fn law_index_keys_tell_their_kind(
    a: Seq<char>,
    b: Seq<char>,
    c: Seq<char>,
    d: Seq<char>,
    e: Seq<char>,
)
    ensures
        kind_at(k_idx_pname(a)) == EntryKind::Text,
        kind_at(k_ref_index(a, b, c, d, e)) == EntryKind::Text,
        kind_at(k_group_ref_index(a, b, c)) == EntryKind::Text,
{
    reveal_strlit("idx/pname/");
    reveal_strlit("idx/ref/");
    reveal_strlit("idx/refg/");
    lemma_prefix_of_sum(K_IDX_PNAME@, a);
    lemma_begins(k_idx_pname(a), 'i', 'd');
    let rest = a + "/"@ + b + "/"@ + c + "/"@ + d + "/"@ + e;
    lemma_prefix_of_sum(K_IDX_REF@, rest);
    assert(k_ref_index(a, b, c, d, e) =~= K_IDX_REF@ + rest);
    lemma_begins(k_ref_index(a, b, c, d, e), 'i', 'd');
    let rest = a + "/"@ + b + "/"@ + c;
    lemma_prefix_of_sum(K_IDX_REFG@, rest);
    assert(k_group_ref_index(a, b, c) =~= K_IDX_REFG@ + rest);
    lemma_begins(k_group_ref_index(a, b, c), 'i', 'd');
}

/// What a key does not begin with, by its first two characters.
proof fn lemma_begins(k: Seq<char>, x: char, y: char)
    requires
        k.len() > 1,
        k[0] == x,
        k[1] == y,
    ensures
        x != 'p' ==> !K_PROJECT@.is_prefix_of(k),
        x != 's' || y != 'h' ==> !K_SHARED@.is_prefix_of(k) && !K_SHARED_DRAFT@.is_prefix_of(k),
        x != 's' ==> !K_SESSIONS@.is_prefix_of(k) && !K_PA_SESSION@.is_prefix_of(k) && k
            != K_ADMIN_PW@ && k != K_SESSION@,
        x != 'a' || y != 'd' ==> !K_PA_ACCOUNT@.is_prefix_of(k),
        x != 'a' || y != 'u' ==> !K_AUDIT@.is_prefix_of(k) && k != K_AUDIT_SEQ@,
{
    reveal_strlit("p/");
    reveal_strlit("sh/");
    reveal_strlit("sh-draft/");
    reveal_strlit("sess/admin");
    reveal_strlit("sess/admin/");
    reveal_strlit("sess/admin-pw");
    reveal_strlit("sess/pa/");
    reveal_strlit("adm/pa/");
    reveal_strlit("audit/");
    reveal_strlit("audit/seq");
    assert(K_PROJECT@[0] == 'p');
    assert(K_SHARED@[0] == 's' && K_SHARED@[1] == 'h');
    assert(K_SHARED_DRAFT@[0] == 's' && K_SHARED_DRAFT@[1] == 'h');
    assert(K_SESSIONS@[0] == 's' && K_PA_SESSION@[0] == 's');
    assert(K_ADMIN_PW@[0] == 's' && K_SESSION@[0] == 's');
    assert(K_PA_ACCOUNT@[0] == 'a' && K_PA_ACCOUNT@[1] == 'd');
    assert(K_AUDIT@[0] == 'a' && K_AUDIT@[1] == 'u');
    assert(K_AUDIT_SEQ@[0] == 'a' && K_AUDIT_SEQ@[1] == 'u');
}

} // verus!
