//! The requests of the client.
use vstd::prelude::*;

use crate::admin::{
    AdminCmd, JoinAnswer, is_joined, next_target, object, request_of, without_slashes,
};
use crate::api::url_of;
use crate::laws::rendering::law_literals_tell_texts_apart;
use crate::outside::json_literal;
use crate::text::{dec, lemma_dec_value};

verus! {

/// The address of a service loses the slashes at its end and nothing else.
pub proof fn law_only_slashes_are_taken_off(s: Seq<char>)
    ensures
        ({
            let r = without_slashes(s);
            &&& r.len() <= s.len() && s.take(r.len() as int) == r
            &&& r.len() > 0 ==> r.last() != '/'
            &&& forall|i: int| r.len() <= i < s.len() ==> #[trigger] s[i] == '/'
        }),
    decreases s.len(),
{
    if s.len() > 0 && s.last() == '/' {
        let d = s.drop_last();
        let r = without_slashes(s);
        law_only_slashes_are_taken_off(d);
        assert(s.take(r.len() as int) =~= d.take(r.len() as int));
        assert forall|i: int| r.len() <= i < s.len() implies #[trigger] s[i] == '/' by {
            if i < d.len() {
                assert(d[i] == s[i]);
            }
        }
    } else {
        assert(s.take(s.len() as int) =~= s);
    }
}

/// Whether two commands ask for the same.
pub open spec fn ask_alike(a: AdminCmd, b: AdminCmd) -> bool {
    match (a, b) {
        (AdminCmd::RotateMasterKey { new_key: x }, AdminCmd::RotateMasterKey { new_key: y }) => x@ == y@,
        (AdminCmd::ForceLogout, AdminCmd::ForceLogout) => true,
        (AdminCmd::SetPassword { password: x }, AdminCmd::SetPassword { password: y }) => x@ == y@,
        (AdminCmd::Promote { node: x }, AdminCmd::Promote { node: y }) => x == y,
        (AdminCmd::RemoveNode { node: x }, AdminCmd::RemoveNode { node: y }) => x == y,
        (AdminCmd::Snapshot { .. }, AdminCmd::Snapshot { .. }) => true,
        (AdminCmd::RetentionStatus, AdminCmd::RetentionStatus) => true,
        _ => false,
    }
}

proof fn lemma_objects_apart(name: Seq<char>, a: Seq<char>, b: Seq<char>)
    requires
        object(name, a) == object(name, b),
    ensures
        a == b,
{
    let pre = "{\""@ + name + "\":"@;
    reveal_strlit("}");
    assert(object(name, a) =~= pre + a + "}"@);
    assert(object(name, b) =~= pre + b + "}"@);
    let n = pre.len() as int;
    assert(object(name, a).len() == object(name, b).len());
    assert(a =~= object(name, a).subrange(n, n + a.len()));
    assert(b =~= object(name, b).subrange(n, n + b.len()));
}

proof fn lemma_ends(base: Seq<char>, path: Seq<char>)
    requires
        path.len() >= 2,
    ensures
        (base + path).len() >= 2,
        (base + path)[(base + path).len() - 1] == path[path.len() - 1],
        (base + path)[(base + path).len() - 2] == path[path.len() - 2],
{
}

proof fn lemma_all_ends(e: Seq<char>, base: Seq<char>)
    ensures
        ends_in(e + "/api/v1/admin/rotate-master-key"@, 'e', 'y'),
        ends_in(base + "/api/v1/admin/force-logout"@, 'u', 't'),
        ends_in(base + "/api/v1/admin/set-password"@, 'r', 'd'),
        ends_in(base + "/api/v1/cluster/promote"@, 't', 'e'),
        ends_in(base + "/api/v1/cluster/remove"@, 'v', 'e'),
        ends_in(base + "/api/v1/admin/snapshot"@, 'o', 't'),
        ends_in(base + "/api/v1/admin/retention-status"@, 'u', 's'),
{
    reveal_strlit("/api/v1/admin/rotate-master-key");
    reveal_strlit("/api/v1/admin/force-logout");
    reveal_strlit("/api/v1/admin/set-password");
    reveal_strlit("/api/v1/cluster/promote");
    reveal_strlit("/api/v1/cluster/remove");
    reveal_strlit("/api/v1/admin/snapshot");
    reveal_strlit("/api/v1/admin/retention-status");
    lemma_ends(e, "/api/v1/admin/rotate-master-key"@);
    lemma_ends(base, "/api/v1/admin/force-logout"@);
    lemma_ends(base, "/api/v1/admin/set-password"@);
    lemma_ends(base, "/api/v1/cluster/promote"@);
    lemma_ends(base, "/api/v1/cluster/remove"@);
    lemma_ends(base, "/api/v1/admin/snapshot"@);
    lemma_ends(base, "/api/v1/admin/retention-status"@);
}

spec fn ends_in(s: Seq<char>, a: char, b: char) -> bool {
    s.len() >= 2 && s[s.len() - 2] == a && s[s.len() - 1] == b
}

/// Commands that ask for different things make different requests, and only making a key makes none. What changes
/// something is sent as POST, what only reads as GET.
pub proof fn law_requests_tell_commands_apart(endpoint: Seq<char>, a: AdminCmd, b: AdminCmd)
    ensures
        request_of(endpoint, a) is None <==> a is GenMasterKey,
        request_of(endpoint, a) matches Some(r) ==> (r.post <==> !(a is Snapshot || a is RetentionStatus)) && (
        r.body is Some ==> r.post),
        request_of(endpoint, a) is Some && request_of(endpoint, a) == request_of(endpoint, b) ==> ask_alike(a, b),
{
    lemma_all_ends(endpoint, without_slashes(endpoint));
    if request_of(endpoint, a) is Some && request_of(endpoint, a) == request_of(endpoint, b) {
        match (a, b) {
            (AdminCmd::RotateMasterKey { new_key: x }, AdminCmd::RotateMasterKey { new_key: y }) => {
                lemma_objects_apart("new_key"@, json_literal(x@), json_literal(y@));
                law_literals_tell_texts_apart(x@, y@);
            },
            (AdminCmd::SetPassword { password: x }, AdminCmd::SetPassword { password: y }) => {
                lemma_objects_apart("password"@, json_literal(x@), json_literal(y@));
                law_literals_tell_texts_apart(x@, y@);
            },
            (AdminCmd::Promote { node: x }, AdminCmd::Promote { node: y }) => {
                lemma_objects_apart("node_id"@, dec(x as nat), dec(y as nat));
                lemma_dec_value(x as nat);
                lemma_dec_value(y as nat);
            },
            (AdminCmd::RemoveNode { node: x }, AdminCmd::RemoveNode { node: y }) => {
                lemma_objects_apart("node_id"@, dec(x as nat), dec(y as nat));
                lemma_dec_value(x as nat);
                lemma_dec_value(y as nat);
            },
            _ => {},
        }
    }
}

/// A node that asks to join asks a node that answered, or the leader that it named; it is done where it was taken
/// or is a member already.
pub proof fn law_joins_follow_the_leader(url: Seq<char>, status: u16, hint: Option<String>)
    ensures
        next_target(url, JoinAnswer::Silence) == url,
        !is_joined(JoinAnswer::Silence),
        is_joined(JoinAnswer::Status(status, hint)) <==> (200 <= status < 300 || status == 409),
        next_target(url, JoinAnswer::Status(status, hint)) != url ==> status == 428 && (hint matches Some(h)
            && next_target(url, JoinAnswer::Status(status, hint)) == url_of(h@)),
        status == 428 && (hint matches Some(h) && h@.len() > 0 && h@ != url) ==> next_target(
            url,
            JoinAnswer::Status(status, hint),
        ) == url_of(hint->0@),
{
}

} // verus!
