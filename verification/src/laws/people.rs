//! Sessions and accounts.
use vstd::prelude::*;

use crate::command::CommandView;
use crate::error::{ErrorKind, ErrorView, err};
use crate::keys::{
    K_ADMIN_PW, K_SESSION, K_SESSIONS, k_admin_session, k_pa_session, k_pa_session_with,
    k_pa_sessions_prefix, k_project_admin,
};
use crate::laws::lifecycle::project_at;
use crate::laws::paths::lemma_prefix_of_sum;
use crate::laws::sound::same_at;
use crate::model::{AdminSessionView, EntryView, PrincipalView, ProjectAdminAccountView};
use crate::step::{account_char, is_account_name};
use crate::store::State;
use crate::transition::{
    Progress, account_create, account_delete, account_login, account_set_password,
    account_single_login, prolong, session_login, session_of, step,
};

verus! {

/// One administrator is logged in at a time: while the session is there, another login is refused, and
/// after a logout it is accepted.
pub proof fn law_one_admin_at_a_time(
    s: State,
    a: Seq<char>,
    b: Seq<char>,
    issued_at: i64,
    expires_at: Option<i64>,
    now: i64,
)
    requires
        step(s, CommandView::SessionLogin { token_hash: a, issued_at, expires_at }, now) is Ok,
    ensures
        ({
            let login = CommandView::SessionLogin { token_hash: b, issued_at, expires_at };
            let t = step(
                s,
                CommandView::SessionLogin { token_hash: a, issued_at, expires_at },
                now,
            )->Ok_0.0;
            let u = step(t, CommandView::SessionLogout, now)->Ok_0.0;
            &&& step(t, login, now) == Err::<Progress, ErrorView>(
                err(ErrorKind::SessionInUse, "已有管理员在线"@),
            )
            &&& step(t, CommandView::SessionLogout, now) is Ok
            &&& step(u, login, now) is Ok
        }),
{
    reveal(session_login);
}

/// What a command about one session of the administrator does to another: nothing.
pub proof fn law_sessions_are_independent(
    s: State,
    a: Seq<char>,
    b: Seq<char>,
    token_hash: Seq<char>,
    issued_at: i64,
    expires_at: Option<i64>,
    now: i64,
)
    requires
        a != b,
    ensures
        step(
            s,
            CommandView::MultiSessionLogin { token_hash, issued_at, expires_at, session_id: a },
            now,
        ) matches Ok(r) && same_at(s, r.0, k_admin_session(b)) && same_at(s, r.0, K_SESSION@),
        step(s, CommandView::MultiSessionLogout { session_id: a }, now) matches Ok(r) && same_at(
            s,
            r.0,
            k_admin_session(b),
        ) && same_at(s, r.0, K_SESSION@),
        step(s, CommandView::MultiSessionHeartbeat { session_id: a, expires_at }, now) matches Ok(r)
            ==> same_at(s, r.0, k_admin_session(b)) && same_at(s, r.0, K_SESSION@),
{
    reveal(prolong);
    reveal_strlit("sess/admin/");
    reveal_strlit("sess/admin");
    assert(k_admin_session(a).len() > K_SESSION@.len());
    if k_admin_session(a) == k_admin_session(b) {
        assert(a =~= k_admin_session(a).skip(K_SESSIONS@.len() as int));
        assert(b =~= k_admin_session(b).skip(K_SESSIONS@.len() as int));
    }
}

/// Logging everyone out ends every session of the administrator.
pub proof fn law_logout_ends_all_sessions(s: State, session_id: Seq<char>, now: i64)
    ensures
        step(s, CommandView::MultiSessionLogoutAll, now) matches Ok(r) && !r.0.contains_key(K_SESSION@)
            && !r.0.contains_key(k_admin_session(session_id)),
{
    lemma_prefix_of_sum(K_SESSIONS@, session_id);
}

/// A new password, and the deletion of the account, end every session of a project administrator.
pub proof fn law_new_password_ends_sessions(
    s: State,
    username: Seq<char>,
    salt: Seq<char>,
    password_hash: Seq<char>,
    session_id: Seq<char>,
    now: i64,
)
    ensures
        step(s, CommandView::ProjectAdminSetPassword { username, salt, password_hash }, now) matches Ok(
            r,
        ) ==> !r.0.contains_key(k_pa_session(username)) && !r.0.contains_key(
            k_pa_session_with(username, session_id),
        ),
        step(s, CommandView::ProjectAdminDelete { username }, now) matches Ok(r)
            ==> !r.0.contains_key(k_pa_session(username)) && !r.0.contains_key(
            k_pa_session_with(username, session_id),
        ) && !r.0.contains_key(k_project_admin(username)),
{
    reveal(account_set_password);
    reveal(account_delete);
    let pre = k_pa_sessions_prefix(username);
    lemma_prefix_of_sum(pre, session_id);
    assert(k_pa_session_with(username, session_id) =~= pre + session_id);
    assert(session_of(username, k_pa_session(username)));
    assert(session_of(username, k_pa_session_with(username, session_id)));
}

/// The session under a key.
pub open spec fn session_at(s: State, k: Seq<char>) -> Option<AdminSessionView> {
    if s.contains_key(k) {
        match s[k] {
            EntryView::Session(x) => Some(x),
            _ => None,
        }
    } else {
        None
    }
}

/// The account with the name.
pub open spec fn account_at(s: State, username: Seq<char>) -> Option<ProjectAdminAccountView> {
    if s.contains_key(k_project_admin(username)) {
        match s[k_project_admin(username)] {
            EntryView::Account(a) => Some(a),
            _ => None,
        }
    } else {
        None
    }
}

/// A login of the administrator makes a session with its token, its times and the administrator's rights. The
/// single session has to be free; one with an id of its own is made in any case.
pub proof fn law_admin_logs_in(
    s: State,
    token_hash: Seq<char>,
    issued_at: i64,
    expires_at: Option<i64>,
    session_id: Seq<char>,
    now: i64,
)
    ensures
        ({
            let one = step(s, CommandView::SessionLogin { token_hash, issued_at, expires_at }, now);
            let many = step(
                s,
                CommandView::MultiSessionLogin { token_hash, issued_at, expires_at, session_id },
                now,
            );
            &&& one is Ok <==> !s.contains_key(K_SESSION@)
            &&& one matches Ok(r) ==> (session_at(r.0, K_SESSION@) matches Some(x) && x.token_hash
                == token_hash && x.issued_at == issued_at && x.expires_at == expires_at
                && x.principal is Admin) && forall|k: Seq<char>|
                k != K_SESSION@ ==> #[trigger] same_at(s, r.0, k)
            &&& many matches Ok(r) && (session_at(r.0, k_admin_session(session_id)) matches Some(x)
                && x.token_hash == token_hash && x.issued_at == issued_at && x.expires_at == expires_at
                && x.principal is Admin) && forall|k: Seq<char>|
                k != k_admin_session(session_id) ==> #[trigger] same_at(s, r.0, k)
        }),
{
    reveal(session_login);
}

/// A heartbeat needs the session, gives it a new end, and changes nothing else.
pub proof fn law_heartbeat_moves_the_end(
    s: State,
    session_id: Seq<char>,
    username: Seq<char>,
    expires_at: Option<i64>,
    now: i64,
)
    ensures
        ({
            let one = step(s, CommandView::SessionHeartbeat { expires_at }, now);
            let many = step(s, CommandView::MultiSessionHeartbeat { session_id, expires_at }, now);
            let theirs = step(s, CommandView::PaSessionHeartbeat { username, expires_at }, now);
            &&& is_prolonged(s, one, K_SESSION@, expires_at)
            &&& is_prolonged(s, many, k_admin_session(session_id), expires_at)
            &&& is_prolonged(s, theirs, k_pa_session(username), expires_at)
        }),
{
    reveal(prolong);
}

/// Whether the session under the key has a new end after the command, which fails where there is none.
pub open spec fn is_prolonged(
    s: State,
    r: Result<Progress, ErrorView>,
    k: Seq<char>,
    expires_at: Option<i64>,
) -> bool {
    &&& r is Ok <==> session_at(s, k) is Some
    &&& !s.contains_key(k) ==> r->Err_0.kind == ErrorKind::SessionExpired
    &&& r matches Ok(x) ==> (session_at(x.0, k) matches Some(new) && new.expires_at == expires_at
        && new.token_hash == session_at(s, k)->0.token_hash && new.issued_at == session_at(s, k)->0.issued_at
        && new.principal == session_at(s, k)->0.principal && new.device_id == session_at(
        s,
        k,
    )->0.device_id) && forall|y: Seq<char>| y != k ==> #[trigger] same_at(s, x.0, y)
}

/// A logout takes its own session away and no other.
pub proof fn law_logout_ends_one_session(s: State, session_id: Seq<char>, username: Seq<char>, now: i64)
    ensures
        step(s, CommandView::SessionLogout, now) matches Ok(r) && !r.0.contains_key(K_SESSION@)
            && forall|k: Seq<char>| k != K_SESSION@ ==> #[trigger] same_at(s, r.0, k),
        step(s, CommandView::MultiSessionLogout { session_id }, now) matches Ok(r) && !r.0.contains_key(
            k_admin_session(session_id),
        ) && forall|k: Seq<char>| k != k_admin_session(session_id) ==> #[trigger] same_at(s, r.0, k),
        step(s, CommandView::PaSessionLogout { username }, now) matches Ok(r) && !r.0.contains_key(
            k_pa_session(username),
        ) && forall|k: Seq<char>| k != k_pa_session(username) ==> #[trigger] same_at(s, r.0, k),
        step(s, CommandView::MultiSessionLogoutAll, now) matches Ok(r) && forall|k: Seq<char>|
            k != K_SESSION@ && !K_SESSIONS@.is_prefix_of(k) ==> #[trigger] same_at(s, r.0, k),
{
}

/// The name of an account: 2 to 64 letters, digits, underscores and hyphens, and not that of the
/// administrator.
pub open spec fn is_user_name(s: Seq<char>) -> bool {
    &&& 2 <= s.len() <= 64
    &&& s != "admin"@
    &&& forall|i: int|
        0 <= i < s.len() ==> {
            ||| 97 <= #[trigger] s[i] as int <= 122
            ||| 65 <= s[i] as int <= 90
            ||| 48 <= s[i] as int <= 57
            ||| s[i] == '_'
            ||| s[i] == '-'
        }
}

/// An account can be made for a project that is there, under a proper name that is free. It is then there as
/// it was given, and nothing else changes.
pub proof fn law_accounts_are_made(
    s: State,
    project: Seq<char>,
    username: Seq<char>,
    salt: Seq<char>,
    password_hash: Seq<char>,
    ts: i64,
    now: i64,
)
    ensures
        ({
            let r = step(
                s,
                CommandView::ProjectAdminCreate { project, username, salt, password_hash, ts },
                now,
            );
            &&& r is Ok <==> is_user_name(username) && project_at(s, project) is Some && !s.contains_key(
                k_project_admin(username),
            )
            &&& r matches Ok(x) ==> account_at(x.0, username) == Some(
                ProjectAdminAccountView {
                    username,
                    project,
                    salt,
                    password_hash,
                    created_at: if ts > 0 {
                        ts
                    } else {
                        now
                    },
                },
            ) && forall|k: Seq<char>| k != k_project_admin(username) ==> #[trigger] same_at(s, x.0, k)
        }),
{
    reveal(account_create);
    if is_account_name(username) {
        assert forall|i: int| 0 <= i < username.len() implies {
            ||| 97 <= #[trigger] username[i] as int <= 122
            ||| 65 <= username[i] as int <= 90
            ||| 48 <= username[i] as int <= 57
            ||| username[i] == '_'
            ||| username[i] == '-'
        } by {
            assert(account_char(username[i]));
        }
    }
    if is_user_name(username) {
        assert forall|i: int| 0 <= i < username.len() implies account_char(#[trigger] username[i]) by {
            assert(97 <= username[i] as int <= 122 || 65 <= username[i] as int <= 90 || 48
                <= username[i] as int <= 57 || username[i] == '_' || username[i] == '-');
        }
    }
}

/// A new password is the password of the account from then on, and the account stays with its project. It
/// needs the account, as its deletion does.
pub proof fn law_passwords_are_changed(
    s: State,
    username: Seq<char>,
    salt: Seq<char>,
    password_hash: Seq<char>,
    now: i64,
)
    ensures
        ({
            let set = step(s, CommandView::ProjectAdminSetPassword { username, salt, password_hash }, now);
            let gone = step(s, CommandView::ProjectAdminDelete { username }, now);
            &&& set is Ok <==> account_at(s, username) is Some
            &&& gone is Ok <==> account_at(s, username) is Some
            &&& set matches Ok(x) ==> (account_at(x.0, username) matches Some(a) && a.salt == salt
                && a.password_hash == password_hash && a.username == account_at(s, username)->0.username
                && a.project == account_at(s, username)->0.project && a.created_at == account_at(
                s,
                username,
            )->0.created_at) && forall|k: Seq<char>|
                k != k_project_admin(username) && !session_of(username, k) ==> #[trigger] same_at(s, x.0, k)
            &&& gone matches Ok(x) ==> account_at(x.0, username) is None && forall|k: Seq<char>|
                k != k_project_admin(username) && !session_of(username, k) ==> #[trigger] same_at(s, x.0, k)
        }),
{
    reveal(account_set_password);
    reveal(account_delete);
    lemma_account_is_no_session(username);
}

proof fn lemma_account_is_no_session(username: Seq<char>)
    ensures
        !session_of(username, k_project_admin(username)),
{
    reveal_strlit("adm/pa/");
    reveal_strlit("sess/pa/");
    let k = k_project_admin(username);
    assert(k[0] == 'a');
    assert(k_pa_session(username)[0] == 's');
    if k_pa_sessions_prefix(username).is_prefix_of(k) {
        assert(k_pa_sessions_prefix(username)[0] == k[0]);
    }
}

/// A login of a project administrator needs the account, and makes a session with its token, its times and
/// the rights over the project of the account, and no other. The single session has to be free.
pub proof fn law_project_admin_logs_in(
    s: State,
    username: Seq<char>,
    token_hash: Seq<char>,
    issued_at: i64,
    expires_at: Option<i64>,
    device_id: Seq<char>,
    session_id: Seq<char>,
    now: i64,
)
    ensures
        ({
            let one = step(
                s,
                CommandView::PaSessionLogin { username, token_hash, issued_at, expires_at, device_id },
                now,
            );
            let many = step(
                s,
                CommandView::MultiPaSessionLogin {
                    username,
                    token_hash,
                    issued_at,
                    expires_at,
                    device_id,
                    session_id,
                },
                now,
            );
            let new = AdminSessionView {
                token_hash,
                issued_at,
                expires_at,
                device_id,
                principal: PrincipalView::ProjectAdmin {
                    username,
                    project: account_at(s, username)->0.project,
                },
            };
            &&& one is Ok <==> account_at(s, username) is Some && !s.contains_key(k_pa_session(username))
            &&& many is Ok <==> account_at(s, username) is Some
            &&& one matches Ok(x) ==> session_at(x.0, k_pa_session(username)) == Some(new)
                && forall|k: Seq<char>| k != k_pa_session(username) ==> #[trigger] same_at(s, x.0, k)
            &&& many matches Ok(x) ==> session_at(x.0, k_pa_session_with(username, session_id)) == Some(new)
                && forall|k: Seq<char>|
                k != k_pa_session_with(username, session_id) ==> #[trigger] same_at(s, x.0, k)
        }),
{
    reveal(account_single_login);
    reveal(account_login);
}

/// The password of the administrator is what was set last, and setting it changes nothing else.
pub proof fn law_admin_password_is_set(s: State, password_hash: Seq<char>, now: i64)
    ensures
        step(s, CommandView::AdminSetPassword { password_hash }, now) matches Ok(r) && r.0.contains_key(
            K_ADMIN_PW@,
        ) && r.0[K_ADMIN_PW@] == EntryView::Text(password_hash) && forall|k: Seq<char>|
            k != K_ADMIN_PW@ ==> #[trigger] same_at(s, r.0, k),
{
}

} // verus!
