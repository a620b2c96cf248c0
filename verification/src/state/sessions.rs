//! Commands on sessions, accounts and the audit trail.
use vstd::prelude::*;
use vstd::std_specs::iter::IteratorSpec;
use vstd::string::StrSliceExecFns;

use crate::dup::Dup;
use crate::error::{Error, ErrorKind, err};
use crate::keys::{
    K_ADMIN_PW, K_AUDIT_SEQ, K_SESSION, K_SESSIONS, admin_session_key, audit_key, k_admin_session,
    k_pa_session, k_pa_session_with, pa_session_key, pa_session_key_with, project_admin_key,
    session_key,
};
use crate::model::{
    AdminSession, AuditEntry, Entry, EntryView, Principal, ProjectAdminAccount, ProjectId,
};
use crate::state::{ApplyOutcome, PendingOp, StateMachine};
use crate::state::drafts::next_after;
use crate::state::projects::{add_keys, lemma_under_rows, no_events, push_key, text3};
use crate::step::{account_char, is_account_name};
use crate::store::{KeyValuePairs, Store, row_views};
use crate::text::same;
use crate::transition::{
    account_create, account_delete, account_login, account_missing, account_set_password,
    account_single_login, admin_session, applies, audit_append, done, prolong, session_login,
    without_admin_sessions, without_sessions_of,
};

verus! {

/// Whether `name` may name a project administrator.
pub fn valid_pa_username(name: &str) -> (r: bool)
    ensures
        r == is_account_name(name@),
{
    let n: usize = name.unicode_len();
    if n < 2 || n > 64 || same(name, "admin") {
        return false;
    }
    let mut it = name.chars();
    let mut i: usize = 0;
    while i < n
        invariant
            i <= n == name@.len(),
            it.remaining() == name@.skip(i as int),
            forall|j: int| 0 <= j < i ==> account_char(#[trigger] name@[j]),
        decreases n - i,
    {
        let c: char = match it.next() {
            Some(c) => c,
            None => {
                return false;
            },
        };
        assert(c == name@[i as int]);
        if !(('a' <= c && c <= 'z') || ('A' <= c && c <= 'Z') || ('0' <= c && c <= '9') || c == '_'
            || c == '-') {
            assert(!account_char(name@[i as int]));
            return false;
        }
        i = i + 1;
    }
    true
}

/// A session of the administrator.
fn new_admin_session(token_hash: &str, issued_at: i64, expires_at: Option<i64>) -> (r: AdminSession)
    ensures
        r@ == admin_session(token_hash@, issued_at, expires_at),
{
    AdminSession {
        token_hash: token_hash.to_owned(),
        issued_at,
        expires_at,
        device_id: "cli".to_owned(),
        principal: Principal::Admin,
    }
}

fn no_account() -> (r: Error)
    ensures
        r@ == account_missing(),
{
    Error::new(ErrorKind::NotFound, "账号不存在")
}

impl<S: Store> StateMachine<S> {
    pub fn apply_session_login(
        &mut self,
        token_hash: &str,
        issued_at: i64,
        expires_at: Option<i64>,
    ) -> (r: ApplyOutcome)
        ensures
            applies(
                r,
                session_login(old(self)@, token_hash@, issued_at, expires_at),
                final(self)@,
                old(self).reliable(),
            ),
            r is Err ==> final(self)@ == old(self)@,
            final(self).base() == old(self).base(),
            final(self).reliable() == old(self).reliable(),
    {
        proof {
            reveal(session_login);
        }
        if self.get_session()?.is_some() {
            return Err(Error::new(ErrorKind::SessionInUse, "已有管理员在线"));
        }
        let session: AdminSession = new_admin_session(token_hash, issued_at, expires_at);
        self.put_pending(session_key().to_owned(), Entry::Session(session));
        no_events()
    }

    pub fn apply_multi_session_login(
        &mut self,
        token_hash: &str,
        issued_at: i64,
        expires_at: Option<i64>,
        session_id: &str,
    ) -> (r: ApplyOutcome)
        ensures
            applies(
                r,
                done(
                    old(self)@.insert(
                        k_admin_session(session_id@),
                        EntryView::Session(admin_session(token_hash@, issued_at, expires_at)),
                    ),
                ),
                final(self)@,
                old(self).reliable(),
            ),
            r is Err ==> final(self)@ == old(self)@,
            final(self).base() == old(self).base(),
            final(self).reliable() == old(self).reliable(),
    {
        let session: AdminSession = new_admin_session(token_hash, issued_at, expires_at);
        self.put_pending(admin_session_key(session_id), Entry::Session(session));
        no_events()
    }

    /// Ends the session under `key`, if there is one.
    fn end_session(&mut self, key: &str) -> (r: ApplyOutcome)
        ensures
            applies(r, done(old(self)@.remove(key@)), final(self)@, old(self).reliable()),
            r is Err ==> final(self)@ == old(self)@,
            final(self).base() == old(self).base(),
            final(self).reliable() == old(self).reliable(),
    {
        self.delete_pending(key);
        no_events()
    }

    pub fn apply_session_logout(&mut self) -> (r: ApplyOutcome)
        ensures
            applies(r, done(old(self)@.remove(K_SESSION@)), final(self)@, old(self).reliable()),
            r is Err ==> final(self)@ == old(self)@,
            final(self).base() == old(self).base(),
            final(self).reliable() == old(self).reliable(),
    {
        self.end_session(session_key())
    }

    pub fn apply_multi_session_logout(&mut self, session_id: &str) -> (r: ApplyOutcome)
        ensures
            applies(
                r,
                done(old(self)@.remove(k_admin_session(session_id@))),
                final(self)@,
                old(self).reliable(),
            ),
            r is Err ==> final(self)@ == old(self)@,
            final(self).base() == old(self).base(),
            final(self).reliable() == old(self).reliable(),
    {
        self.end_session(admin_session_key(session_id).as_str())
    }

    pub fn apply_multi_session_logout_all(&mut self) -> (r: ApplyOutcome)
        ensures
            applies(
                r,
                done(without_admin_sessions(old(self)@)),
                final(self)@,
                old(self).reliable(),
            ),
            r is Err ==> final(self)@ == old(self)@,
            final(self).base() == old(self).base(),
            final(self).reliable() == old(self).reliable(),
    {
        let rows: KeyValuePairs = self.get_prefix_merged(K_SESSIONS)?;
        let ghost s = self@;
        let mut keys: Vec<String> = Vec::new();
        add_keys(&mut keys, &rows);
        push_key(&mut keys, session_key().to_owned());
        self.delete_each(&keys);
        proof {
            lemma_under_rows(s, K_SESSIONS@, row_views(rows@));
            assert(self@ =~= without_admin_sessions(s));
        }
        no_events()
    }

    /// Gives the session under `key` a new end.
    fn prolong_session(&mut self, key: &str, expires_at: Option<i64>, missing: &str) -> (r: ApplyOutcome)
        ensures
            applies(
                r,
                prolong(
                    old(self)@,
                    key@,
                    expires_at,
                    err(ErrorKind::SessionExpired, missing@),
                ),
                final(self)@,
                old(self).reliable(),
            ),
            r is Err ==> final(self)@ == old(self)@,
            final(self).base() == old(self).base(),
            final(self).reliable() == old(self).reliable(),
    {
        proof {
            reveal(prolong);
        }
        let found: Option<AdminSession> = self.load_merged(key)?;
        match found {
            Some(session) => {
                let mut session: AdminSession = session;
                session.expires_at = expires_at;
                self.put_pending(key.to_owned(), Entry::Session(session));
                no_events()
            },
            None => Err(Error::new(ErrorKind::SessionExpired, missing)),
        }
    }

    pub fn apply_session_heartbeat(&mut self, expires_at: Option<i64>) -> (r: ApplyOutcome)
        ensures
            applies(
                r,
                prolong(
                    old(self)@,
                    K_SESSION@,
                    expires_at,
                    err(ErrorKind::SessionExpired, "未登录"@),
                ),
                final(self)@,
                old(self).reliable(),
            ),
            r is Err ==> final(self)@ == old(self)@,
            final(self).base() == old(self).base(),
            final(self).reliable() == old(self).reliable(),
    {
        self.prolong_session(session_key(), expires_at, "未登录")
    }

    pub fn apply_multi_session_heartbeat(&mut self, session_id: &str, expires_at: Option<i64>) -> (r:
        ApplyOutcome)
        ensures
            applies(
                r,
                prolong(
                    old(self)@,
                    k_admin_session(session_id@),
                    expires_at,
                    err(ErrorKind::SessionExpired, "会话不存在"@),
                ),
                final(self)@,
                old(self).reliable(),
            ),
            r is Err ==> final(self)@ == old(self)@,
            final(self).base() == old(self).base(),
            final(self).reliable() == old(self).reliable(),
    {
        self.prolong_session(admin_session_key(session_id).as_str(), expires_at, "会话不存在")
    }

    pub fn apply_project_admin_create(
        &mut self,
        project: &ProjectId,
        username: &str,
        salt: &str,
        password_hash: &str,
        now_ms: i64,
    ) -> (r: ApplyOutcome)
        ensures
            applies(
                r,
                account_create(old(self)@, project@, username@, salt@, password_hash@, now_ms),
                final(self)@,
                old(self).reliable(),
            ),
            r is Err ==> final(self)@ == old(self)@,
            final(self).base() == old(self).base(),
            final(self).reliable() == old(self).reliable(),
    {
        proof {
            reveal(account_create);
        }
        if !valid_pa_username(username) {
            return Err(
                Error::new(
                    ErrorKind::Validation,
                    "用户名须为 2-64 位 [A-Za-z0-9_-] 且不可为 admin",
                ),
            );
        }
        if self.get_project(project)?.is_none() {
            return Err(
                Error::new(
                    ErrorKind::NotFound,
                    text3("项目 ", project.as_str(), " 不存在").as_str(),
                ),
            );
        }
        if self.get_project_admin(username)?.is_some() {
            return Err(Error::new(ErrorKind::Conflict, "账号已存在"));
        }
        let account: ProjectAdminAccount = ProjectAdminAccount {
            username: username.to_owned(),
            project: project.dup(),
            salt: salt.to_owned(),
            password_hash: password_hash.to_owned(),
            created_at: now_ms,
        };
        self.put_pending(project_admin_key(username), Entry::Account(account));
        no_events()
    }

    /// Ends the sessions of a project administrator.
    fn end_sessions_of(&mut self, username: &str) -> (r: Result<(), Error>)
        ensures
            r is Err ==> final(self)@ == old(self)@,
            final(self).base() == old(self).base(),
            final(self).reliable() == old(self).reliable(),
            r is Err ==> !old(self).reliable(),
            r is Ok ==> final(self)@ == without_sessions_of(old(self)@, username@),
    {
        let ghost s = self@;
        let mut keys: Vec<String> = Vec::new();
        self.add_sessions(&mut keys, username)?;
        self.delete_each(&keys);
        assert(self@ =~= without_sessions_of(s, username@));
        Ok(())
    }

    pub fn apply_project_admin_delete(&mut self, username: &str) -> (r: ApplyOutcome)
        ensures
            applies(r, account_delete(old(self)@, username@), final(self)@, old(self).reliable()),
            r is Err ==> final(self)@ == old(self)@,
            final(self).base() == old(self).base(),
            final(self).reliable() == old(self).reliable(),
    {
        proof {
            reveal(account_delete);
        }
        if self.get_project_admin(username)?.is_none() {
            return Err(no_account());
        }
        self.end_sessions_of(username)?;
        self.delete_pending(project_admin_key(username).as_str());
        no_events()
    }

    pub fn apply_project_admin_set_password(
        &mut self,
        username: &str,
        salt: &str,
        password_hash: &str,
    ) -> (r: ApplyOutcome)
        ensures
            applies(
                r,
                account_set_password(old(self)@, username@, salt@, password_hash@),
                final(self)@,
                old(self).reliable(),
            ),
            r is Err ==> final(self)@ == old(self)@,
            final(self).base() == old(self).base(),
            final(self).reliable() == old(self).reliable(),
    {
        proof {
            reveal(account_set_password);
        }
        let mut account: ProjectAdminAccount = match self.get_project_admin(username)? {
            Some(a) => a,
            None => {
                return Err(no_account());
            },
        };
        account.salt = salt.to_owned();
        account.password_hash = password_hash.to_owned();
        let held: Vec<PendingOp> = self.held();
        self.put_pending(project_admin_key(username), Entry::Account(account));
        match self.end_sessions_of(username) {
            Ok(_) => no_events(),
            Err(e) => {
                self.hold(held);
                Err(e)
            },
        }
    }

    /// Opens a session of a project administrator under `key`.
    fn open_session(
        &mut self,
        key: String,
        username: &str,
        token_hash: &str,
        issued_at: i64,
        expires_at: Option<i64>,
        device_id: &str,
    ) -> (r: ApplyOutcome)
        ensures
            applies(
                r,
                account_login(
                    old(self)@,
                    key@,
                    username@,
                    token_hash@,
                    issued_at,
                    expires_at,
                    device_id@,
                ),
                final(self)@,
                old(self).reliable(),
            ),
            r is Err ==> final(self)@ == old(self)@,
            final(self).base() == old(self).base(),
            final(self).reliable() == old(self).reliable(),
    {
        proof {
            reveal(account_login);
        }
        let account: ProjectAdminAccount = match self.get_project_admin(username)? {
            Some(a) => a,
            None => {
                return Err(no_account());
            },
        };
        let session: AdminSession = AdminSession {
            token_hash: token_hash.to_owned(),
            issued_at,
            expires_at,
            device_id: device_id.to_owned(),
            principal: Principal::ProjectAdmin {
                username: username.to_owned(),
                project: account.project,
            },
        };
        self.put_pending(key, Entry::Session(session));
        no_events()
    }

    pub fn apply_pa_session_login(
        &mut self,
        username: &str,
        token_hash: &str,
        issued_at: i64,
        expires_at: Option<i64>,
        device_id: &str,
    ) -> (r: ApplyOutcome)
        ensures
            applies(
                r,
                account_single_login(
                    old(self)@,
                    username@,
                    token_hash@,
                    issued_at,
                    expires_at,
                    device_id@,
                ),
                final(self)@,
                old(self).reliable(),
            ),
            r is Err ==> final(self)@ == old(self)@,
            final(self).base() == old(self).base(),
            final(self).reliable() == old(self).reliable(),
    {
        proof {
            reveal(account_single_login);
        }
        if self.get_pa_session(username)?.is_some() {
            return Err(Error::new(ErrorKind::SessionInUse, "该账号已有会话在线"));
        }
        self.open_session(
            pa_session_key(username),
            username,
            token_hash,
            issued_at,
            expires_at,
            device_id,
        )
    }

    pub fn apply_multi_pa_session_login(
        &mut self,
        username: &str,
        token_hash: &str,
        issued_at: i64,
        expires_at: Option<i64>,
        device_id: &str,
        session_id: &str,
    ) -> (r: ApplyOutcome)
        ensures
            applies(
                r,
                account_login(
                    old(self)@,
                    k_pa_session_with(username@, session_id@),
                    username@,
                    token_hash@,
                    issued_at,
                    expires_at,
                    device_id@,
                ),
                final(self)@,
                old(self).reliable(),
            ),
            r is Err ==> final(self)@ == old(self)@,
            final(self).base() == old(self).base(),
            final(self).reliable() == old(self).reliable(),
    {
        self.open_session(
            pa_session_key_with(username, session_id),
            username,
            token_hash,
            issued_at,
            expires_at,
            device_id,
        )
    }

    pub fn apply_pa_session_logout(&mut self, username: &str) -> (r: ApplyOutcome)
        ensures
            applies(
                r,
                done(old(self)@.remove(k_pa_session(username@))),
                final(self)@,
                old(self).reliable(),
            ),
            r is Err ==> final(self)@ == old(self)@,
            final(self).base() == old(self).base(),
            final(self).reliable() == old(self).reliable(),
    {
        self.end_session(pa_session_key(username).as_str())
    }

    pub fn apply_pa_session_heartbeat(&mut self, username: &str, expires_at: Option<i64>) -> (r:
        ApplyOutcome)
        ensures
            applies(
                r,
                prolong(
                    old(self)@,
                    k_pa_session(username@),
                    expires_at,
                    err(ErrorKind::SessionExpired, "会话不存在"@),
                ),
                final(self)@,
                old(self).reliable(),
            ),
            r is Err ==> final(self)@ == old(self)@,
            final(self).base() == old(self).base(),
            final(self).reliable() == old(self).reliable(),
    {
        self.prolong_session(pa_session_key(username).as_str(), expires_at, "会话不存在")
    }

    pub fn apply_admin_set_password(&mut self, password_hash: &str) -> (r: ApplyOutcome)
        ensures
            applies(
                r,
                done(old(self)@.insert(K_ADMIN_PW@, EntryView::Text(password_hash@))),
                final(self)@,
                old(self).reliable(),
            ),
            r is Err ==> final(self)@ == old(self)@,
            final(self).base() == old(self).base(),
            final(self).reliable() == old(self).reliable(),
    {
        self.put_pending(K_ADMIN_PW.to_owned(), Entry::Text(password_hash.to_owned()));
        no_events()
    }

    /// Appends to the audit trail under the next number; the number of `entry` does not count.
    pub fn apply_audit_append(&mut self, entry: &AuditEntry) -> (r: ApplyOutcome)
        ensures
            applies(r, audit_append(old(self)@, entry@), final(self)@, old(self).reliable()),
            r is Err ==> final(self)@ == old(self)@,
            final(self).base() == old(self).base(),
            final(self).reliable() == old(self).reliable(),
    {
        proof {
            reveal(audit_append);
        }
        let prev: Option<u64> = self.load_merged(K_AUDIT_SEQ)?;
        let seq: u64 = next_after(
            match prev {
                Some(n) => n,
                None => 0,
            },
        )?;
        let mut numbered: AuditEntry = entry.dup();
        numbered.seq = seq;
        self.put_pending(audit_key(seq), Entry::Audit(numbered));
        self.put_pending(K_AUDIT_SEQ.to_owned(), Entry::Counter(seq));
        no_events()
    }
}

} // verus!
