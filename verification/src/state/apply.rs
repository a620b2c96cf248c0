//! Applying commands.
use vstd::prelude::*;

use crate::command::Command;
use crate::dup::view_opt;
use crate::model::BranchName;
use crate::state::{ApplyOutcome, StateMachine};
use crate::state::projects::no_events;
use crate::store::Store;
use crate::transition::{applies, step, time_of};

verus! {

/// The time of a command: its own, or, where it has none, the time at which it is applied.
fn eff_ts(ts: i64, now_ms: i64) -> (r: i64)
    ensures
        r == time_of(ts, now_ms),
{
    if ts > 0 {
        ts
    } else {
        now_ms
    }
}

fn as_text(o: &Option<String>) -> (r: Option<&str>)
    ensures
        view_opt(r) == view_opt(*o),
{
    match o {
        Some(s) => Some(s.as_str()),
        None => None,
    }
}

impl<S: Store> StateMachine<S> {
    /// Applies a command: its writes reach the store together, or, where it fails, not at all.
    pub fn apply(&mut self, cmd: &Command, now_ms: i64) -> (r: ApplyOutcome)
        ensures
            applies(
                r,
                step(old(self).base(), cmd@, now_ms),
                final(self)@,
                old(self).reliable(),
            ),
            r is Err ==> final(self)@ == old(self).base(),
            final(self).base() == final(self)@,
            final(self).idle(),
            final(self).reliable() == old(self).reliable(),
    {
        self.abort_pending();
        match self.apply_inner(cmd, now_ms) {
            Ok(events) => match self.flush_pending() {
                Ok(_) => Ok(events),
                Err(e) => Err(e),
            },
            Err(e) => {
                self.abort_pending();
                Err(e)
            },
        }
    }

    fn apply_inner(&mut self, cmd: &Command, now_ms: i64) -> (r: ApplyOutcome)
        ensures
            applies(r, step(old(self)@, cmd@, now_ms), final(self)@, old(self).reliable()),
            final(self).base() == old(self).base(),
            final(self).reliable() == old(self).reliable(),
    {
        match cmd {
            Command::ProjectCreate { name, operator, ts } => self.apply_project_create(
                name.as_str(),
                eff_ts(*ts, now_ms),
                operator.as_str(),
            ),
            Command::ProjectDelete { id, operator } => self.apply_project_delete(
                id,
                operator.as_str(),
            ),
            Command::BranchCreate { project, name, source, operator, ts } => {
                let from: Option<&BranchName> = match source {
                    Some(b) => Some(b),
                    None => None,
                };
                self.apply_branch_create(
                    project,
                    name,
                    from,
                    eff_ts(*ts, now_ms),
                    operator.as_str(),
                )
            },
            Command::BranchDelete { project, name, operator } => self.apply_branch_delete(
                project,
                name,
                operator.as_str(),
            ),
            Command::StructureDraftSet { project, base_version, groups, operator } =>
                self.apply_structure_draft_set(project, *base_version, groups, operator.as_str()),
            Command::PublishStructure { project, comment, request_id, operator, ts } =>
                self.apply_publish_structure(
                    project,
                    comment.as_str(),
                    request_id.as_str(),
                    eff_ts(*ts, now_ms),
                    operator.as_str(),
                ),
            Command::DraftUpdate { project, branch, updates, deletes, operator, ts } =>
                self.apply_draft_update(
                    project,
                    branch,
                    updates,
                    deletes,
                    eff_ts(*ts, now_ms),
                    operator.as_str(),
                ),
            Command::Publish { project, branch, comment, request_id, operator, ts } =>
                self.apply_publish(
                    project,
                    branch,
                    comment.as_str(),
                    request_id.as_str(),
                    eff_ts(*ts, now_ms),
                    operator.as_str(),
                ),
            Command::Rollback { project, branch, to_version, comment, request_id, operator, ts } =>
                self.apply_rollback(
                    project,
                    branch,
                    *to_version,
                    comment.as_str(),
                    request_id.as_str(),
                    eff_ts(*ts, now_ms),
                    operator.as_str(),
                ),
            Command::SharedDraftUpdate { item, operator } => self.apply_shared_draft_update(
                item,
                operator.as_str(),
            ),
            Command::SharedPublish { comment, request_id, operator, ts } =>
                self.apply_shared_publish(
                    comment.as_str(),
                    request_id.as_str(),
                    eff_ts(*ts, now_ms),
                    operator.as_str(),
                ),
            Command::RefBind { project, binding, operator } => self.apply_ref_bind(
                project,
                binding,
                operator.as_str(),
            ),
            Command::RefUnbind { project, group, item_key, operator } => self.apply_ref_unbind(
                project,
                group.as_str(),
                as_text(item_key),
                operator.as_str(),
            ),
            Command::SessionLogin { token_hash, issued_at, expires_at } =>
                self.apply_session_login(token_hash.as_str(), *issued_at, *expires_at),
            Command::SessionLogout => self.apply_session_logout(),
            Command::SessionHeartbeat { expires_at } => self.apply_session_heartbeat(*expires_at),
            Command::MultiSessionLogin { token_hash, issued_at, expires_at, session_id } =>
                self.apply_multi_session_login(
                    token_hash.as_str(),
                    *issued_at,
                    *expires_at,
                    session_id.as_str(),
                ),
            Command::MultiSessionLogout { session_id } => self.apply_multi_session_logout(
                session_id.as_str(),
            ),
            Command::MultiSessionLogoutAll => self.apply_multi_session_logout_all(),
            Command::MultiSessionHeartbeat { session_id, expires_at } =>
                self.apply_multi_session_heartbeat(session_id.as_str(), *expires_at),
            Command::ProjectAdminCreate { project, username, salt, password_hash, ts } =>
                self.apply_project_admin_create(
                    project,
                    username.as_str(),
                    salt.as_str(),
                    password_hash.as_str(),
                    eff_ts(*ts, now_ms),
                ),
            Command::ProjectAdminDelete { username } => self.apply_project_admin_delete(
                username.as_str(),
            ),
            Command::ProjectAdminSetPassword { username, salt, password_hash } =>
                self.apply_project_admin_set_password(
                    username.as_str(),
                    salt.as_str(),
                    password_hash.as_str(),
                ),
            Command::PaSessionLogin { username, token_hash, issued_at, expires_at, device_id } =>
                self.apply_pa_session_login(
                    username.as_str(),
                    token_hash.as_str(),
                    *issued_at,
                    *expires_at,
                    device_id.as_str(),
                ),
            Command::PaSessionLogout { username } => self.apply_pa_session_logout(
                username.as_str(),
            ),
            Command::PaSessionHeartbeat { username, expires_at } =>
                self.apply_pa_session_heartbeat(username.as_str(), *expires_at),
            Command::MultiPaSessionLogin {
                username,
                token_hash,
                issued_at,
                expires_at,
                device_id,
                session_id,
            } => self.apply_multi_pa_session_login(
                username.as_str(),
                token_hash.as_str(),
                *issued_at,
                *expires_at,
                device_id.as_str(),
                session_id.as_str(),
            ),
            Command::AdminSetPassword { password_hash } => self.apply_admin_set_password(
                password_hash.as_str(),
            ),
            Command::AuditAppend { entry } => self.apply_audit_append(entry),
            Command::RotateMasterKey { kek, kek_enc } => no_events(),
        }
    }
}

} // verus!
