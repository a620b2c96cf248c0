//! The commands of the state machine. An empty `operator` stands for the administrator; a `ts` that is
//! not positive stands for the time at which the command is applied.
use vstd::prelude::*;

use crate::dup::{Dup, dup_bytes, dup_opt, dup_pairs, dup_vec, pair_views, view_opt, views};
use crate::model::{
    AuditEntry, AuditEntryView, BranchName, GroupDef, GroupDefView, ProjectId, RefBinding,
    RefBindingView, SharedItem, SharedItemView, Value, ValueView,
};

verus! {

/// A draft value to set.
#[derive(Debug, PartialEq)]
pub struct DraftUpdateItem {
    pub group: String,
    pub key: String,
    pub value: Value,
}

/// What a [`DraftUpdateItem`] stands for.
#[verifier::ext_equal]
pub struct DraftUpdateItemView {
    pub group: Seq<char>,
    pub key: Seq<char>,
    pub value: ValueView,
}

impl View for DraftUpdateItem {
    type V = DraftUpdateItemView;

    open spec fn view(&self) -> DraftUpdateItemView {
        DraftUpdateItemView {
            group: self.group@,
            key: self.key@,
            value: self.value@,
        }
    }
}

impl Dup for DraftUpdateItem {
    fn dup(&self) -> (r: Self) {
        DraftUpdateItem {
            group: self.group.clone(),
            key: self.key.clone(),
            value: self.value.dup(),
        }
    }
}

impl Clone for DraftUpdateItem {
    fn clone(&self) -> (r: Self)
        ensures
            r@ == self@,
    {
        self.dup()
    }
}

/// A command of the state machine.
#[allow(inconsistent_fields)]
#[derive(Debug, PartialEq)]
pub enum Command {
    ProjectCreate {
        name: String,
        operator: String,
        ts: i64,
    },
    ProjectDelete { id: ProjectId, operator: String },
    /// With a source, the values of its active version become the draft of the new branch.
    BranchCreate {
        project: ProjectId,
        name: BranchName,
        source: Option<BranchName>,
        operator: String,
        ts: i64,
    },
    BranchDelete {
        project: ProjectId,
        name: BranchName,
        operator: String,
    },
    /// Replaces the structure draft; `base_version` is the published version it starts from.
    StructureDraftSet {
        project: ProjectId,
        base_version: u64,
        groups: Vec<GroupDef>,
        operator: String,
    },
    /// Publishes the structure draft, for all branches at once.
    PublishStructure {
        project: ProjectId,
        comment: String,
        request_id: String,
        operator: String,
        ts: i64,
    },
    /// Changes draft values; nothing takes effect. A deletion is a group and a key.
    DraftUpdate {
        project: ProjectId,
        branch: BranchName,
        updates: Vec<DraftUpdateItem>,
        deletes: Vec<(String, String)>,
        operator: String,
        ts: i64,
    },
    /// Publishes the draft of a branch as its next version.
    Publish {
        project: ProjectId,
        branch: BranchName,
        comment: String,
        request_id: String,
        operator: String,
        ts: i64,
    },
    /// Publishes the content of an earlier version as the next version.
    Rollback {
        project: ProjectId,
        branch: BranchName,
        to_version: u64,
        comment: String,
        request_id: String,
        operator: String,
        ts: i64,
    },
    SharedDraftUpdate { item: SharedItem, operator: String },
    /// Publishes all drafts of shared items, and advances the branches that refer to them.
    SharedPublish {
        comment: String,
        request_id: String,
        operator: String,
        ts: i64,
    },
    RefBind {
        project: ProjectId,
        binding: RefBinding,
        operator: String,
    },
    RefUnbind {
        project: ProjectId,
        group: String,
        item_key: Option<String>,
        operator: String,
    },
    /// Opens the single session of the administrator.
    SessionLogin {
        token_hash: String,
        issued_at: i64,
        expires_at: Option<i64>,
    },
    SessionLogout,
    SessionHeartbeat { expires_at: Option<i64> },
    /// Opens one more session of the administrator.
    MultiSessionLogin {
        token_hash: String,
        issued_at: i64,
        expires_at: Option<i64>,
        session_id: String,
    },
    MultiSessionLogout { session_id: String },
    /// Ends every session of the administrator.
    MultiSessionLogoutAll,
    MultiSessionHeartbeat { session_id: String, expires_at: Option<i64> },
    ProjectAdminCreate {
        project: ProjectId,
        username: String,
        salt: String,
        password_hash: String,
        ts: i64,
    },
    ProjectAdminDelete { username: String },
    ProjectAdminSetPassword {
        username: String,
        salt: String,
        password_hash: String,
    },
    /// Opens the single session of a project administrator.
    PaSessionLogin {
        username: String,
        token_hash: String,
        issued_at: i64,
        expires_at: Option<i64>,
        device_id: String,
    },
    PaSessionLogout { username: String },
    PaSessionHeartbeat { username: String, expires_at: Option<i64> },
    /// Opens one more session of a project administrator.
    MultiPaSessionLogin {
        username: String,
        token_hash: String,
        issued_at: i64,
        expires_at: Option<i64>,
        device_id: String,
        session_id: String,
    },
    AdminSetPassword { password_hash: String },
    /// Appends to the audit trail; the state machine numbers the entry.
    AuditAppend { entry: AuditEntry },
    /// Adds a master key on every node: in the clear, or encrypted under the current one.
    RotateMasterKey { kek: Vec<u8>, kek_enc: Vec<u8> },
}

/// What a [`Command`] stands for.
#[verifier::ext_equal]
pub enum CommandView {
    ProjectCreate {
        name: Seq<char>,
        operator: Seq<char>,
        ts: i64,
    },
    ProjectDelete { id: Seq<char>, operator: Seq<char> },
    BranchCreate {
        project: Seq<char>,
        name: Seq<char>,
        source: Option<Seq<char>>,
        operator: Seq<char>,
        ts: i64,
    },
    BranchDelete {
        project: Seq<char>,
        name: Seq<char>,
        operator: Seq<char>,
    },
    StructureDraftSet {
        project: Seq<char>,
        base_version: u64,
        groups: Seq<GroupDefView>,
        operator: Seq<char>,
    },
    PublishStructure {
        project: Seq<char>,
        comment: Seq<char>,
        request_id: Seq<char>,
        operator: Seq<char>,
        ts: i64,
    },
    DraftUpdate {
        project: Seq<char>,
        branch: Seq<char>,
        updates: Seq<DraftUpdateItemView>,
        deletes: Seq<(Seq<char>, Seq<char>)>,
        operator: Seq<char>,
        ts: i64,
    },
    Publish {
        project: Seq<char>,
        branch: Seq<char>,
        comment: Seq<char>,
        request_id: Seq<char>,
        operator: Seq<char>,
        ts: i64,
    },
    Rollback {
        project: Seq<char>,
        branch: Seq<char>,
        to_version: u64,
        comment: Seq<char>,
        request_id: Seq<char>,
        operator: Seq<char>,
        ts: i64,
    },
    SharedDraftUpdate { item: SharedItemView, operator: Seq<char> },
    SharedPublish {
        comment: Seq<char>,
        request_id: Seq<char>,
        operator: Seq<char>,
        ts: i64,
    },
    RefBind {
        project: Seq<char>,
        binding: RefBindingView,
        operator: Seq<char>,
    },
    RefUnbind {
        project: Seq<char>,
        group: Seq<char>,
        item_key: Option<Seq<char>>,
        operator: Seq<char>,
    },
    SessionLogin {
        token_hash: Seq<char>,
        issued_at: i64,
        expires_at: Option<i64>,
    },
    SessionLogout,
    SessionHeartbeat { expires_at: Option<i64> },
    MultiSessionLogin {
        token_hash: Seq<char>,
        issued_at: i64,
        expires_at: Option<i64>,
        session_id: Seq<char>,
    },
    MultiSessionLogout { session_id: Seq<char> },
    MultiSessionLogoutAll,
    MultiSessionHeartbeat { session_id: Seq<char>, expires_at: Option<i64> },
    ProjectAdminCreate {
        project: Seq<char>,
        username: Seq<char>,
        salt: Seq<char>,
        password_hash: Seq<char>,
        ts: i64,
    },
    ProjectAdminDelete { username: Seq<char> },
    ProjectAdminSetPassword {
        username: Seq<char>,
        salt: Seq<char>,
        password_hash: Seq<char>,
    },
    PaSessionLogin {
        username: Seq<char>,
        token_hash: Seq<char>,
        issued_at: i64,
        expires_at: Option<i64>,
        device_id: Seq<char>,
    },
    PaSessionLogout { username: Seq<char> },
    PaSessionHeartbeat { username: Seq<char>, expires_at: Option<i64> },
    MultiPaSessionLogin {
        username: Seq<char>,
        token_hash: Seq<char>,
        issued_at: i64,
        expires_at: Option<i64>,
        device_id: Seq<char>,
        session_id: Seq<char>,
    },
    AdminSetPassword { password_hash: Seq<char> },
    AuditAppend { entry: AuditEntryView },
    RotateMasterKey { kek: Seq<u8>, kek_enc: Seq<u8> },
}

impl View for Command {
    type V = CommandView;

    open spec fn view(&self) -> CommandView {
        match *self {
            Command::ProjectCreate { name, operator, ts } => CommandView::ProjectCreate {
                name: name@,
                operator: operator@,
                ts,
            },
            Command::ProjectDelete { id, operator } => CommandView::ProjectDelete {
                id: id@,
                operator: operator@,
            },
            Command::BranchCreate { project, name, source, operator, ts } => CommandView::BranchCreate {
                project: project@,
                name: name@,
                source: view_opt(source),
                operator: operator@,
                ts,
            },
            Command::BranchDelete { project, name, operator } => CommandView::BranchDelete {
                project: project@,
                name: name@,
                operator: operator@,
            },
            Command::StructureDraftSet { project, base_version, groups, operator } => CommandView::StructureDraftSet {
                project: project@,
                base_version,
                groups: views(groups@),
                operator: operator@,
            },
            Command::PublishStructure { project, comment, request_id, operator, ts } => CommandView::PublishStructure {
                project: project@,
                comment: comment@,
                request_id: request_id@,
                operator: operator@,
                ts,
            },
            Command::DraftUpdate { project, branch, updates, deletes, operator, ts } => CommandView::DraftUpdate {
                project: project@,
                branch: branch@,
                updates: views(updates@),
                deletes: pair_views(deletes@),
                operator: operator@,
                ts,
            },
            Command::Publish { project, branch, comment, request_id, operator, ts } => CommandView::Publish {
                project: project@,
                branch: branch@,
                comment: comment@,
                request_id: request_id@,
                operator: operator@,
                ts,
            },
            Command::Rollback { project, branch, to_version, comment, request_id, operator, ts } => CommandView::Rollback {
                project: project@,
                branch: branch@,
                to_version,
                comment: comment@,
                request_id: request_id@,
                operator: operator@,
                ts,
            },
            Command::SharedDraftUpdate { item, operator } => CommandView::SharedDraftUpdate {
                item: item@,
                operator: operator@,
            },
            Command::SharedPublish { comment, request_id, operator, ts } => CommandView::SharedPublish {
                comment: comment@,
                request_id: request_id@,
                operator: operator@,
                ts,
            },
            Command::RefBind { project, binding, operator } => CommandView::RefBind {
                project: project@,
                binding: binding@,
                operator: operator@,
            },
            Command::RefUnbind { project, group, item_key, operator } => CommandView::RefUnbind {
                project: project@,
                group: group@,
                item_key: view_opt(item_key),
                operator: operator@,
            },
            Command::SessionLogin { token_hash, issued_at, expires_at } => CommandView::SessionLogin {
                token_hash: token_hash@,
                issued_at,
                expires_at,
            },
            Command::SessionLogout => CommandView::SessionLogout,
            Command::SessionHeartbeat { expires_at } => CommandView::SessionHeartbeat {
                expires_at,
            },
            Command::MultiSessionLogin { token_hash, issued_at, expires_at, session_id } => CommandView::MultiSessionLogin {
                token_hash: token_hash@,
                issued_at,
                expires_at,
                session_id: session_id@,
            },
            Command::MultiSessionLogout { session_id } => CommandView::MultiSessionLogout {
                session_id: session_id@,
            },
            Command::MultiSessionLogoutAll => CommandView::MultiSessionLogoutAll,
            Command::MultiSessionHeartbeat { session_id, expires_at } => CommandView::MultiSessionHeartbeat {
                session_id: session_id@,
                expires_at,
            },
            Command::ProjectAdminCreate { project, username, salt, password_hash, ts } => CommandView::ProjectAdminCreate {
                project: project@,
                username: username@,
                salt: salt@,
                password_hash: password_hash@,
                ts,
            },
            Command::ProjectAdminDelete { username } => CommandView::ProjectAdminDelete {
                username: username@,
            },
            Command::ProjectAdminSetPassword { username, salt, password_hash } => CommandView::ProjectAdminSetPassword {
                username: username@,
                salt: salt@,
                password_hash: password_hash@,
            },
            Command::PaSessionLogin { username, token_hash, issued_at, expires_at, device_id } => CommandView::PaSessionLogin {
                username: username@,
                token_hash: token_hash@,
                issued_at,
                expires_at,
                device_id: device_id@,
            },
            Command::PaSessionLogout { username } => CommandView::PaSessionLogout {
                username: username@,
            },
            Command::PaSessionHeartbeat { username, expires_at } => CommandView::PaSessionHeartbeat {
                username: username@,
                expires_at,
            },
            Command::MultiPaSessionLogin { username, token_hash, issued_at, expires_at, device_id, session_id } => CommandView::MultiPaSessionLogin {
                username: username@,
                token_hash: token_hash@,
                issued_at,
                expires_at,
                device_id: device_id@,
                session_id: session_id@,
            },
            Command::AdminSetPassword { password_hash } => CommandView::AdminSetPassword {
                password_hash: password_hash@,
            },
            Command::AuditAppend { entry } => CommandView::AuditAppend {
                entry: entry@,
            },
            Command::RotateMasterKey { kek, kek_enc } => CommandView::RotateMasterKey {
                kek: kek@,
                kek_enc: kek_enc@,
            },
        }
    }
}

impl Dup for Command {
    fn dup(&self) -> (r: Self) {
        match self {
            Command::ProjectCreate { name, operator, ts } => Command::ProjectCreate {
                name: name.clone(),
                operator: operator.clone(),
                ts: *ts,
            },
            Command::ProjectDelete { id, operator } => Command::ProjectDelete {
                id: id.dup(),
                operator: operator.clone(),
            },
            Command::BranchCreate { project, name, source, operator, ts } => Command::BranchCreate {
                project: project.dup(),
                name: name.dup(),
                source: dup_opt(source),
                operator: operator.clone(),
                ts: *ts,
            },
            Command::BranchDelete { project, name, operator } => Command::BranchDelete {
                project: project.dup(),
                name: name.dup(),
                operator: operator.clone(),
            },
            Command::StructureDraftSet { project, base_version, groups, operator } => Command::StructureDraftSet {
                project: project.dup(),
                base_version: *base_version,
                groups: dup_vec(groups),
                operator: operator.clone(),
            },
            Command::PublishStructure { project, comment, request_id, operator, ts } => Command::PublishStructure {
                project: project.dup(),
                comment: comment.clone(),
                request_id: request_id.clone(),
                operator: operator.clone(),
                ts: *ts,
            },
            Command::DraftUpdate { project, branch, updates, deletes, operator, ts } => Command::DraftUpdate {
                project: project.dup(),
                branch: branch.dup(),
                updates: dup_vec(updates),
                deletes: dup_pairs(deletes),
                operator: operator.clone(),
                ts: *ts,
            },
            Command::Publish { project, branch, comment, request_id, operator, ts } => Command::Publish {
                project: project.dup(),
                branch: branch.dup(),
                comment: comment.clone(),
                request_id: request_id.clone(),
                operator: operator.clone(),
                ts: *ts,
            },
            Command::Rollback { project, branch, to_version, comment, request_id, operator, ts } => Command::Rollback {
                project: project.dup(),
                branch: branch.dup(),
                to_version: *to_version,
                comment: comment.clone(),
                request_id: request_id.clone(),
                operator: operator.clone(),
                ts: *ts,
            },
            Command::SharedDraftUpdate { item, operator } => Command::SharedDraftUpdate {
                item: item.dup(),
                operator: operator.clone(),
            },
            Command::SharedPublish { comment, request_id, operator, ts } => Command::SharedPublish {
                comment: comment.clone(),
                request_id: request_id.clone(),
                operator: operator.clone(),
                ts: *ts,
            },
            Command::RefBind { project, binding, operator } => Command::RefBind {
                project: project.dup(),
                binding: binding.dup(),
                operator: operator.clone(),
            },
            Command::RefUnbind { project, group, item_key, operator } => Command::RefUnbind {
                project: project.dup(),
                group: group.clone(),
                item_key: dup_opt(item_key),
                operator: operator.clone(),
            },
            Command::SessionLogin { token_hash, issued_at, expires_at } => Command::SessionLogin {
                token_hash: token_hash.clone(),
                issued_at: *issued_at,
                expires_at: *expires_at,
            },
            Command::SessionLogout => Command::SessionLogout,
            Command::SessionHeartbeat { expires_at } => Command::SessionHeartbeat {
                expires_at: *expires_at,
            },
            Command::MultiSessionLogin { token_hash, issued_at, expires_at, session_id } => Command::MultiSessionLogin {
                token_hash: token_hash.clone(),
                issued_at: *issued_at,
                expires_at: *expires_at,
                session_id: session_id.clone(),
            },
            Command::MultiSessionLogout { session_id } => Command::MultiSessionLogout {
                session_id: session_id.clone(),
            },
            Command::MultiSessionLogoutAll => Command::MultiSessionLogoutAll,
            Command::MultiSessionHeartbeat { session_id, expires_at } => Command::MultiSessionHeartbeat {
                session_id: session_id.clone(),
                expires_at: *expires_at,
            },
            Command::ProjectAdminCreate { project, username, salt, password_hash, ts } => Command::ProjectAdminCreate {
                project: project.dup(),
                username: username.clone(),
                salt: salt.clone(),
                password_hash: password_hash.clone(),
                ts: *ts,
            },
            Command::ProjectAdminDelete { username } => Command::ProjectAdminDelete {
                username: username.clone(),
            },
            Command::ProjectAdminSetPassword { username, salt, password_hash } => Command::ProjectAdminSetPassword {
                username: username.clone(),
                salt: salt.clone(),
                password_hash: password_hash.clone(),
            },
            Command::PaSessionLogin { username, token_hash, issued_at, expires_at, device_id } => Command::PaSessionLogin {
                username: username.clone(),
                token_hash: token_hash.clone(),
                issued_at: *issued_at,
                expires_at: *expires_at,
                device_id: device_id.clone(),
            },
            Command::PaSessionLogout { username } => Command::PaSessionLogout {
                username: username.clone(),
            },
            Command::PaSessionHeartbeat { username, expires_at } => Command::PaSessionHeartbeat {
                username: username.clone(),
                expires_at: *expires_at,
            },
            Command::MultiPaSessionLogin { username, token_hash, issued_at, expires_at, device_id, session_id } => Command::MultiPaSessionLogin {
                username: username.clone(),
                token_hash: token_hash.clone(),
                issued_at: *issued_at,
                expires_at: *expires_at,
                device_id: device_id.clone(),
                session_id: session_id.clone(),
            },
            Command::AdminSetPassword { password_hash } => Command::AdminSetPassword {
                password_hash: password_hash.clone(),
            },
            Command::AuditAppend { entry } => Command::AuditAppend {
                entry: entry.dup(),
            },
            Command::RotateMasterKey { kek, kek_enc } => Command::RotateMasterKey {
                kek: dup_bytes(kek),
                kek_enc: dup_bytes(kek_enc),
            },
        }
    }
}

impl Clone for Command {
    fn clone(&self) -> (r: Self)
        ensures
            r@ == self@,
    {
        self.dup()
    }
}

} // verus!
