//! The entities of the service: projects, branches, structures, values, versions, the shared
//! library, sessions and the audit trail.
use vstd::prelude::*;

use crate::dup::{Dup, dup_bytes, dup_opt, dup_vec, view_opt, views};
use crate::ordmap::OrdMap;
use crate::text::same;

verus! {

/// The id of a project: its name, unique in the cluster.
#[derive(Debug, PartialEq, Eq, Hash, PartialOrd, Ord)]
pub struct ProjectId(pub String);

impl View for ProjectId {
    type V = Seq<char>;

    open spec fn view(&self) -> Seq<char> {
        self.0@
    }
}

impl Dup for ProjectId {
    fn dup(&self) -> (r: Self) {
        ProjectId(self.0.clone())
    }
}

impl Clone for ProjectId {
    fn clone(&self) -> (r: Self)
        ensures
            r@ == self@,
    {
        self.dup()
    }
}

impl vstd::std_specs::convert::FromSpecImpl<&str> for ProjectId {
    open spec fn obeys_from_spec() -> bool {
        false
    }

    open spec fn from_spec(s: &str) -> Self {
        arbitrary()
    }
}

impl From<&str> for ProjectId {
    fn from(s: &str) -> (r: Self)
        ensures
            r@ == s@,
    {
        ProjectId(s.to_owned())
    }
}

impl ProjectId {
    pub fn as_str(&self) -> (r: &str)
        ensures
            r@ == self@,
    {
        self.0.as_str()
    }
}

/// The name of a branch.
#[derive(Debug, PartialEq, Eq, Hash, PartialOrd, Ord)]
pub struct BranchName(pub String);

impl View for BranchName {
    type V = Seq<char>;

    open spec fn view(&self) -> Seq<char> {
        self.0@
    }
}

impl Dup for BranchName {
    fn dup(&self) -> (r: Self) {
        BranchName(self.0.clone())
    }
}

impl Clone for BranchName {
    fn clone(&self) -> (r: Self)
        ensures
            r@ == self@,
    {
        self.dup()
    }
}

impl vstd::std_specs::convert::FromSpecImpl<&str> for BranchName {
    open spec fn obeys_from_spec() -> bool {
        false
    }

    open spec fn from_spec(s: &str) -> Self {
        arbitrary()
    }
}

impl From<&str> for BranchName {
    fn from(s: &str) -> (r: Self)
        ensures
            r@ == s@,
    {
        BranchName(s.to_owned())
    }
}

impl BranchName {
    pub const DEV: &'static str = "dev";

    pub const TEST: &'static str = "test";

    pub const PROD: &'static str = "prod";

    pub fn as_str(&self) -> (r: &str)
        ensures
            r@ == self@,
    {
        self.0.as_str()
    }
}

/// The type of a value.
#[derive(Debug, Clone, Copy, PartialEq, Eq, Hash, Structural)]
pub enum ValueType {
    String,
    Int,
    Float,
    Bool,
    Json,
    Array,
    Secret,
}

/// A secret value under envelope encryption: the data under a data key, the data key under a master key.
#[derive(Debug, PartialEq, Eq)]
pub struct Ciphertext {
    /// The algorithm of the data, such as `aes-256-gcm`.
    pub enc: String,
    /// The version of the format: 1.
    pub v: u32,
    /// The generation of the master key that wraps the data key.
    pub dek_v: u64,
    /// Base64, 12 bytes.
    pub nonce: String,
    /// Base64 of the encrypted data.
    pub ct: String,
    /// Base64 of the wrapped data key.
    pub edek: String,
    /// Base64, 12 bytes.
    pub edek_nonce: String,
}

/// What a [`Ciphertext`] stands for.
#[verifier::ext_equal]
pub struct CiphertextView {
    pub enc: Seq<char>,
    pub v: u32,
    pub dek_v: u64,
    pub nonce: Seq<char>,
    pub ct: Seq<char>,
    pub edek: Seq<char>,
    pub edek_nonce: Seq<char>,
}

impl View for Ciphertext {
    type V = CiphertextView;

    open spec fn view(&self) -> CiphertextView {
        CiphertextView {
            enc: self.enc@,
            v: self.v,
            dek_v: self.dek_v,
            nonce: self.nonce@,
            ct: self.ct@,
            edek: self.edek@,
            edek_nonce: self.edek_nonce@,
        }
    }
}

impl Dup for Ciphertext {
    fn dup(&self) -> (r: Self) {
        Ciphertext {
            enc: self.enc.clone(),
            v: self.v,
            dek_v: self.dek_v,
            nonce: self.nonce.clone(),
            ct: self.ct.clone(),
            edek: self.edek.clone(),
            edek_nonce: self.edek_nonce.clone(),
        }
    }
}

impl Clone for Ciphertext {
    fn clone(&self) -> (r: Self)
        ensures
            r@ == self@,
    {
        self.dup()
    }
}

/// A finite floating-point number, held as the text that JSON writes for it.
#[derive(Debug, PartialEq)]
pub struct Float {
    pub text: String,
}

impl View for Float {
    type V = Seq<char>;

    open spec fn view(&self) -> Seq<char> {
        self.text@
    }
}

impl Clone for Float {
    fn clone(&self) -> (r: Self)
        ensures
            r@ == self@,
    {
        self.dup()
    }
}

impl Dup for Float {
    fn dup(&self) -> (r: Self) {
        Float { text: self.text.clone() }
    }
}

/// A configuration value.
#[derive(Debug, PartialEq)]
pub enum Value {
    String(String),
    Int(i64),
    Float(Float),
    Bool(bool),
    /// The text of a JSON document.
    Json(String),
    Array(Vec<String>),
    Secret(Ciphertext),
}

/// What a [`Value`] stands for.
#[verifier::ext_equal]
pub enum ValueView {
    String(Seq<char>),
    Int(i64),
    Float(Seq<char>),
    Bool(bool),
    Json(Seq<char>),
    Array(Seq<Seq<char>>),
    Secret(CiphertextView),
}

impl View for Value {
    type V = ValueView;

    open spec fn view(&self) -> ValueView {
        match *self {
            Value::String(x) => ValueView::String(x@),
            Value::Int(x) => ValueView::Int(x),
            Value::Float(x) => ValueView::Float(x@),
            Value::Bool(x) => ValueView::Bool(x),
            Value::Json(x) => ValueView::Json(x@),
            Value::Array(x) => ValueView::Array(views(x@)),
            Value::Secret(x) => ValueView::Secret(x@),
        }
    }
}

impl Dup for Value {
    fn dup(&self) -> (r: Self) {
        match self {
            Value::String(x) => Value::String(x.clone()),
            Value::Int(x) => Value::Int(*x),
            Value::Float(x) => Value::Float(x.dup()),
            Value::Bool(x) => Value::Bool(*x),
            Value::Json(x) => Value::Json(x.clone()),
            Value::Array(x) => Value::Array(dup_vec(x)),
            Value::Secret(x) => Value::Secret(x.dup()),
        }
    }
}

impl Clone for Value {
    fn clone(&self) -> (r: Self)
        ensures
            r@ == self@,
    {
        self.dup()
    }
}

impl Value {
    pub open spec fn spec_type(v: ValueView) -> ValueType {
        match v {
            ValueView::String(_) => ValueType::String,
            ValueView::Int(_) => ValueType::Int,
            ValueView::Float(_) => ValueType::Float,
            ValueView::Bool(_) => ValueType::Bool,
            ValueView::Json(_) => ValueType::Json,
            ValueView::Array(_) => ValueType::Array,
            ValueView::Secret(_) => ValueType::Secret,
        }
    }

    pub fn value_type(&self) -> (r: ValueType)
        ensures
            r == Value::spec_type(self@),
    {
        match self {
            Value::String(_) => ValueType::String,
            Value::Int(_) => ValueType::Int,
            Value::Float(_) => ValueType::Float,
            Value::Bool(_) => ValueType::Bool,
            Value::Json(_) => ValueType::Json,
            Value::Array(_) => ValueType::Array,
            Value::Secret(_) => ValueType::Secret,
        }
    }
}

/// The definition of an item, the smallest unit of a structure.
#[derive(Debug, PartialEq)]
pub struct ItemDef {
    pub key: String,
    pub ty: ValueType,
    pub required: bool,
    pub secret: bool,
    pub validate: Option<String>,
    /// A note for people; it is not rendered.
    pub description: Option<String>,
    /// The key of the shared item that this item stands for; `None` for an item of the project.
    pub shared_ref: Option<String>,
}

/// What a [`ItemDef`] stands for.
#[verifier::ext_equal]
pub struct ItemDefView {
    pub key: Seq<char>,
    pub ty: ValueType,
    pub required: bool,
    pub secret: bool,
    pub validate: Option<Seq<char>>,
    pub description: Option<Seq<char>>,
    pub shared_ref: Option<Seq<char>>,
}

impl View for ItemDef {
    type V = ItemDefView;

    open spec fn view(&self) -> ItemDefView {
        ItemDefView {
            key: self.key@,
            ty: self.ty,
            required: self.required,
            secret: self.secret,
            validate: view_opt(self.validate),
            description: view_opt(self.description),
            shared_ref: view_opt(self.shared_ref),
        }
    }
}

impl Dup for ItemDef {
    fn dup(&self) -> (r: Self) {
        ItemDef {
            key: self.key.clone(),
            ty: self.ty,
            required: self.required,
            secret: self.secret,
            validate: dup_opt(&self.validate),
            description: dup_opt(&self.description),
            shared_ref: dup_opt(&self.shared_ref),
        }
    }
}

impl Clone for ItemDef {
    fn clone(&self) -> (r: Self)
        ensures
            r@ == self@,
    {
        self.dup()
    }
}

/// The definition of a group of items.
#[derive(Debug, PartialEq)]
pub struct GroupDef {
    pub name: String,
    pub items: Vec<ItemDef>,
}

/// What a [`GroupDef`] stands for.
#[verifier::ext_equal]
pub struct GroupDefView {
    pub name: Seq<char>,
    pub items: Seq<ItemDefView>,
}

impl View for GroupDef {
    type V = GroupDefView;

    open spec fn view(&self) -> GroupDefView {
        GroupDefView {
            name: self.name@,
            items: views(self.items@),
        }
    }
}

impl Dup for GroupDef {
    fn dup(&self) -> (r: Self) {
        GroupDef {
            name: self.name.clone(),
            items: dup_vec(&self.items),
        }
    }
}

impl Clone for GroupDef {
    fn clone(&self) -> (r: Self)
        ensures
            r@ == self@,
    {
        self.dup()
    }
}

/// A published structure; `version` only grows.
#[derive(Debug, PartialEq)]
pub struct Structure {
    pub version: u64,
    pub groups: Vec<GroupDef>,
}

/// What a [`Structure`] stands for.
#[verifier::ext_equal]
pub struct StructureView {
    pub version: u64,
    pub groups: Seq<GroupDefView>,
}

impl View for Structure {
    type V = StructureView;

    open spec fn view(&self) -> StructureView {
        StructureView {
            version: self.version,
            groups: views(self.groups@),
        }
    }
}

impl Dup for Structure {
    fn dup(&self) -> (r: Self) {
        Structure {
            version: self.version,
            groups: dup_vec(&self.groups),
        }
    }
}

impl Clone for Structure {
    fn clone(&self) -> (r: Self)
        ensures
            r@ == self@,
    {
        self.dup()
    }
}

/// A structure that waits to be published over the version `base_version`.
#[derive(Debug, PartialEq)]
pub struct StructureDraft {
    pub base_version: u64,
    pub groups: Vec<GroupDef>,
}

/// What a [`StructureDraft`] stands for.
#[verifier::ext_equal]
pub struct StructureDraftView {
    pub base_version: u64,
    pub groups: Seq<GroupDefView>,
}

impl View for StructureDraft {
    type V = StructureDraftView;

    open spec fn view(&self) -> StructureDraftView {
        StructureDraftView {
            base_version: self.base_version,
            groups: views(self.groups@),
        }
    }
}

impl Dup for StructureDraft {
    fn dup(&self) -> (r: Self) {
        StructureDraft {
            base_version: self.base_version,
            groups: dup_vec(&self.groups),
        }
    }
}

impl Clone for StructureDraft {
    fn clone(&self) -> (r: Self)
        ensures
            r@ == self@,
    {
        self.dup()
    }
}

/// A project.
#[derive(Debug, PartialEq)]
pub struct Project {
    pub id: ProjectId,
    pub name: String,
    pub created_at: i64,
}

/// What a [`Project`] stands for.
#[verifier::ext_equal]
pub struct ProjectView {
    pub id: Seq<char>,
    pub name: Seq<char>,
    pub created_at: i64,
}

impl View for Project {
    type V = ProjectView;

    open spec fn view(&self) -> ProjectView {
        ProjectView {
            id: self.id@,
            name: self.name@,
            created_at: self.created_at,
        }
    }
}

impl Dup for Project {
    fn dup(&self) -> (r: Self) {
        Project {
            id: self.id.dup(),
            name: self.name.clone(),
            created_at: self.created_at,
        }
    }
}

impl Clone for Project {
    fn clone(&self) -> (r: Self)
        ensures
            r@ == self@,
    {
        self.dup()
    }
}

/// The draft value of an item.
#[derive(Debug, PartialEq)]
pub struct DraftValue {
    pub value: Value,
    pub updated_at: i64,
}

/// What a [`DraftValue`] stands for.
#[verifier::ext_equal]
pub struct DraftValueView {
    pub value: ValueView,
    pub updated_at: i64,
}

impl View for DraftValue {
    type V = DraftValueView;

    open spec fn view(&self) -> DraftValueView {
        DraftValueView {
            value: self.value@,
            updated_at: self.updated_at,
        }
    }
}

impl Dup for DraftValue {
    fn dup(&self) -> (r: Self) {
        DraftValue {
            value: self.value.dup(),
            updated_at: self.updated_at,
        }
    }
}

impl Clone for DraftValue {
    fn clone(&self) -> (r: Self)
        ensures
            r@ == self@,
    {
        self.dup()
    }
}

/// A label that an instance may carry.
#[derive(Debug, PartialEq, Eq)]
pub struct LabelSelector {
    pub key: String,
    pub value: String,
}

/// What a [`LabelSelector`] stands for.
#[verifier::ext_equal]
pub struct LabelSelectorView {
    pub key: Seq<char>,
    pub value: Seq<char>,
}

impl View for LabelSelector {
    type V = LabelSelectorView;

    open spec fn view(&self) -> LabelSelectorView {
        LabelSelectorView {
            key: self.key@,
            value: self.value@,
        }
    }
}

impl Dup for LabelSelector {
    fn dup(&self) -> (r: Self) {
        LabelSelector {
            key: self.key.clone(),
            value: self.value.clone(),
        }
    }
}

impl Clone for LabelSelector {
    fn clone(&self) -> (r: Self)
        ensures
            r@ == self@,
    {
        self.dup()
    }
}

/// Which instances a gradual release reaches: those that any part of the rule matches.
#[derive(Debug, PartialEq, Eq)]
pub struct GrayRule {
    pub match_labels: Vec<LabelSelector>,
    pub ip_cidrs: Vec<String>,
    pub percentage: Option<u32>,
}

/// What a [`GrayRule`] stands for.
#[verifier::ext_equal]
pub struct GrayRuleView {
    pub match_labels: Seq<LabelSelectorView>,
    pub ip_cidrs: Seq<Seq<char>>,
    pub percentage: Option<u32>,
}

impl View for GrayRule {
    type V = GrayRuleView;

    open spec fn view(&self) -> GrayRuleView {
        GrayRuleView {
            match_labels: views(self.match_labels@),
            ip_cidrs: views(self.ip_cidrs@),
            percentage: self.percentage,
        }
    }
}

impl Dup for GrayRule {
    fn dup(&self) -> (r: Self) {
        GrayRule {
            match_labels: dup_vec(&self.match_labels),
            ip_cidrs: dup_vec(&self.ip_cidrs),
            percentage: self.percentage,
        }
    }
}

impl Clone for GrayRule {
    fn clone(&self) -> (r: Self)
        ensures
            r@ == self@,
    {
        self.dup()
    }
}

/// The state of a branch: its active version, its draft values and the request it answered last.
#[derive(Debug, PartialEq)]
pub struct BranchState {
    pub active_version: u64,
    pub structure_version: u64,
    pub last_request_id: Option<String>,
    /// Group, then key.
    pub value_draft: OrdMap<OrdMap<DraftValue>>,
    /// The revision of the draft: each committed draft update adds one.
    pub draft_rev: u64,
    /// The sequence number of the gradual release; 0 where there is none.
    pub gray_seq: u64,
    pub gray_rule: Option<GrayRule>,
}

/// What a [`BranchState`] stands for.
#[verifier::ext_equal]
pub struct BranchStateView {
    pub active_version: u64,
    pub structure_version: u64,
    pub last_request_id: Option<Seq<char>>,
    pub value_draft: Map<Seq<char>, Map<Seq<char>, DraftValueView>>,
    pub draft_rev: u64,
    pub gray_seq: u64,
    pub gray_rule: Option<GrayRuleView>,
}

impl View for BranchState {
    type V = BranchStateView;

    open spec fn view(&self) -> BranchStateView {
        BranchStateView {
            active_version: self.active_version,
            structure_version: self.structure_version,
            last_request_id: view_opt(self.last_request_id),
            value_draft: self.value_draft@,
            draft_rev: self.draft_rev,
            gray_seq: self.gray_seq,
            gray_rule: view_opt(self.gray_rule),
        }
    }
}

impl Dup for BranchState {
    fn dup(&self) -> (r: Self) {
        BranchState {
            active_version: self.active_version,
            structure_version: self.structure_version,
            last_request_id: dup_opt(&self.last_request_id),
            value_draft: self.value_draft.dup(),
            draft_rev: self.draft_rev,
            gray_seq: self.gray_seq,
            gray_rule: dup_opt(&self.gray_rule),
        }
    }
}

impl Clone for BranchState {
    fn clone(&self) -> (r: Self)
        ensures
            r@ == self@,
    {
        self.dup()
    }
}

pub open spec fn new_branch(structure_version: u64) -> BranchStateView {
    BranchStateView {
        active_version: 0,
        structure_version,
        last_request_id: None,
        value_draft: Map::empty(),
        draft_rev: 0,
        gray_seq: 0,
        gray_rule: None,
    }
}

impl BranchState {
    /// The state of a branch without versions and without a draft.
    pub fn new(structure_version: u64) -> (r: Self)
        ensures
            r@ == new_branch(structure_version),
    {
        BranchState {
            active_version: 0,
            structure_version,
            last_request_id: None,
            value_draft: OrdMap::new(),
            draft_rev: 0,
            gray_seq: 0,
            gray_rule: None,
        }
    }
}

/// How the content of a version is stored.
#[derive(Debug, Clone, Copy, PartialEq, Eq, Structural)]
pub enum VersionKind {
    Full,
    Diff,
}

/// What happens to an item in a change.
#[derive(Debug, Clone, Copy, PartialEq, Eq, Structural)]
pub enum ChangeKind {
    Upsert,
    Delete,
}

/// What made a version.
#[derive(Debug, Clone, Copy, PartialEq, Eq, Structural)]
pub enum EventType {
    ValuePublish,
    StructurePublish,
    SharedCascade,
    Rollback,
}

/// Whether a publish that fails its checks is refused or only noted.
#[derive(Debug, Clone, Copy, PartialEq, Eq, Structural)]
pub enum PublishPolicy {
    Block,
    Warn,
}

/// Whether publishing shared items advances the branches that refer to them.
#[derive(Debug, Clone, Copy, PartialEq, Eq, Structural)]
pub enum SharedCascadeMode {
    Auto,
    Manual,
}

/// Whether a read is served from local state or confirmed with the leader first.
#[derive(Debug, Clone, Copy, PartialEq, Eq, Structural)]
pub enum ReadMode {
    Stale,
    Linear,
}

impl Default for PublishPolicy {
    fn default() -> (r: Self)
        ensures
            r == PublishPolicy::Block,
    {
        PublishPolicy::Block
    }
}

impl Default for SharedCascadeMode {
    fn default() -> (r: Self)
        ensures
            r == SharedCascadeMode::Auto,
    {
        SharedCascadeMode::Auto
    }
}

impl Default for ReadMode {
    fn default() -> (r: Self)
        ensures
            r == ReadMode::Stale,
    {
        ReadMode::Stale
    }
}

/// The record of a version; it never changes.
#[derive(Debug, PartialEq)]
pub struct VersionRecord {
    pub no: u64,
    pub structure_version: u64,
    pub created_at: i64,
    pub operator: String,
    pub comment: String,
    pub rollback_of: Option<u64>,
    pub kind: VersionKind,
    pub snapshot_ref: Option<String>,
    pub diff_ref: Option<String>,
    /// What made the version.
    pub event_ty: Option<EventType>,
    /// Whether a gradual release became this version.
    pub gray: bool,
}

/// What a [`VersionRecord`] stands for.
#[verifier::ext_equal]
pub struct VersionRecordView {
    pub no: u64,
    pub structure_version: u64,
    pub created_at: i64,
    pub operator: Seq<char>,
    pub comment: Seq<char>,
    pub rollback_of: Option<u64>,
    pub kind: VersionKind,
    pub snapshot_ref: Option<Seq<char>>,
    pub diff_ref: Option<Seq<char>>,
    pub event_ty: Option<EventType>,
    pub gray: bool,
}

impl View for VersionRecord {
    type V = VersionRecordView;

    open spec fn view(&self) -> VersionRecordView {
        VersionRecordView {
            no: self.no,
            structure_version: self.structure_version,
            created_at: self.created_at,
            operator: self.operator@,
            comment: self.comment@,
            rollback_of: self.rollback_of,
            kind: self.kind,
            snapshot_ref: view_opt(self.snapshot_ref),
            diff_ref: view_opt(self.diff_ref),
            event_ty: self.event_ty,
            gray: self.gray,
        }
    }
}

impl Dup for VersionRecord {
    fn dup(&self) -> (r: Self) {
        VersionRecord {
            no: self.no,
            structure_version: self.structure_version,
            created_at: self.created_at,
            operator: self.operator.clone(),
            comment: self.comment.clone(),
            rollback_of: self.rollback_of,
            kind: self.kind,
            snapshot_ref: dup_opt(&self.snapshot_ref),
            diff_ref: dup_opt(&self.diff_ref),
            event_ty: self.event_ty,
            gray: self.gray,
        }
    }
}

impl Clone for VersionRecord {
    fn clone(&self) -> (r: Self)
        ensures
            r@ == self@,
    {
        self.dup()
    }
}

/// One change between two versions.
#[derive(Debug, PartialEq)]
pub struct DiffEntry {
    pub group: String,
    pub key: String,
    pub kind: ChangeKind,
    pub new_value: Option<Value>,
}

/// What a [`DiffEntry`] stands for.
#[verifier::ext_equal]
pub struct DiffEntryView {
    pub group: Seq<char>,
    pub key: Seq<char>,
    pub kind: ChangeKind,
    pub new_value: Option<ValueView>,
}

impl View for DiffEntry {
    type V = DiffEntryView;

    open spec fn view(&self) -> DiffEntryView {
        DiffEntryView {
            group: self.group@,
            key: self.key@,
            kind: self.kind,
            new_value: view_opt(self.new_value),
        }
    }
}

impl Dup for DiffEntry {
    fn dup(&self) -> (r: Self) {
        DiffEntry {
            group: self.group.clone(),
            key: self.key.clone(),
            kind: self.kind,
            new_value: dup_opt(&self.new_value),
        }
    }
}

impl Clone for DiffEntry {
    fn clone(&self) -> (r: Self)
        ensures
            r@ == self@,
    {
        self.dup()
    }
}

/// What watchers are told of a new version.
#[derive(Debug, PartialEq)]
pub struct PublishEvent {
    pub project: ProjectId,
    pub branch: BranchName,
    pub version: u64,
    pub ty: EventType,
    pub structure_version: u64,
    pub comment: String,
    pub request_id: String,
    pub changes: Vec<DiffEntry>,
    /// An event of a gradual release; such events are never filtered by version.
    pub gray: bool,
}

/// What a [`PublishEvent`] stands for.
#[verifier::ext_equal]
pub struct PublishEventView {
    pub project: Seq<char>,
    pub branch: Seq<char>,
    pub version: u64,
    pub ty: EventType,
    pub structure_version: u64,
    pub comment: Seq<char>,
    pub request_id: Seq<char>,
    pub changes: Seq<DiffEntryView>,
    pub gray: bool,
}

impl View for PublishEvent {
    type V = PublishEventView;

    open spec fn view(&self) -> PublishEventView {
        PublishEventView {
            project: self.project@,
            branch: self.branch@,
            version: self.version,
            ty: self.ty,
            structure_version: self.structure_version,
            comment: self.comment@,
            request_id: self.request_id@,
            changes: views(self.changes@),
            gray: self.gray,
        }
    }
}

impl Dup for PublishEvent {
    fn dup(&self) -> (r: Self) {
        PublishEvent {
            project: self.project.dup(),
            branch: self.branch.dup(),
            version: self.version,
            ty: self.ty,
            structure_version: self.structure_version,
            comment: self.comment.clone(),
            request_id: self.request_id.clone(),
            changes: dup_vec(&self.changes),
            gray: self.gray,
        }
    }
}

impl Clone for PublishEvent {
    fn clone(&self) -> (r: Self)
        ensures
            r@ == self@,
    {
        self.dup()
    }
}

/// An item of the library that projects share.
#[derive(Debug, PartialEq)]
pub struct SharedItem {
    pub group: String,
    pub key: String,
    pub ty: ValueType,
    pub secret: bool,
    pub required: bool,
    pub value: Value,
    pub version: u64,
    /// A note for people; it is not rendered.
    pub description: Option<String>,
}

/// What a [`SharedItem`] stands for.
#[verifier::ext_equal]
pub struct SharedItemView {
    pub group: Seq<char>,
    pub key: Seq<char>,
    pub ty: ValueType,
    pub secret: bool,
    pub required: bool,
    pub value: ValueView,
    pub version: u64,
    pub description: Option<Seq<char>>,
}

impl View for SharedItem {
    type V = SharedItemView;

    open spec fn view(&self) -> SharedItemView {
        SharedItemView {
            group: self.group@,
            key: self.key@,
            ty: self.ty,
            secret: self.secret,
            required: self.required,
            value: self.value@,
            version: self.version,
            description: view_opt(self.description),
        }
    }
}

impl Dup for SharedItem {
    fn dup(&self) -> (r: Self) {
        SharedItem {
            group: self.group.clone(),
            key: self.key.clone(),
            ty: self.ty,
            secret: self.secret,
            required: self.required,
            value: self.value.dup(),
            version: self.version,
            description: dup_opt(&self.description),
        }
    }
}

impl Clone for SharedItem {
    fn clone(&self) -> (r: Self)
        ensures
            r@ == self@,
    {
        self.dup()
    }
}

/// A reference from a project to the shared library: one item, or, without `item_key`, a whole group.
#[derive(Debug, PartialEq)]
pub struct RefBinding {
    pub group: String,
    pub item_key: Option<String>,
    pub shared_group: String,
    pub shared_key: String,
}

/// What a [`RefBinding`] stands for.
#[verifier::ext_equal]
pub struct RefBindingView {
    pub group: Seq<char>,
    pub item_key: Option<Seq<char>>,
    pub shared_group: Seq<char>,
    pub shared_key: Seq<char>,
}

impl View for RefBinding {
    type V = RefBindingView;

    open spec fn view(&self) -> RefBindingView {
        RefBindingView {
            group: self.group@,
            item_key: view_opt(self.item_key),
            shared_group: self.shared_group@,
            shared_key: self.shared_key@,
        }
    }
}

impl Dup for RefBinding {
    fn dup(&self) -> (r: Self) {
        RefBinding {
            group: self.group.clone(),
            item_key: dup_opt(&self.item_key),
            shared_group: self.shared_group.clone(),
            shared_key: self.shared_key.clone(),
        }
    }
}

impl Clone for RefBinding {
    fn clone(&self) -> (r: Self)
        ensures
            r@ == self@,
    {
        self.dup()
    }
}

/// Whom a session belongs to.
#[derive(Debug, PartialEq)]
pub enum Principal {
    /// The administrator of the cluster.
    Admin,
    /// The administrator of one project.
    ProjectAdmin { username: String, project: ProjectId },
}

/// What a [`Principal`] stands for.
#[verifier::ext_equal]
pub enum PrincipalView {
    Admin,
    ProjectAdmin { username: Seq<char>, project: Seq<char> },
}

impl View for Principal {
    type V = PrincipalView;

    open spec fn view(&self) -> PrincipalView {
        match *self {
            Principal::Admin => PrincipalView::Admin,
            Principal::ProjectAdmin { username, project } => PrincipalView::ProjectAdmin {
                username: username@,
                project: project@,
            },
        }
    }
}

impl Dup for Principal {
    fn dup(&self) -> (r: Self) {
        match self {
            Principal::Admin => Principal::Admin,
            Principal::ProjectAdmin { username, project } => Principal::ProjectAdmin {
                username: username.clone(),
                project: project.dup(),
            },
        }
    }
}

impl Clone for Principal {
    fn clone(&self) -> (r: Self)
        ensures
            r@ == self@,
    {
        self.dup()
    }
}

/// The account of a project administrator.
#[derive(Debug, PartialEq)]
pub struct ProjectAdminAccount {
    pub username: String,
    pub project: ProjectId,
    /// Hexadecimal, one for each account.
    pub salt: String,
    /// The hexadecimal SHA-256 of the salt followed by the password.
    pub password_hash: String,
    pub created_at: i64,
}

/// What a [`ProjectAdminAccount`] stands for.
#[verifier::ext_equal]
pub struct ProjectAdminAccountView {
    pub username: Seq<char>,
    pub project: Seq<char>,
    pub salt: Seq<char>,
    pub password_hash: Seq<char>,
    pub created_at: i64,
}

impl View for ProjectAdminAccount {
    type V = ProjectAdminAccountView;

    open spec fn view(&self) -> ProjectAdminAccountView {
        ProjectAdminAccountView {
            username: self.username@,
            project: self.project@,
            salt: self.salt@,
            password_hash: self.password_hash@,
            created_at: self.created_at,
        }
    }
}

impl Dup for ProjectAdminAccount {
    fn dup(&self) -> (r: Self) {
        ProjectAdminAccount {
            username: self.username.clone(),
            project: self.project.dup(),
            salt: self.salt.clone(),
            password_hash: self.password_hash.clone(),
            created_at: self.created_at,
        }
    }
}

impl Clone for ProjectAdminAccount {
    fn clone(&self) -> (r: Self)
        ensures
            r@ == self@,
    {
        self.dup()
    }
}

/// A session; it holds the hash of its token, never the token.
#[derive(Debug, PartialEq)]
pub struct AdminSession {
    pub token_hash: String,
    pub issued_at: i64,
    /// `None` for a session that does not end by itself.
    pub expires_at: Option<i64>,
    pub device_id: String,
    pub principal: Principal,
}

/// What a [`AdminSession`] stands for.
#[verifier::ext_equal]
pub struct AdminSessionView {
    pub token_hash: Seq<char>,
    pub issued_at: i64,
    pub expires_at: Option<i64>,
    pub device_id: Seq<char>,
    pub principal: PrincipalView,
}

impl View for AdminSession {
    type V = AdminSessionView;

    open spec fn view(&self) -> AdminSessionView {
        AdminSessionView {
            token_hash: self.token_hash@,
            issued_at: self.issued_at,
            expires_at: self.expires_at,
            device_id: self.device_id@,
            principal: self.principal@,
        }
    }
}

impl Dup for AdminSession {
    fn dup(&self) -> (r: Self) {
        AdminSession {
            token_hash: self.token_hash.clone(),
            issued_at: self.issued_at,
            expires_at: self.expires_at,
            device_id: self.device_id.clone(),
            principal: self.principal.dup(),
        }
    }
}

impl Clone for AdminSession {
    fn clone(&self) -> (r: Self)
        ensures
            r@ == self@,
    {
        self.dup()
    }
}

/// An entry of the audit trail.
#[derive(Debug, PartialEq)]
pub struct AuditEntry {
    pub seq: u64,
    pub ts: i64,
    pub operator: String,
    pub action: String,
    pub project: Option<String>,
    pub branch: Option<String>,
    pub version: Option<u64>,
    pub request_id: Option<String>,
    /// A JSON document.
    pub detail: String,
}

/// What a [`AuditEntry`] stands for.
#[verifier::ext_equal]
pub struct AuditEntryView {
    pub seq: u64,
    pub ts: i64,
    pub operator: Seq<char>,
    pub action: Seq<char>,
    pub project: Option<Seq<char>>,
    pub branch: Option<Seq<char>>,
    pub version: Option<u64>,
    pub request_id: Option<Seq<char>>,
    pub detail: Seq<char>,
}

impl View for AuditEntry {
    type V = AuditEntryView;

    open spec fn view(&self) -> AuditEntryView {
        AuditEntryView {
            seq: self.seq,
            ts: self.ts,
            operator: self.operator@,
            action: self.action@,
            project: view_opt(self.project),
            branch: view_opt(self.branch),
            version: self.version,
            request_id: view_opt(self.request_id),
            detail: self.detail@,
        }
    }
}

impl Dup for AuditEntry {
    fn dup(&self) -> (r: Self) {
        AuditEntry {
            seq: self.seq,
            ts: self.ts,
            operator: self.operator.clone(),
            action: self.action.clone(),
            project: dup_opt(&self.project),
            branch: dup_opt(&self.branch),
            version: self.version,
            request_id: dup_opt(&self.request_id),
            detail: self.detail.clone(),
        }
    }
}

impl Clone for AuditEntry {
    fn clone(&self) -> (r: Self)
        ensures
            r@ == self@,
    {
        self.dup()
    }
}

/// A materialised configuration: group, then key.
pub type SnapshotMap = OrdMap<OrdMap<Value>>;

/// What a [`SnapshotMap`] stands for.
pub type SnapView = Map<Seq<char>, Map<Seq<char>, ValueView>>;

/// Whether two numbers with these texts are equal: zero has two of them.
pub open spec fn float_eq(a: Seq<char>, b: Seq<char>) -> bool {
    a == b || ((a == "0.0"@ || a == "-0.0"@) && (b == "0.0"@ || b == "-0.0"@))
}

/// Equality of values: that of their parts, and of numbers for floating-point ones.
pub open spec fn value_eq(a: ValueView, b: ValueView) -> bool {
    match (a, b) {
        (ValueView::Float(x), ValueView::Float(y)) => float_eq(x, y),
        _ => a == b,
    }
}

fn is_zero(f: &Float) -> (r: bool)
    ensures
        r == (f@ == "0.0"@ || f@ == "-0.0"@),
{
    same(f.text.as_str(), "0.0") || same(f.text.as_str(), "-0.0")
}

fn same_texts(a: &Vec<String>, b: &Vec<String>) -> (r: bool)
    ensures
        r == (views(a@) == views(b@)),
{
    if a.len() != b.len() {
        assert(views(a@).len() != views(b@).len());
        return false;
    }
    let mut i: usize = 0;
    while i < a.len()
        invariant
            i <= a@.len(),
            a@.len() == b@.len(),
            forall|j: int| 0 <= j < i ==> (#[trigger] a@[j])@ == b@[j]@,
        decreases a@.len() - i,
    {
        if !same(a[i].as_str(), b[i].as_str()) {
            assert(views(a@)[i as int] != views(b@)[i as int]);
            return false;
        }
        i = i + 1;
    }
    assert(views(a@) =~= views(b@));
    true
}

fn same_ciphertexts(a: &Ciphertext, b: &Ciphertext) -> (r: bool)
    ensures
        r == (a@ == b@),
{
    same(a.enc.as_str(), b.enc.as_str()) && a.v == b.v && a.dek_v == b.dek_v && same(
        a.nonce.as_str(),
        b.nonce.as_str(),
    ) && same(a.ct.as_str(), b.ct.as_str()) && same(a.edek.as_str(), b.edek.as_str()) && same(
        a.edek_nonce.as_str(),
        b.edek_nonce.as_str(),
    )
}

/// Whether two values are equal.
pub fn same_values(a: &Value, b: &Value) -> (r: bool)
    ensures
        r == value_eq(a@, b@),
{
    match (a, b) {
        (Value::String(x), Value::String(y)) => same(x.as_str(), y.as_str()),
        (Value::Int(x), Value::Int(y)) => *x == *y,
        (Value::Float(x), Value::Float(y)) => same(x.text.as_str(), y.text.as_str()) || (is_zero(x)
            && is_zero(y)),
        (Value::Bool(x), Value::Bool(y)) => *x == *y,
        (Value::Json(x), Value::Json(y)) => same(x.as_str(), y.as_str()),
        (Value::Array(x), Value::Array(y)) => same_texts(x, y),
        (Value::Secret(x), Value::Secret(y)) => same_ciphertexts(x, y),
        _ => false,
    }
}

/// What the store holds under a key.
#[derive(Debug, PartialEq)]
pub enum Entry {
    Project(Project),
    Structure(Structure),
    StructureDraft(StructureDraft),
    Branch(BranchState),
    Version(VersionRecord),
    Snapshot(OrdMap<OrdMap<Value>>),
    Diff(Vec<DiffEntry>),
    Shared(SharedItem),
    Ref(RefBinding),
    Session(AdminSession),
    Account(ProjectAdminAccount),
    Audit(AuditEntry),
    /// The mark of an index, or a password hash.
    Text(String),
    Counter(u64),
    /// Bytes that no entity was read from.
    Raw(Vec<u8>),
}

/// What a [`Entry`] stands for.
#[verifier::ext_equal]
pub enum EntryView {
    Project(ProjectView),
    Structure(StructureView),
    StructureDraft(StructureDraftView),
    Branch(BranchStateView),
    Version(VersionRecordView),
    Snapshot(Map<Seq<char>, Map<Seq<char>, ValueView>>),
    Diff(Seq<DiffEntryView>),
    Shared(SharedItemView),
    Ref(RefBindingView),
    Session(AdminSessionView),
    Account(ProjectAdminAccountView),
    Audit(AuditEntryView),
    Text(Seq<char>),
    Counter(u64),
    Raw(Seq<u8>),
}

impl View for Entry {
    type V = EntryView;

    open spec fn view(&self) -> EntryView {
        match *self {
            Entry::Project(x) => EntryView::Project(x@),
            Entry::Structure(x) => EntryView::Structure(x@),
            Entry::StructureDraft(x) => EntryView::StructureDraft(x@),
            Entry::Branch(x) => EntryView::Branch(x@),
            Entry::Version(x) => EntryView::Version(x@),
            Entry::Snapshot(x) => EntryView::Snapshot(x@),
            Entry::Diff(x) => EntryView::Diff(views(x@)),
            Entry::Shared(x) => EntryView::Shared(x@),
            Entry::Ref(x) => EntryView::Ref(x@),
            Entry::Session(x) => EntryView::Session(x@),
            Entry::Account(x) => EntryView::Account(x@),
            Entry::Audit(x) => EntryView::Audit(x@),
            Entry::Text(x) => EntryView::Text(x@),
            Entry::Counter(x) => EntryView::Counter(x),
            Entry::Raw(x) => EntryView::Raw(x@),
        }
    }
}

impl Dup for Entry {
    fn dup(&self) -> (r: Self) {
        match self {
            Entry::Project(x) => Entry::Project(x.dup()),
            Entry::Structure(x) => Entry::Structure(x.dup()),
            Entry::StructureDraft(x) => Entry::StructureDraft(x.dup()),
            Entry::Branch(x) => Entry::Branch(x.dup()),
            Entry::Version(x) => Entry::Version(x.dup()),
            Entry::Snapshot(x) => Entry::Snapshot(x.dup()),
            Entry::Diff(x) => Entry::Diff(dup_vec(x)),
            Entry::Shared(x) => Entry::Shared(x.dup()),
            Entry::Ref(x) => Entry::Ref(x.dup()),
            Entry::Session(x) => Entry::Session(x.dup()),
            Entry::Account(x) => Entry::Account(x.dup()),
            Entry::Audit(x) => Entry::Audit(x.dup()),
            Entry::Text(x) => Entry::Text(x.clone()),
            Entry::Counter(x) => Entry::Counter(*x),
            Entry::Raw(x) => Entry::Raw(dup_bytes(x)),
        }
    }
}

impl Clone for Entry {
    fn clone(&self) -> (r: Self)
        ensures
            r@ == self@,
    {
        self.dup()
    }
}

} // verus!
