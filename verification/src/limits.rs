//! Limits of the service.
use vstd::prelude::*;

verus! {

pub const MAX_PROJECTS: usize = 10_000;

pub const MAX_BRANCHES_PER_PROJECT: usize = 100;

pub const MAX_GROUPS_PER_PROJECT: usize = 500;

pub const MAX_ITEMS_PER_PROJECT: usize = 10_000;

pub const MAX_VALUE_BYTES: usize = 65_536;

pub const MAX_ARRAY_ELEMENT_BYTES: usize = 8_192;

pub const MAX_DIFF_BYTES: usize = 1_048_576;

pub const MAX_COMMENT_BYTES: usize = 500;

pub const MAX_KEY_BYTES: usize = 128;

/// Notes on items and on shared items.
pub const MAX_DESC_BYTES: usize = 200;

pub const MAX_GROUP_NAME_BYTES: usize = 128;

pub const MAX_PROJECT_NAME_BYTES: usize = 128;

/// Every so many versions the full content is stored; between them, the changes.
pub const CHECKPOINT_INTERVAL: u64 = 100;

} // verus!
