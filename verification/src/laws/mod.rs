//! What holds of the state machine as a whole.
pub mod access;
pub mod changes;
pub mod checks;
pub mod commands;
pub mod drafts;
pub mod events;
pub mod index;
pub mod kinds;
pub mod library;
pub mod lifecycle;
pub mod metering;
pub mod order;
pub mod paths;
pub mod people;
pub mod projects;
pub mod pruning;
pub mod publishing;
pub mod reading;
pub mod rendering;
pub mod requests;
pub mod retention;
pub mod secrets;
pub mod seeds;
pub mod shared;
pub mod sound;
pub mod soundness;
pub mod steps;
pub mod upkeep;
pub mod versions;
