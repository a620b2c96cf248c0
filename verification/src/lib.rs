//! Distributed configuration service: the replicated state machine and the rules around it.
pub mod admin;
pub mod api;
pub mod cluster;
pub mod command;
pub mod crypto;
pub mod diff;
pub mod dup;
pub mod error;
pub mod gather;
pub mod jobs;
pub mod json;
pub mod keys;
pub mod kinds;
pub mod laws;
pub mod limits;
pub mod metrics;
pub mod model;
pub mod ordmap;
pub mod outside;
pub mod publish;
pub mod raftlog;
pub mod render;
pub mod sort;
pub mod startup;
pub mod state;
pub mod step;
pub mod store;
pub mod stored;
pub mod text;
pub mod token;
pub mod transition;
pub mod validator;
pub mod watch;
pub mod wire;
pub mod write;
