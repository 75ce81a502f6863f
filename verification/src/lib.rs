//! Dendrite: verified core of a host security platform — shared protocol
//! vocabulary, MAGI quorum and authorisation gates, the transactional action
//! coordinator, the Guard trust boundary, and the Memory Graph.
use vstd::prelude::*;

pub mod action;
pub mod cli;
pub mod config;
pub mod daemon;
pub mod guard;
pub mod http;
pub mod memory;
pub mod protocol;
pub mod telemetry;
pub mod updater;
pub mod text;

verus! {
}
