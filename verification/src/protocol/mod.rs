//! Shared domain vocabulary: identifiers, observations, evidence, MAGI
//! evaluations, quorum, authorisation, trust and the IPC envelopes.
pub mod action;
pub mod detection;
pub mod ids;
pub mod ipc;
pub mod trust;
