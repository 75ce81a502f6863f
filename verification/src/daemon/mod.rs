//! The daemon's services: incidents and their evidence, action proposals and
//! their transactions, the Guard's persisted trust state, and the core that
//! turns observations into memory, graph findings and incidents.
pub mod actions;
pub mod dispatch;
pub mod engine;
pub mod guard;
pub mod incidents;
pub mod ordered;
