//! The Memory Graph: typed nodes and relationships with lifecycle, decay and
//! reinforcement, and the store that reasons over them.
pub mod decay;
pub mod model;
pub mod keyed;
pub mod rows;
pub mod storage;
