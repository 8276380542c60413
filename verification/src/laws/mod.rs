//! What the operations are for: laws that say of each what its result is, in the
//! words of its inputs alone.

pub mod channels;
pub mod compaction;
pub mod edges;
pub mod failures;
pub mod graph;
pub mod json;
pub mod linking;
pub mod nodes;
pub mod provider;
pub mod rows;
pub mod rpc;
pub mod text;
pub mod upkeep;
