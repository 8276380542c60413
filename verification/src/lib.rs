//! An agent's memory as a graph in one SQLite file: nodes, edges and
//! contradictions, sessions for each user on each channel, upkeep of importance
//! and trust, and a memory Provider behind a JSON-RPC protocol.

pub mod channels;
pub mod compaction;
pub mod cortex;
pub mod db;
pub mod error;
pub mod json;
pub mod laws;
pub mod linking;
pub mod omniseed_provider;
pub mod rpc;
pub mod session;
pub mod store;
pub mod text;
pub mod types;
pub mod upkeep;

pub use cortex::CortexEmbedded;
pub use upkeep::run_decay;
