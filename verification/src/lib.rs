//! A shared memory store for cooperating agents: timestamped memories with an
//! audit trail, a knowledge graph, a task queue and named channels.

pub mod api;
pub mod channels;
pub mod clock;
pub mod config;
pub mod directory;
pub mod embeddings;
pub mod extraction;
pub mod graph;
pub mod index;
pub mod laws;
pub mod ledger;
pub mod memory_engine;
pub mod persistence;
pub mod search;
pub mod service;
pub mod table;
pub mod tasks;
pub mod text;
pub mod types;
