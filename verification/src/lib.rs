//! Nestor: declarative-memory, session and production-rule logic for agents,
//! with the client and command-line plumbing that talks to the memory API.
pub mod text;
pub mod order;
pub mod ids;
pub mod error;
pub mod buffers;
pub mod session;
pub mod keyed;
pub mod chunk;
pub mod rules;
pub mod ops;
pub mod store;
pub mod api;
pub mod client;
pub mod memory;
pub mod cli;
pub mod registry;
pub mod counters;
pub mod service;
pub mod laws;
pub mod hashing;
pub mod retrieval;
pub mod numbers;
