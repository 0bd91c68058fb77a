//! Server-side driver for text monitors of a block game's computer mod: the
//! monitors' 8-bit code page, a drawing backend that turns cell updates into
//! a minimal stream of terminal commands, and an aggregator of inventory
//! snapshots that computes throughput over a sliding window.
pub mod backend;
pub mod codepage;
pub mod color;
pub mod inventory;
pub mod session;
