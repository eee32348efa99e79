//! Settlement construction for a batch-auction trading protocol.
//!
//! Given one round's snapshot of tokens and orders plus an externally
//! supplied matching decision, the library derives a consistent clearing
//! price for every traded token, renders each settlement action into flat
//! on-chain call descriptors, assigns collision-free execution-plan
//! coordinates, and guards the round against being encoded twice.

pub mod interactions;
pub mod models;
pub mod num;
pub mod solve;
