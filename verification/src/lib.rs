//! Score-keeping core for a four-seat trick-taking card game.
//!
//! The library models bids, per-bid point formulas, the team point
//! distribution over seats, and an append-only ledger of cumulative
//! scores per game.  Everything here is pure computation over plain
//! values; persistence and presentation live outside the crate.

pub mod auth;
pub mod error;
pub mod whist;
