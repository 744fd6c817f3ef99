//! Core engine of an automated trading loop: the position ledger, the
//! order-watcher reconciliation rules, the market-session scheduler, and the
//! per-cycle strategy decisions, all stated and proved over plain values.
//! Broker transport, indicator math and the async plumbing live outside.

pub mod backend;
pub mod ledger;
pub mod watcher;
pub mod strategy;
pub mod symbol;
pub mod text;
pub mod wait;
pub mod watchlist;
