//! An append-only broker event ledger for a trading simulation.
//!
//! The ledger records trade executions and dividend payments and derives
//! time-windowed views and per-instrument weighted-average cost basis from
//! that history.

pub mod broker;
