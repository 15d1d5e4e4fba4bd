//! Broker-side event records and the ledger that accumulates them.

pub mod events;
pub mod laws;
pub mod record;
