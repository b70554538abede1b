//! A discovery scanning and record-aggregation engine for multicast DNS:
//! a record model of address bindings, a store with merge, dedup and sort
//! semantics, the per-response handling of a scan task, a controller owning
//! the at-most-one live scan, and the query-editing state machine.

pub mod app_state;
pub mod controller;
pub mod record;
pub mod scan;
pub mod store;
