//! The lease-based scheduler of an observer fleet, verified.
//!
//! Workers share a catalog of long-lived tasks through conditional updates on
//! task documents: `lease` holds the protocol's decisions (staleness, the
//! steal plan, the mode selector) and the balance law; `store` the task
//! documents and their conditional updates; `scheduler` a worker's handle
//! table and schedule attempts; `runner` the per-task state machine;
//! `collector` the destinations' bounded queues and connection states;
//! `driver` the pacing of schedule rounds; `catalog` the admin surface's
//! entities; `config`, `context` and `payload` the rest.

pub mod catalog;
pub mod collector;
pub mod config;
pub mod context;
pub mod driver;
pub mod lease;
pub mod model;
pub mod payload;
pub mod runner;
pub mod scheduler;
pub mod store;
