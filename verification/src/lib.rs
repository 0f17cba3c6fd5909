//! Live firewall connection tracking and per-connection traffic metrics.
//!
//! The crate is split along the data flow: [`event::firewall`] turns raw
//! lifecycle events and traffic samples into a connection identity and a
//! typed payload, and [`metric::firewall`] folds the resulting message
//! stream into a bounded, queryable view of the live connections.
//!
//! What that view is, message by message, is written down once as a
//! mathematical model in [`metric::model`]; the executable state is proved to
//! follow it, and [`metric::laws`] proves what holds of every run.
pub mod event;
pub mod metric;
