//! Aggregation of the packet path's messages into live metrics.
pub mod firewall;
pub mod laws;
pub mod model;
