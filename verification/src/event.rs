//! Messages produced by the packet path.
pub mod firewall;
