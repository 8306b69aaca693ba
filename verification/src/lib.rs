//! Disk-usage inspection library: byte-size values with a human-readable
//! grammar, tree aggregation of filesystem sizes, report rendering, and the
//! interactive drill-down state machine.

pub mod aggregate;
pub mod cli;
pub mod config;
pub mod datasize;
pub mod envinfo;
pub mod explorer;
pub mod report;
