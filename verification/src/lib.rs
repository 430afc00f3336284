//! Verified core of an uptime monitor: configuration, address parsing,
//! probe planning and the bookkeeping behind its metrics.
pub mod arp;
pub mod capability;
pub mod config;
pub mod defaults;
pub mod ip;
pub mod labels;
pub mod metrics;
pub mod probe;
pub mod resolver;
pub mod scheduler;
pub mod text;
pub mod watcher;
