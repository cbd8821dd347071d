//! Outpost: the verified core of a self-hosted server monitor.

pub mod agent;
pub mod calendar;
pub mod clock;
pub mod common;
pub mod ip;
pub mod json;
pub mod laws;
pub mod measure;
pub mod metrics;
pub mod num;
pub mod ranking;
pub mod server;
pub mod table;
pub mod text;
