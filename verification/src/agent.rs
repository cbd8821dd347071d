//! The agent: what it reads off its host, and how it talks to its server.

pub mod collect;
pub mod config;
pub mod docker;
pub mod parsers;
pub mod session;
pub mod startup;
