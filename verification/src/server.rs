//! The server: what it decides about nodes, accounts, alerts and requests.

pub mod alerts;
pub mod apiauth;
pub mod audit;
pub mod config;
pub mod crypto;
pub mod db;
pub mod errors;
pub mod handlers;
pub mod middleware;
pub mod notify;
pub mod notify_smtp;
pub mod ratelimit;
pub mod retention;
pub mod session;
pub mod startup;
pub mod state;
pub mod totp;
pub mod traffic;
pub mod util;
