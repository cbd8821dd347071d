//! What the server answers to each kind of request.

pub mod account;
pub mod agent_api;
pub mod alerts;
pub mod apitokens;
pub mod auth;
pub mod dataout;
pub mod nodes;
pub mod pages;
pub mod settings;
pub mod status;
pub mod twofa;
pub mod users;
pub mod ws_agent;
pub mod ws_ui;
