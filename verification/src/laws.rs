//! What the operations are for, said of what goes in and what comes out.

pub mod access;
pub mod accounts;
pub mod agent;
pub mod alerts;
pub mod basics;
pub mod cleaning;
pub mod dataout;
pub mod intake;
pub mod limits;
pub mod mail;
pub mod nodes;
pub mod notify;
pub mod requests;
pub mod sampling;
