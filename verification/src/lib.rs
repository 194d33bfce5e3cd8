//! Access-control and metering engine for a multi-tenant encrypted note
//! service: bearer-token sessions with lazy expiry, an event-sourced balance
//! ledger, note and share lifecycles with soft deletion, and the periodic
//! retention sweeps. The relational store is modelled as an explicit
//! in-memory [`store::Store`]; every operation is specified and verified
//! against that model.

pub mod authentication;
pub mod config;
pub mod endpoint;
pub mod error;
pub mod ledger;
pub mod notes;
pub mod shares;
pub mod store;
pub mod sweep;
pub mod users;
pub mod util;
