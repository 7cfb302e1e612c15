//! Verified core of a hotel reservation / recommendation service.
//!
//! The network and database plumbing of the services lives in the
//! application crate; this library holds the decisions they make.
pub mod order;
pub mod config;
pub mod profile;
pub mod recommendation;
pub mod research;
pub mod rate;
pub mod cache;
pub mod geo;
pub mod document;
pub mod user;
pub mod laws;
pub mod reservation;
