//! Verified core of a Tor exit-routing daemon: route and settings records,
//! the text formats they are stored and shown in, the SOCKS5 handshake and
//! the decisions that keep the running routes in step with the database.

pub mod text;
pub mod config;
pub mod routes;
pub mod reconcile;
pub mod socks5;
pub mod status;
pub mod session;
pub mod panel;
pub mod countries;
pub mod tor;
pub mod router;
pub mod daemon;
