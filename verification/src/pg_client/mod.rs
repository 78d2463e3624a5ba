//! A client of a PostgreSQL server.
pub mod client;
pub mod error;
pub mod laws;
pub mod login_laws;
pub mod proto;
