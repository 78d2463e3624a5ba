//! Capture, replay and comparison of PostgreSQL client traffic.
pub mod capture;
pub mod capture_common;
pub mod capture_desc;
pub mod capture_ebpf;
pub mod compare;
pub mod desc_laws;
pub mod dump;
pub mod dumper;
pub mod parser;
pub mod pg_client;
pub mod proto;
pub mod replay;
pub mod utils;
