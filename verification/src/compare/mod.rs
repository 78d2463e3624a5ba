//! Comparison of a capture with the capture of its replay.
pub mod addr_map;
pub mod addr_map_laws;
pub mod client;
pub mod error;
pub mod frame_text;
pub mod laws;
pub mod map;
pub mod normal;
pub mod pair;
pub mod session;
pub mod stats;
pub mod turns;
