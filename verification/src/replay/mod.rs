//! Replay of captured traffic against a server.
pub mod addr_map;
pub mod client;
pub mod client_laws;
pub mod connection;
pub mod connection_laws;
pub mod event_loop;
pub mod frame_tags;
pub mod latency;
pub mod latency_laws;
pub mod loop_laws;
pub mod manager;
pub mod manager_laws;
pub mod pacer;
pub mod replay_laws;
pub mod state;
pub mod stats;
pub mod wait;
