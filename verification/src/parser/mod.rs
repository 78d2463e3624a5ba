//! Client messages without copies: each message borrows from its frame, and its
//! lists are read when they are walked.
pub mod c2s;
pub mod c2s_display;
pub mod laws;
pub mod pcap;
pub mod pq_stream;
