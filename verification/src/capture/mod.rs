//! Captured traffic: what was recorded of each client, and the frames in it.
pub mod acap;
pub mod ebpf;
pub mod frame_buffer;
pub mod frame_laws;
pub mod held;
pub mod packet;
pub mod pcap;
pub mod reader;
pub mod reader_laws;
pub mod reassembler;
pub mod reassembler_laws;
pub mod record;
pub mod session_laws;
pub mod tcp_handler;
pub mod zcap;
