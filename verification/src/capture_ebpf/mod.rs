//! What is captured at a network interface: which packets, and in which pieces.
pub mod emit;
pub mod laws;
pub mod tc_classifier;
