//! Request/response latency extraction from captured IPv6/TCP traffic.
//!
//! Packets are fed one at a time to an [`trace::Analyzer`], which pairs
//! connection-establishment and connection-termination segments on the
//! interactive port into latency samples. Once the capture is consumed, the
//! samples are restricted to a stable window and summarised by order
//! statistics.

pub mod flow_key;
pub mod packet;
pub mod statistics;
pub mod trace;
pub mod tracker;

