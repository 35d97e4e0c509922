//! A load generator: a client that sends requests at a steady rate and a server
//! that sleeps, fails and answers as its parameters say.
//!
//! This library holds the rules of both sides, and the summary that each of them
//! keeps of its traffic.

pub mod channel;
pub mod client;
pub mod double;
pub mod latency;
pub mod load;
pub mod metrics;
pub mod number;
pub mod params;
pub mod query;
pub mod report;
pub mod sample;
pub mod server;
pub mod status;
pub mod summary;
pub mod target;
pub mod text;
pub mod traffic;
