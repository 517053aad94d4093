//! Offload of a GoPro that is connected by USB, over its HTTP API.

pub mod client;
pub mod laws;
pub mod offload;
