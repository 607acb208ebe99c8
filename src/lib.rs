//! Streaming chat completion: message adaptation, request assembly and an
//! incremental parser for server-sent event streams, all with verified contracts.

pub mod adapter;
pub mod events;
pub mod frames;
pub mod models;
pub mod request;
pub mod stream;
