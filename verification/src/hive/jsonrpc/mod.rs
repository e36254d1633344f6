//! What the Hive JSON-RPC API answers, and the rotation over RPC nodes.
pub mod client;
pub mod responses;
