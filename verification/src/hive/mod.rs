//! The Hive blockchain: its RPC responses and the scan for podpings.
pub mod jsonrpc;
pub mod podping;
pub mod scanner;
