//! Scanning the Hive blockchain for podpings and deciding where they are written.
//!
//! The library holds the logic of the daemon: which operations of a block are
//! podpings, how a block range is cut into batches, how RPC nodes are rotated,
//! where the scan starts, how fast it follows the chain, how podpings are laid
//! out on disk and which old directories are trimmed.  Network, disk and clock
//! access live in the application around it.
use vstd::prelude::*;

pub mod text;
pub mod time;
pub mod pattern;
pub mod hive;
pub mod config;
pub mod syncer;
pub mod writer;
