//! Where the podpings of scanned blocks go.
pub mod console_writer;
pub mod disk_writer;
pub mod writer;
