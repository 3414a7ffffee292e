//! A multi-part HTTP download engine: range negotiation, chunk partitioning,
//! and progress accounting, with the byte-moving I/O kept outside the library.

pub mod batch;
pub mod downloader;
pub mod error;
pub mod probe;
pub mod progress;
