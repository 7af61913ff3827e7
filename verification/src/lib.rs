//! A content-addressed file store: streaming format validation and hashing,
//! temp-then-commit file handles with deduplication, and path-confined reads.

pub mod errors;
pub mod hashing;
pub mod ingest;
pub mod disk;
pub mod index;
pub mod laws;
pub mod handle;
pub mod pathing;
pub mod reader;
pub mod static_files;
pub mod store;
