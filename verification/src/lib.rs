//! Storage engine core for a small relational database: fixed-size pages with
//! positional typed accessors, a block-addressed file store, a write-ahead log
//! with reverse-order read-back, a buffer pool with pin-based eviction, and a
//! block-granular shared/exclusive lock table.

pub mod block_id;
pub mod buffer;
pub mod buffer_manager;
pub mod concurrency_manager;
pub mod file_manager;
pub mod lock_table;
pub mod log_iterator;
pub mod log_manager;
pub mod log_record;
pub mod page;
pub mod rollback_record;
pub mod setstring_record;
pub mod start_record;
