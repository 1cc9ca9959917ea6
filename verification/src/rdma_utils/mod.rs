//! Helpers on the process's virtual memory.
pub mod pagemaps;
