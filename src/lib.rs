//! Append-only logs: one indexed by a skip list so that entries are found by
//! offset, and a plain first-in, first-out one; and a small store of animals.

pub mod fifo_log;
pub mod level;
pub mod pet_store;
pub mod skip_list;
