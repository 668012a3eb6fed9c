//! Bookkeeping of the small runtime: per-task operation state, slabs and the
//! queue of ready tasks.

pub mod buffer;
pub mod io_state;
pub mod runtime;
pub mod slab;
pub mod task;
