//! Bookkeeping of the completion-based I/O runtime: buffer pools, tasks,
//! operation slots and messages.

pub mod arena;
pub mod bits;
pub mod buf;
pub mod buffers;
pub mod classes;
pub mod fixed;
pub mod generation;
pub mod ledger;
pub mod levels;
pub mod msg;
pub mod notify;
pub mod op;
pub mod pbuf;
pub mod pool;
pub mod runtime;
pub mod select;
pub mod slab;
pub mod task;
pub mod tracker;
pub mod views;
pub mod wbuf;
