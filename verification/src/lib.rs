//! The logic of a small container runtime.

pub mod client;
pub mod coio;
pub mod coiote;
pub mod container;
pub mod cstring;
pub mod daemon;
pub mod frame;
pub mod lines;
pub mod log;
pub mod protocol;
pub mod reactor;
pub mod sys;
pub mod text;
