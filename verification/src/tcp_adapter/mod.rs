//! The adapter between namespace TCP segments and host byte streams.

pub mod flow;
pub mod sequence;
pub mod timer;
