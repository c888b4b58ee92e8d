//! The namespaces that a command runs in, and the processes around it.

pub mod config;
pub mod control;
pub mod instance;
pub mod resolver;
pub mod supervisor;
pub mod worker_metrics;
