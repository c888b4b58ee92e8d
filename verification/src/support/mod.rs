//! The rules of the programs that drive the runner from inside and outside of
//! its namespace.

pub mod bench_io;
pub mod bench_proxy;
pub mod dns_client;
pub mod soak;
