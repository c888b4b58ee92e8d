//! Verified core of a rootless network-namespace runner.
//!
//! The library holds the packet formats, the TCP adapter, the proxy
//! protocols, the data-plane rules and the supervisor rules. System calls,
//! sockets and the command line live in the program around it.

pub mod address_text;
pub mod bytes;
pub mod cli;
pub mod dataplane;
pub mod endpoint_text;
pub mod json;
pub mod namespace;
pub mod net;
pub mod packet;
pub mod proxy_proto;
pub mod random;
pub mod support;
pub mod sys;
pub mod tcp_adapter;
pub mod text;
pub mod time;
