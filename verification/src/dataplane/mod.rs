//! The data plane: frames from the namespace on one side, host sockets on the
//! other.

pub mod buffer;
pub mod dns;
pub mod flow_table;
pub mod reactor;
pub mod udp;
