//! What the program asks of the system, as plain values.

pub mod control;
pub mod netlink;
pub mod process;
pub mod reactor;
pub mod resource;
pub mod seccomp;
pub mod socket;
pub mod tcp_info;
pub mod tun;
