//! The decisions of the data plane: what every frame, socket event and timer
//! tick does to the flows, and what is to be done outside for it.

pub mod accounts;
pub mod admission;
pub mod answer;
pub mod config;
pub mod dns_link;
pub mod entry;
pub mod events;
pub mod flows;
pub mod forward;
pub mod frame;
pub mod ingress;
pub mod interest;
pub mod ledger;
pub mod metrics;
pub mod opening;
pub mod pools;
pub mod probe;
pub mod proxy;
pub mod queue;
pub mod recovery;
pub mod reply;
pub mod segment;
pub mod send;
pub mod sending;
pub mod setup;
pub mod stream;
pub mod tap;
pub mod window;
