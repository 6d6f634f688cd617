//! Linux: netlink messages, flow accounting, packet verdicts, plugin sandboxing.

pub mod account;
pub mod adapters;
pub mod conn;
pub mod ct;
pub mod dns_packet;
pub mod egress;
pub mod events;
pub mod fw;
pub mod monitor;
pub mod netlink;
pub mod packet;
pub mod proc;
pub mod reach;
pub mod sockets;
pub mod spawn;
pub mod svc;
pub mod trace;
pub mod verdict;
