//! The engine on Windows.

pub mod adapters;
pub mod conn;
pub mod dns;
pub mod egress;
pub mod etw;
pub mod filter;
pub mod netevent;
pub mod proc;
pub mod spawn;
pub mod svc;
pub mod wfp;
