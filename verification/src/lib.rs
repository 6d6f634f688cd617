//! The core of a firewall and network monitor.

pub mod adapter_map;
pub mod aggregate;
pub mod alert;
pub mod assoc;
pub mod bytes;
pub mod dns;
pub mod engine;
pub mod enrich;
pub mod error;
pub mod ip;
pub mod ip_law;
pub mod ip_show;
pub mod ip_text;
pub mod ipc;
pub mod linux;
pub mod model;
pub mod panel;
pub mod path;
pub mod path_windows;
pub mod plugin;
pub mod rule;
pub mod store;
pub mod text;
pub mod ui;
pub mod usage;
pub mod utf16;
pub mod win;
