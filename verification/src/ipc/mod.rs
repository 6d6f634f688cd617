//! The protocol between the engine, its window and its plugins.

pub mod codec;
pub mod message;
pub mod plugin;
pub mod transport;
