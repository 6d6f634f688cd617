//! The desktop side: icons, notices, prompts, settings, the session with the
//! engine.

pub mod commands;
pub mod display;
pub mod elevate;
pub mod icon;
pub mod net;
pub mod notify;
pub mod prompt;
pub mod report;
pub mod rulectl;
pub mod session;
pub mod startup;
pub mod updater;
