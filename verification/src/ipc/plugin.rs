//! What plugins and the engine say to each other.
//!
//! A plugin is a process of its own. The engine hands it a token when it starts
//! it, and the plugin's first message carries the token back: that message, and
//! not the pipe, tells the engine who is speaking.

use crate::alert::Alert;
use crate::enrich::{Annotation, EnrichTarget};
use crate::model::StatsTick;
use crate::panel::Panel;
use crate::rule::Rule;
use vstd::prelude::*;

verus! {

/// The version of the plugins' messages.
pub const PLUGIN_PROTOCOL_VERSION: u32 = 2;

/// The variable that hands a plugin its token.
pub const TOKEN_ENV: &'static str = "IRIS_PLUGIN_TOKEN";

/// What a plugin can ask to be told of.
#[derive(Debug, Clone, Copy, PartialEq, Eq, Structural)]
pub enum StreamKind {
    Ticks,
    Alerts,
}

/// What a plugin says, where a panel's numbers are of type `F`.
#[derive(Debug, PartialEq, Eq)]
pub enum PluginMessage<F> {
    /// The first message; another one closes the pipe.
    Register { id: String, protocol: u32, token: String, caps: Vec<String> },
    Subscribe { streams: Vec<StreamKind> },
    /// What the plugin found out on its own.
    Enrichment { target: EnrichTarget, annotations: Vec<Annotation> },
    EnrichReply { req: u64, annotations: Vec<Annotation> },
    /// An alert, which the engine signs with the plugin's name.
    RaiseAlert { message: String },
    /// A rule for the user to look at.
    ProposeRule { rule: Rule, reason: String },
    Pong { req: u64 },
    PanelReply { req: u64, panel: Option<Panel<F>> },
}

/// What the engine says to a plugin.
#[derive(Debug, PartialEq, Eq)]
pub enum HostMessage {
    /// The plugin may do what `granted` lists.
    Registered { granted: Vec<String>, engine_version: String },
    /// The plugin is refused, and the pipe closes.
    Rejected { reason: String },
    Event(PluginEvent),
    EnrichRequest { req: u64, target: EnrichTarget },
    Ping { req: u64 },
    PanelRequest { req: u64 },
}

/// Something that a plugin asked to be told of.
#[derive(Debug, PartialEq, Eq)]
pub enum PluginEvent {
    Tick(StatsTick),
    Alert(Alert),
}

} // verus!
