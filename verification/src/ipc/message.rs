//! What the window and the engine say to each other.

use crate::alert::Alert;
use crate::enrich::{Annotation, EnrichTarget};
use crate::model::{AdapterKind, ByteCounts, LiveConnection, StatsTick};
use crate::panel::Panel;
use crate::rule::{Rule, RuleAction, RuleProposal, StoredRule};
use crate::usage::{UsageBucket, UsageQuery};
use vstd::prelude::*;

verus! {

/// The version of the messages' shape. A window drives no engine of another
/// version.
pub const PROTOCOL_VERSION: u32 = 5;

/// One installed plugin: what it declares, and what the user agreed to.
#[derive(Debug, PartialEq, Eq)]
pub struct PluginInfo {
    pub id: String,
    pub name: String,
    pub version: String,
    pub description: String,
    /// The most that it may do, as its manifest declares.
    pub capabilities: Vec<String>,
    /// The hosts that it declares, each with a port.
    pub egress: Vec<String>,
    /// Whether the user agreed to it.
    pub granted: bool,
    /// Whether it is switched on.
    pub enabled: bool,
}

/// An application that has used the network, and when it first did.
#[derive(Debug, PartialEq, Eq)]
pub struct KnownApp {
    pub path: String,
    pub name: Option<String>,
    /// Milliseconds since the Unix epoch.
    pub first_seen: u64,
}

/// What the window asks. A request carries the number that its reply echoes.
#[derive(Debug, PartialEq, Eq)]
pub enum ClientMessage {
    /// The first message on a connection.
    Hello { protocol: u32 },
    /// Asks for live samples.
    Subscribe,
    Unsubscribe,
    ListConnections { req: u64 },
    ListRules { req: u64 },
    AddRule { req: u64, rule: Rule },
    RemoveRule { req: u64, id: i64 },
    SetRuleEnabled { req: u64, id: i64, enabled: bool },
    GetUsage { req: u64, query: UsageQuery },
    ListAlerts { req: u64, unacked_only: bool },
    AckAlert { req: u64, id: i64 },
    /// Closes one TCP connection.
    KillConnection { req: u64, local_port: u16, remote_addr: String, remote_port: u16 },
    /// Asks for what is known of the targets; what is not known yet is pushed later.
    GetEnrichment { req: u64, targets: Vec<EnrichTarget> },
    Ping { req: u64 },
    GetAdapterUsage { req: u64, from_ms: u64, to_ms: u64 },
    ListPlugins { req: u64 },
    /// Records what the user agreed that a plugin may do.
    GrantPlugin { req: u64, id: String, caps: Vec<String>, egress: Vec<String> },
    SetPluginEnabled { req: u64, id: String, enabled: bool },
    ListProposals { req: u64 },
    /// Settles a proposal.
    ResolveProposal { req: u64, id: i64, accept: bool },
    GetPluginPanel { req: u64, id: String },
    ListApps { req: u64 },
    ForgetApp { req: u64, path: String },
    ForgetApps { req: u64, paths: Vec<String> },
    /// Asks whether this account may change rules without more rights.
    GetRuleGrant { req: u64 },
    /// The alerts that still ask the user for a decision.
    ListPromptAlerts { req: u64 },
    SuppressAlertPrompts { req: u64 },
    DecideAlert { req: u64, id: i64, action: RuleAction },
}

/// What the engine answers with, where a panel's numbers are of type `F`.
#[derive(Debug, PartialEq, Eq)]
pub enum Reply<F> {
    /// What was asked for is done.
    Done,
    Pong,
    Connections(Vec<LiveConnection>),
    Rules(Vec<StoredRule>),
    RuleAdded(StoredRule),
    Alerts(Vec<Alert>),
    Usage(Vec<UsageBucket>),
    /// What is known of each target of which anything is.
    Enrichment(Vec<(EnrichTarget, Vec<Annotation>)>),
    Error(String),
    /// The traffic of each kind of adapter, the most first.
    AdapterUsage(Vec<(AdapterKind, ByteCounts)>),
    Plugins(Vec<PluginInfo>),
    /// The proposals, the newest first.
    Proposals(Vec<RuleProposal>),
    Panel(Panel<F>),
    Apps(Vec<KnownApp>),
    /// How many applications were forgotten.
    Forgotten(usize),
    RuleGrant(bool),
}

/// What the engine says: news that nobody asked for, or the reply to a request.
#[derive(Debug, PartialEq, Eq)]
pub enum ServerMessage<F> {
    /// The reply to the first message.
    Welcome { protocol: u32, engine_version: String },
    Tick(StatsTick),
    Alert(Alert),
    /// What was found out about a target.
    Enrichment { target: EnrichTarget, annotations: Vec<Annotation> },
    /// A plugin proposed a rule.
    Proposal(RuleProposal),
    Reply { req: u64, result: Reply<F> },
}

} // verus!
