//! What a platform provides: a monitor and a firewall.

use crate::error::EngineResult;
use crate::model::{AppId, Endpoint, LiveConnection, StatsTick};
use crate::rule::Rule;
use vstd::prelude::*;

verus! {

/// Where a running monitor delivers what it sees.
pub trait MonitorSink: Send + Sync {
    /// A sample of every tracked application, about once a second.
    fn on_tick(&self, tick: StatsTick);

    /// An application was seen talking to a remote endpoint.
    fn on_connection(&self, app: &AppId, remote: &Endpoint);
}

/// A monitor of every application's traffic.
pub trait NetworkMonitor: Send {
    /// Starts to deliver what it sees.
    fn start(&mut self, sink: std::sync::Arc<dyn MonitorSink>) -> EngineResult<()>;

    /// Stops; a monitor that has stopped stays so.
    fn stop(&mut self);

    /// The connections that there are, each with its application.
    fn snapshot_connections(&self) -> Vec<LiveConnection>;
}

/// Enforcement of rules by the operating system's own filters.
pub trait FirewallController: Send {
    /// Provides the one-time state that filters need.
    fn init(&mut self) -> EngineResult<()>;

    /// Enforces a rule and gives the filter that backs it.
    fn apply(&mut self, rule: &Rule) -> EngineResult<u64>;

    /// Removes a filter.
    fn remove(&mut self, filter_id: u64) -> EngineResult<()>;

    /// Removes every filter.
    fn clear_all(&mut self) -> EngineResult<()>;
}

} // verus!
