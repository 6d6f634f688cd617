//! Alerts.

use crate::model::{AppId, Direction, Endpoint};
use vstd::prelude::*;

verus! {

/// Why an alert was raised.
#[derive(Debug, PartialEq, Eq)]
pub enum AlertKind {
    /// An application used the network for the first time.
    NewApp { app: AppId, remote: Option<Endpoint>, direction: Option<Direction> },
    /// A rule blocked an application's connection.
    Blocked { app: AppId, remote: Endpoint },
    /// A plugin named `source` found something worth a sentence.
    Plugin { source: String, message: String },
}

impl Clone for AlertKind {
    fn clone(&self) -> (r: AlertKind)
        ensures
            r == *self,
    {
        match self {
            AlertKind::NewApp { app, remote, direction } => AlertKind::NewApp {
                app: app.clone(),
                remote: *remote,
                direction: *direction,
            },
            AlertKind::Blocked { app, remote } => AlertKind::Blocked {
                app: app.clone(),
                remote: *remote,
            },
            AlertKind::Plugin { source, message } => AlertKind::Plugin {
                source: source.clone(),
                message: message.clone(),
            },
        }
    }
}

/// An alert that lasts until it is acknowledged.
#[derive(Debug, PartialEq, Eq)]
pub struct Alert {
    pub id: i64,
    /// Milliseconds since the Unix epoch.
    pub at_ms: u64,
    pub kind: AlertKind,
    pub acknowledged: bool,
}

impl Clone for Alert {
    fn clone(&self) -> (r: Alert)
        ensures
            r == *self,
    {
        Alert {
            id: self.id,
            at_ms: self.at_ms,
            kind: self.kind.clone(),
            acknowledged: self.acknowledged,
        }
    }
}

} // verus!
