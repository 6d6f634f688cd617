//! A plugin's side of its conversation with the engine.

use crate::enrich::EnrichTarget;
use crate::alert::Alert;
use crate::ipc::plugin::{
    HostMessage, PluginEvent, PluginMessage, StreamKind, PLUGIN_PROTOCOL_VERSION,
};
use crate::model::StatsTick;
use crate::text::{copy_texts, owned};
use vstd::prelude::*;

verus! {

/// How many messages of a plugin wait to be sent; more are dropped.
pub const OUTBOUND: usize = 256;

/// What a plugin wants when it starts.
#[derive(Debug)]
pub struct Registration {
    pub caps: Vec<String>,
    pub streams: Vec<StreamKind>,
}

impl Default for Registration {
    fn default() -> (r: Registration)
        ensures
            r.caps@.len() == 0,
            r.streams@.len() == 0,
    {
        Registration { caps: Vec::new(), streams: Vec::new() }
    }
}

impl Clone for Registration {
    fn clone(&self) -> (r: Registration)
        ensures
            r.caps@ == self.caps@,
            r.streams@ == self.streams@,
    {
        Registration { caps: copy_texts(&self.caps), streams: copy_streams(&self.streams) }
    }
}

fn copy_streams(v: &Vec<StreamKind>) -> (r: Vec<StreamKind>)
    ensures
        r@ == v@,
{
    let mut r: Vec<StreamKind> = Vec::new();
    let mut i: usize = 0;
    while i < v.len()
        invariant
            i <= v@.len(),
            r@ == v@.take(i as int),
        decreases v@.len() - i,
    {
        r.push(v[i]);
        i += 1;
        assert(r@ =~= v@.take(i as int));
    }
    assert(v@.take(v@.len() as int) =~= v@);
    r
}

/// The token that the engine handed over, or the complaint of a plugin that
/// nobody handed one.
pub fn token_of(var: Option<String>) -> (r: Result<String, String>)
    ensures
        match var {
            Some(t) => r == Result::<String, String>::Ok(t),
            None => r is Err && r->Err_0@
                == "IRIS_PLUGIN_TOKEN not set (plugins are launched by the service)"@,
        },
{
    match var {
        Some(t) => Ok(t),
        None => Err(owned("IRIS_PLUGIN_TOKEN not set (plugins are launched by the service)")),
    }
}

impl Registration {
    /// The first message: who the plugin is, and what it wants to do.
    pub fn register<F>(&self, id: &str, token: String) -> (m: PluginMessage<F>)
        ensures
            m matches PluginMessage::Register { id: i, protocol, token: t, caps } && i@ == id@
                && protocol == PLUGIN_PROTOCOL_VERSION && t == token && caps@ == self.caps@,
    {
        PluginMessage::Register {
            id: owned(id),
            protocol: PLUGIN_PROTOCOL_VERSION,
            token,
            caps: copy_texts(&self.caps),
        }
    }

    /// What is sent once the engine accepted the plugin: the streams that it wants
    /// to hear, where there are any.
    pub fn subscribe<F>(&self) -> (m: Option<PluginMessage<F>>)
        ensures
            m is Some == (self.streams@.len() > 0),
            m matches Some(x) ==> x matches PluginMessage::Subscribe { streams } && streams@
                == self.streams@,
    {
        if self.streams.len() == 0 {
            None
        } else {
            Some(PluginMessage::Subscribe { streams: copy_streams(&self.streams) })
        }
    }
}

/// Why the engine did not accept a plugin.
#[derive(Debug)]
pub enum Refusal {
    /// Its reason, in a sentence.
    Rejected(String),
    /// It said something else, or was gone.
    NotRegistered(Option<HostMessage>),
}

/// What the engine lets a plugin do, from its first reply.
pub fn registered(first: Option<HostMessage>) -> (r: Result<Vec<String>, Refusal>)
    ensures
        match first {
            Some(HostMessage::Registered { granted, engine_version }) => r
                == Result::<Vec<String>, Refusal>::Ok(granted),
            Some(HostMessage::Rejected { reason }) => r matches Err(Refusal::Rejected(s)) && s@
                == "registration rejected: "@ + reason@,
            _ => r == Result::<Vec<String>, Refusal>::Err(Refusal::NotRegistered(first)),
        },
{
    match first {
        Some(HostMessage::Registered { granted, .. }) => Ok(granted),
        Some(HostMessage::Rejected { reason }) => {
            let mut s = owned("registration rejected: ");
            s.push_str(reason.as_str());
            Err(Refusal::Rejected(s))
        },
        other => Err(Refusal::NotRegistered(other)),
    }
}

/// What a plugin does about something that the engine said.
#[derive(Debug)]
pub enum Task<F> {
    Nothing,
    /// Looks a target up, and replies under the number of the request.
    Enrich { req: u64, target: EnrichTarget },
    /// Draws its panel, and replies under the number of the request.
    Panel { req: u64 },
    Tick(StatsTick),
    Alert(Alert),
    Send(PluginMessage<F>),
}

/// What a plugin does about something that the engine said.
pub fn task_for<F>(msg: HostMessage) -> (t: Task<F>)
    ensures
        t == match msg {
            HostMessage::EnrichRequest { req, target } => Task::<F>::Enrich { req, target },
            HostMessage::PanelRequest { req } => Task::<F>::Panel { req },
            HostMessage::Event(PluginEvent::Tick(tick)) => Task::<F>::Tick(tick),
            HostMessage::Event(PluginEvent::Alert(alert)) => Task::<F>::Alert(alert),
            HostMessage::Ping { req } => Task::<F>::Send(PluginMessage::Pong { req }),
            HostMessage::Registered { granted, engine_version } => Task::<F>::Nothing,
            HostMessage::Rejected { reason } => Task::<F>::Nothing,
        },
{
    match msg {
        HostMessage::EnrichRequest { req, target } => Task::Enrich { req, target },
        HostMessage::PanelRequest { req } => Task::Panel { req },
        HostMessage::Event(PluginEvent::Tick(tick)) => Task::Tick(tick),
        HostMessage::Event(PluginEvent::Alert(alert)) => Task::Alert(alert),
        HostMessage::Ping { req } => Task::Send(PluginMessage::Pong { req }),
        HostMessage::Registered { .. } => Task::Nothing,
        HostMessage::Rejected { .. } => Task::Nothing,
    }
}

} // verus!
