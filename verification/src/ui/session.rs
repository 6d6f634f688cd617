//! The session with the engine: the greeting, the alerts that wait at its start,
//! requests and their replies, and the samples that are passed on.

use crate::alert::Alert;
use crate::assoc::{distinct, has_key, law_without, lemma_position, lookup, without, Assoc};
use crate::enrich::{Annotation, EnrichTarget};
use crate::ipc::message::{ClientMessage, Reply, ServerMessage, PROTOCOL_VERSION};
use crate::model::{AppSample, StatsTick};
use crate::rule::{Rule, RuleAction, RuleProposal};
use crate::text::{dec_text, owned, push_dec};
use crate::ui::notify::{asks, needs_decision};
use crate::usage::UsageQuery;
use vstd::prelude::*;

verus! {

/// How long a session waits before it is tried again.
pub const RETRY_MS: u64 = 1200;

/// How long a reply may take.
pub const REPLY_SECS: u64 = 10;

/// The request for the alerts that nobody acknowledged yet.
pub const BACKLOG_REQ: u64 = 0;

/// The request for the alerts that ask for a decision.
pub const PROMPT_REQ: u64 = 1;

/// Whether the engine is there, and which one.
#[derive(Debug)]
pub struct Status {
    pub online: bool,
    pub version: Option<String>,
}

impl Default for Status {
    fn default() -> (r: Status)
        ensures
            r == (Status { online: false, version: None }),
    {
        Status { online: false, version: None }
    }
}

impl Clone for Status {
    fn clone(&self) -> (r: Status)
        ensures
            r == *self,
    {
        Status { online: self.online, version: crate::rule::clone_label(&self.version) }
    }
}

/// The status that the window shows.
#[derive(Debug)]
pub struct StatusState(pub Status);

impl Default for StatusState {
    fn default() -> (r: StatusState)
        ensures
            r.0 == (Status { online: false, version: None }),
    {
        StatusState(Status::default())
    }
}

impl StatusState {
    /// The status as it is.
    pub fn engine_status(&self) -> (r: Status)
        ensures
            r == self.0,
    {
        self.0.clone()
    }

    /// Whether a request may be sent: not while the engine is known to be away.
    pub fn admits(&self) -> (r: Result<(), String>)
        ensures
            r is Ok == self.0.online,
            r is Err ==> r->Err_0@ == "engine offline"@,
    {
        if self.0.online {
            Ok(())
        } else {
            Err(owned("engine offline"))
        }
    }

    /// Sets the status, and gives it back for the window.
    pub fn set_status(&mut self, online: bool, version: Option<String>) -> (r: Status)
        ensures
            final(self).0 == (Status { online, version }),
            r == (Status { online, version }),
    {
        let status = Status { online, version };
        self.0 = status.clone();
        status
    }
}

/// How live samples are passed on.
#[derive(Debug, Clone, Copy, PartialEq, Eq, Structural)]
pub struct TickDetailState {
    /// Whether they keep their processes.
    pub detailed: bool,
    /// The least time between two of them.
    pub cadence_ms: u64,
}

impl Default for TickDetailState {
    fn default() -> (r: TickDetailState)
        ensures
            r == (TickDetailState { detailed: false, cadence_ms: 4_000 }),
    {
        TickDetailState { detailed: false, cadence_ms: 4_000 }
    }
}

impl TickDetailState {
    /// Sets how samples are passed on: once a second at most.
    pub fn set_tick_details(&mut self, enabled: bool, cadence_ms: u64)
        ensures
            final(self).detailed == enabled,
            final(self).cadence_ms == (if cadence_ms < 1_000 {
                1_000
            } else {
                cadence_ms
            }),
    {
        self.detailed = enabled;
        self.cadence_ms = if cadence_ms < 1_000 {
            1_000
        } else {
            cadence_ms
        };
    }
}

/// What the window asks the engine for.
#[derive(Debug)]
pub enum EngineCmd {
    ListRules,
    ListApps,
    ForgetApp(String),
    ForgetApps(Vec<String>),
    AddRule(Rule),
    RemoveRule(i64),
    SetRuleEnabled(i64, bool),
    GetRuleGrant,
    GetUsage(UsageQuery),
    GetAdapterUsage(u64, u64),
    ListAlerts(bool),
    ListPromptAlerts,
    SuppressAlertPrompts,
    AckAlert(i64),
    DecideAlert(i64, RuleAction),
    KillConnection(u16, String, u16),
    GetEnrichment(Vec<EnrichTarget>),
    ListPlugins,
    GrantPlugin(String, Vec<String>, Vec<String>),
    SetPluginEnabled(String, bool),
    ListProposals,
    /// Rejecting needs no rights; accepting enforces a rule.
    RejectProposal(i64),
    ResolveProposal(i64, bool),
    GetPluginPanel(String),
}

/// The request for a command.
pub open spec fn request_of(cmd: EngineCmd, req: u64) -> ClientMessage {
    match cmd {
        EngineCmd::ListRules => ClientMessage::ListRules { req },
        EngineCmd::ListApps => ClientMessage::ListApps { req },
        EngineCmd::ForgetApp(path) => ClientMessage::ForgetApp { req, path },
        EngineCmd::ForgetApps(paths) => ClientMessage::ForgetApps { req, paths },
        EngineCmd::AddRule(rule) => ClientMessage::AddRule { req, rule },
        EngineCmd::RemoveRule(id) => ClientMessage::RemoveRule { req, id },
        EngineCmd::SetRuleEnabled(id, enabled) => ClientMessage::SetRuleEnabled {
            req,
            id,
            enabled,
        },
        EngineCmd::GetRuleGrant => ClientMessage::GetRuleGrant { req },
        EngineCmd::GetUsage(query) => ClientMessage::GetUsage { req, query },
        EngineCmd::GetAdapterUsage(from_ms, to_ms) => ClientMessage::GetAdapterUsage {
            req,
            from_ms,
            to_ms,
        },
        EngineCmd::ListAlerts(unacked_only) => ClientMessage::ListAlerts { req, unacked_only },
        EngineCmd::ListPromptAlerts => ClientMessage::ListPromptAlerts { req },
        EngineCmd::SuppressAlertPrompts => ClientMessage::SuppressAlertPrompts { req },
        EngineCmd::AckAlert(id) => ClientMessage::AckAlert { req, id },
        EngineCmd::DecideAlert(id, action) => ClientMessage::DecideAlert { req, id, action },
        EngineCmd::KillConnection(local_port, remote_addr, remote_port) =>
            ClientMessage::KillConnection { req, local_port, remote_addr, remote_port },
        EngineCmd::GetEnrichment(targets) => ClientMessage::GetEnrichment { req, targets },
        EngineCmd::ListPlugins => ClientMessage::ListPlugins { req },
        EngineCmd::GrantPlugin(id, caps, egress) => ClientMessage::GrantPlugin {
            req,
            id,
            caps,
            egress,
        },
        EngineCmd::SetPluginEnabled(id, enabled) => ClientMessage::SetPluginEnabled {
            req,
            id,
            enabled,
        },
        EngineCmd::ListProposals => ClientMessage::ListProposals { req },
        EngineCmd::RejectProposal(id) => ClientMessage::ResolveProposal { req, id, accept: false },
        EngineCmd::ResolveProposal(id, accept) => ClientMessage::ResolveProposal {
            req,
            id,
            accept,
        },
        EngineCmd::GetPluginPanel(id) => ClientMessage::GetPluginPanel { req, id },
    }
}

/// The request for a command.
pub fn request(cmd: EngineCmd, req: u64) -> (m: ClientMessage)
    ensures
        m == request_of(cmd, req),
{
    match cmd {
        EngineCmd::ListRules => ClientMessage::ListRules { req },
        EngineCmd::ListApps => ClientMessage::ListApps { req },
        EngineCmd::ForgetApp(path) => ClientMessage::ForgetApp { req, path },
        EngineCmd::ForgetApps(paths) => ClientMessage::ForgetApps { req, paths },
        EngineCmd::AddRule(rule) => ClientMessage::AddRule { req, rule },
        EngineCmd::RemoveRule(id) => ClientMessage::RemoveRule { req, id },
        EngineCmd::SetRuleEnabled(id, enabled) => ClientMessage::SetRuleEnabled {
            req,
            id,
            enabled,
        },
        EngineCmd::GetRuleGrant => ClientMessage::GetRuleGrant { req },
        EngineCmd::GetUsage(query) => ClientMessage::GetUsage { req, query },
        EngineCmd::GetAdapterUsage(from_ms, to_ms) => ClientMessage::GetAdapterUsage {
            req,
            from_ms,
            to_ms,
        },
        EngineCmd::ListAlerts(unacked_only) => ClientMessage::ListAlerts { req, unacked_only },
        EngineCmd::ListPromptAlerts => ClientMessage::ListPromptAlerts { req },
        EngineCmd::SuppressAlertPrompts => ClientMessage::SuppressAlertPrompts { req },
        EngineCmd::AckAlert(id) => ClientMessage::AckAlert { req, id },
        EngineCmd::DecideAlert(id, action) => ClientMessage::DecideAlert { req, id, action },
        EngineCmd::KillConnection(local_port, remote_addr, remote_port) =>
            ClientMessage::KillConnection { req, local_port, remote_addr, remote_port },
        EngineCmd::GetEnrichment(targets) => ClientMessage::GetEnrichment { req, targets },
        EngineCmd::ListPlugins => ClientMessage::ListPlugins { req },
        EngineCmd::GrantPlugin(id, caps, egress) => ClientMessage::GrantPlugin {
            req,
            id,
            caps,
            egress,
        },
        EngineCmd::SetPluginEnabled(id, enabled) => ClientMessage::SetPluginEnabled {
            req,
            id,
            enabled,
        },
        EngineCmd::ListProposals => ClientMessage::ListProposals { req },
        EngineCmd::RejectProposal(id) => ClientMessage::ResolveProposal { req, id, accept: false },
        EngineCmd::ResolveProposal(id, accept) => ClientMessage::ResolveProposal {
            req,
            id,
            accept,
        },
        EngineCmd::GetPluginPanel(id) => ClientMessage::GetPluginPanel { req, id },
    }
}

/// The greeting.
pub fn hello() -> (m: ClientMessage)
    ensures
        m == (ClientMessage::Hello { protocol: PROTOCOL_VERSION }),
{
    ClientMessage::Hello { protocol: PROTOCOL_VERSION }
}

/// Why an engine's reply to the greeting was not accepted.
#[derive(Debug)]
pub enum Refusal<F> {
    /// The engine speaks another version.
    Mismatch(u32),
    /// The reply was something else, or the engine was gone.
    NotWelcome(Option<ServerMessage<F>>),
}

/// The sentence for an engine that speaks another version.
pub fn mismatch_message(protocol: u32) -> (s: String)
    ensures
        s@ == "protocol mismatch: engine "@ + dec_text(protocol as nat) + ", ui "@ + dec_text(
            PROTOCOL_VERSION as nat,
        ),
{
    let mut s = owned("protocol mismatch: engine ");
    push_dec(&mut s, protocol as u64);
    s.push_str(", ui ");
    push_dec(&mut s, PROTOCOL_VERSION as u64);
    s
}

/// The engine's version, from its reply to the greeting.
pub fn welcome<F>(first: Option<ServerMessage<F>>) -> (r: Result<String, Refusal<F>>)
    ensures
        r == match first {
            Some(ServerMessage::Welcome { protocol, engine_version }) => if protocol
                == PROTOCOL_VERSION {
                Ok(engine_version)
            } else {
                Err(Refusal::Mismatch(protocol))
            },
            other => Err(Refusal::NotWelcome(other)),
        },
{
    match first {
        Some(ServerMessage::Welcome { protocol, engine_version }) => {
            if protocol == PROTOCOL_VERSION {
                Ok(engine_version)
            } else {
                Err(Refusal::Mismatch(protocol))
            }
        },
        other => Err(Refusal::NotWelcome(other)),
    }
}

/// What is sent once the engine is accepted: live samples are asked for, and the
/// two lists of alerts.
pub fn restore_requests() -> (r: Vec<ClientMessage>)
    ensures
        r@ == seq![
            ClientMessage::Subscribe,
            ClientMessage::ListAlerts { req: BACKLOG_REQ, unacked_only: true },
            ClientMessage::ListPromptAlerts { req: PROMPT_REQ },
        ],
{
    let mut r: Vec<ClientMessage> = Vec::new();
    r.push(ClientMessage::Subscribe);
    r.push(ClientMessage::ListAlerts { req: BACKLOG_REQ, unacked_only: true });
    r.push(ClientMessage::ListPromptAlerts { req: PROMPT_REQ });
    assert(r@ =~= seq![
        ClientMessage::Subscribe,
        ClientMessage::ListAlerts { req: BACKLOG_REQ, unacked_only: true },
        ClientMessage::ListPromptAlerts { req: PROMPT_REQ },
    ]);
    r
}

/// What to do with something that the engine said.
#[derive(Debug)]
pub enum Action<F, R> {
    Ignore,
    /// Passes a live sample on to the window.
    Tick(StatsTick),
    /// Prompts for an alert or notifies it, and passes it on.
    Alert(Alert),
    Enrichment { target: EnrichTarget, annotations: Vec<Annotation> },
    Proposal(RuleProposal),
    /// Hands a reply to whoever waits for it.
    Deliver { resp: R, reply: Reply<F> },
}

/// What to do next while the alerts are restored.
#[derive(Debug)]
pub enum RestoreStep<F> {
    /// Does something, and reads on.
    On(Action<F, ()>),
    /// Both lists are there.
    Restored { backlog: Vec<Alert>, prompts: Vec<Alert> },
    Failed(String),
}

/// The lists of alerts that have come.
#[derive(Debug)]
pub struct Restore {
    pub backlog: Option<Vec<Alert>>,
    pub prompts: Option<Vec<Alert>>,
}

impl Restore {
    /// No list has come.
    pub fn new() -> (r: Restore)
        ensures
            r == (Restore { backlog: None, prompts: None }),
    {
        Restore { backlog: None, prompts: None }
    }

    /// The lists after what the engine said.
    pub open spec fn after<F>(self, frame: Option<ServerMessage<F>>) -> Restore {
        match frame {
            Some(ServerMessage::Reply { req, result: Reply::Alerts(alerts) }) => if req
                == BACKLOG_REQ {
                Restore { backlog: Some(alerts), ..self }
            } else if req == PROMPT_REQ {
                Restore { prompts: Some(alerts), ..self }
            } else {
                self
            },
            _ => self,
        }
    }

    /// What comes of something that the engine said while the alerts are restored.
    pub open spec fn step_of<F>(self, frame: Option<ServerMessage<F>>, step: RestoreStep<F>) -> bool {
        match frame {
            Some(ServerMessage::Reply { req, result }) => if result is Alerts && (req
                == BACKLOG_REQ || req == PROMPT_REQ) {
                match (self.after(frame).backlog, self.after(frame).prompts) {
                    (Some(backlog), Some(prompts)) => step == (RestoreStep::<F>::Restored {
                        backlog,
                        prompts,
                    }),
                    _ => step == RestoreStep::<F>::On(Action::Ignore),
                }
            } else {
                step matches RestoreStep::Failed(m) && m@
                    == "unexpected reply during alert restore"@
            },
            Some(ServerMessage::Alert(alert)) => step == RestoreStep::<F>::On(
                Action::Alert(alert),
            ),
            Some(ServerMessage::Enrichment { target, annotations }) => step
                == RestoreStep::<F>::On(Action::Enrichment { target, annotations }),
            Some(ServerMessage::Proposal(p)) => step == RestoreStep::<F>::On(Action::Proposal(p)),
            Some(_) => step == RestoreStep::<F>::On(Action::Ignore),
            None => step matches RestoreStep::Failed(m) && m@
                == "engine disconnected during alert restore"@,
        }
    }

    /// Takes what the engine said while the alerts are restored.
    pub fn reconcile_alerts<F>(self, frame: Option<ServerMessage<F>>) -> (r: (
        Restore,
        RestoreStep<F>,
    ))
        ensures
            self.step_of(frame, r.1),
            !(r.1 is Restored) ==> r.0 == self.after(frame),
    {
        match frame {
            Some(ServerMessage::Reply { req, result }) => {
                match result {
                    Reply::Alerts(alerts) => {
                        if req == BACKLOG_REQ {
                            match self.prompts {
                                Some(prompts) => (
                                    Restore::new(),
                                    RestoreStep::Restored { backlog: alerts, prompts },
                                ),
                                None => (
                                    Restore { backlog: Some(alerts), prompts: None },
                                    RestoreStep::On(Action::Ignore),
                                ),
                            }
                        } else if req == PROMPT_REQ {
                            match self.backlog {
                                Some(backlog) => (
                                    Restore::new(),
                                    RestoreStep::Restored { backlog, prompts: alerts },
                                ),
                                None => (
                                    Restore { backlog: None, prompts: Some(alerts) },
                                    RestoreStep::On(Action::Ignore),
                                ),
                            }
                        } else {
                            (
                                self,
                                RestoreStep::Failed(owned("unexpected reply during alert restore")),
                            )
                        }
                    },
                    _ => (
                        self,
                        RestoreStep::Failed(owned("unexpected reply during alert restore")),
                    ),
                }
            },
            Some(ServerMessage::Alert(alert)) => (self, RestoreStep::On(Action::Alert(alert))),
            Some(ServerMessage::Enrichment { target, annotations }) => (
                self,
                RestoreStep::On(Action::Enrichment { target, annotations }),
            ),
            Some(ServerMessage::Proposal(p)) => (self, RestoreStep::On(Action::Proposal(p))),
            Some(ServerMessage::Tick(_)) => (self, RestoreStep::On(Action::Ignore)),
            Some(ServerMessage::Welcome { .. }) => (self, RestoreStep::On(Action::Ignore)),
            None => (self, RestoreStep::Failed(owned("engine disconnected during alert restore"))),
        }
    }
}

/// The first alert that asks for a decision.
pub open spec fn first_asking(alerts: Seq<Alert>) -> Option<Alert>
    decreases alerts.len(),
{
    if alerts.len() == 0 {
        None
    } else if asks(alerts[0]) {
        Some(alerts[0])
    } else {
        first_asking(alerts.drop_first())
    }
}

/// The alert to prompt for once the alerts are restored.
pub fn finish_alert_reconcile(prompts: &Vec<Alert>) -> (r: Option<&Alert>)
    ensures
        match r {
            Some(a) => first_asking(prompts@) == Some(*a),
            None => first_asking(prompts@) is None,
        },
{
    let mut i: usize = 0;
    assert(prompts@.skip(0) =~= prompts@);
    while i < prompts.len()
        invariant
            i <= prompts@.len(),
            first_asking(prompts@.skip(i as int)) == first_asking(prompts@),
        decreases prompts@.len() - i,
    {
        assert(prompts@.skip(i as int).drop_first() =~= prompts@.skip(i + 1));
        if needs_decision(&prompts[i]) {
            return Some(&prompts[i]);
        }
        i += 1;
    }
    None
}

/// Whether `b` is `a` without its processes.
pub open spec fn brief_app(a: AppSample, b: AppSample) -> bool {
    &&& b.app == a.app
    &&& b.name == a.name
    &&& b.rate_sent == a.rate_sent
    &&& b.rate_recv == a.rate_recv
    &&& b.total == a.total
    &&& b.connections == a.connections
    &&& b.online == a.online
    &&& b.processes@.len() == 0
}

/// Whether `b` is `a` without the processes of its applications.
pub open spec fn brief(a: StatsTick, b: StatsTick) -> bool {
    &&& b.at_ms == a.at_ms
    &&& b.total_rate_sent == a.total_rate_sent
    &&& b.total_rate_recv == a.total_rate_recv
    &&& b.adapters == a.adapters
    &&& b.apps@.len() == a.apps@.len()
    &&& forall|i: int| 0 <= i < a.apps@.len() ==> brief_app(a.apps@[i], #[trigger] b.apps@[i])
}

/// A sample without the processes of its applications.
fn without_processes(tick: StatsTick) -> (r: StatsTick)
    ensures
        brief(tick, r),
{
    let StatsTick { at_ms, total_rate_sent, total_rate_recv, apps, adapters } = tick;
    let ghost all = apps@;
    let mut left = apps;
    let mut kept: Vec<AppSample> = Vec::new();
    let mut i: usize = 0;
    let n: usize = left.len();
    // the applications leave from the back, so they arrive in reverse
    while i < n
        invariant
            i <= n,
            n == all.len(),
            left@ == all.take(n - i),
            kept@.len() == i,
            forall|j: int|
                0 <= j < i ==> brief_app(all[n - 1 - j], #[trigger] kept@[j]),
        decreases n - i,
    {
        let a = left.pop().unwrap();
        kept.push(
            AppSample {
                app: a.app,
                name: a.name,
                rate_sent: a.rate_sent,
                rate_recv: a.rate_recv,
                total: a.total,
                connections: a.connections,
                online: a.online,
                processes: Vec::new(),
            },
        );
        i += 1;
        assert(left@ =~= all.take(n - i));
    }
    let ghost back = kept@;
    assert(back.take(n as int) =~= back);
    let mut out: Vec<AppSample> = Vec::new();
    let mut k: usize = 0;
    while k < n
        invariant
            k <= n,
            n == all.len(),
            back.len() == n,
            kept@ == back.take(n - k),
            out@.len() == k,
            forall|j: int| 0 <= j < n ==> brief_app(all[n - 1 - j], #[trigger] back[j]),
            forall|j: int| 0 <= j < k ==> brief_app(all[j], #[trigger] out@[j]),
        decreases n - k,
    {
        let a = kept.pop().unwrap();
        assert(a == back[n - 1 - k]);
        out.push(a);
        k += 1;
        assert(kept@ =~= back.take(n - k));
    }
    StatsTick { at_ms, total_rate_sent, total_rate_recv, apps: out, adapters }
}

/// The requests of a session, and when it last passed a sample on. What waits
/// for a reply is of type `R`.
pub struct Session<R> {
    next_id: u64,
    last_tick: u64,
    pending: Assoc<u64, R>,
}

/// A session.
pub ghost struct SessionView<R> {
    pub next_id: nat,
    /// When the last sample that was passed on was taken.
    pub last_tick: nat,
    /// What waits for a reply, under the number of its request.
    pub pending: Seq<(u64, R)>,
}

impl<R> SessionView<R> {
    /// No two requests share a number, and none has one that is yet to come.
    pub open spec fn wf(self) -> bool {
        &&& distinct(self.pending)
        &&& forall|i: int| 0 <= i < self.pending.len() ==> (#[trigger] self.pending[i]).0
            < self.next_id
    }

    /// The session after a request.
    pub open spec fn asked(self, resp: R) -> SessionView<R> {
        SessionView {
            next_id: self.next_id + 1,
            pending: self.pending.push((self.next_id as u64, resp)),
            ..self
        }
    }

    /// The session after a reply.
    pub open spec fn answered(self, req: u64) -> SessionView<R> {
        SessionView { pending: without(self.pending, req), ..self }
    }

    /// Whether a sample is passed on.
    pub open spec fn due(self, at_ms: nat, detail: Option<TickDetailState>) -> bool {
        detail matches Some(d) && (if at_ms >= self.last_tick {
            at_ms - self.last_tick
        } else {
            0
        }) >= d.cadence_ms
    }
}

impl<R> View for Session<R> {
    type V = SessionView<R>;

    closed spec fn view(&self) -> SessionView<R> {
        SessionView {
            next_id: self.next_id as nat,
            last_tick: self.last_tick as nat,
            pending: self.pending@,
        }
    }
}

impl<R> Session<R> {
    /// A session in which nothing was asked.
    pub fn new() -> (s: Session<R>)
        ensures
            s@ == (SessionView::<R> { next_id: 1, last_tick: 0, pending: Seq::empty() }),
            s@.wf(),
    {
        Session { next_id: 1, last_tick: 0, pending: Assoc::new() }
    }

    /// Takes what the engine said.
    pub fn on_message<F>(
        &mut self,
        msg: ServerMessage<F>,
        detail: Option<TickDetailState>,
    ) -> (r: Action<F, R>)
        requires
            old(self)@.wf(),
        ensures
            final(self)@.wf(),
            match msg {
                ServerMessage::Tick(tick) => if old(self)@.due(tick.at_ms as nat, detail) {
                    &&& final(self)@ == (SessionView::<R> {
                        last_tick: tick.at_ms as nat,
                        ..old(self)@
                    })
                    &&& r matches Action::Tick(t) && (if detail->Some_0.detailed {
                        t == tick
                    } else {
                        brief(tick, t)
                    })
                } else {
                    r is Ignore && final(self)@ == old(self)@
                },
                ServerMessage::Reply { req, result } => {
                    &&& final(self)@ == old(self)@.answered(req)
                    &&& r == match lookup(old(self)@.pending, req) {
                        Some(resp) => Action::<F, R>::Deliver { resp, reply: result },
                        None => Action::<F, R>::Ignore,
                    }
                },
                ServerMessage::Alert(alert) => r == Action::<F, R>::Alert(alert) && final(self)@
                    == old(self)@,
                ServerMessage::Enrichment { target, annotations } => r
                    == (Action::<F, R>::Enrichment { target, annotations }) && final(self)@
                    == old(self)@,
                ServerMessage::Proposal(p) => r == Action::<F, R>::Proposal(p) && final(self)@
                    == old(self)@,
                ServerMessage::Welcome { protocol, engine_version } => r is Ignore && final(self)@
                    == old(self)@,
            },
    {
        match msg {
            ServerMessage::Tick(tick) => {
                match detail {
                    None => Action::Ignore,
                    Some(d) => {
                        if tick.at_ms.saturating_sub(self.last_tick) < d.cadence_ms {
                            return Action::Ignore;
                        }
                        self.last_tick = tick.at_ms;
                        if d.detailed {
                            Action::Tick(tick)
                        } else {
                            Action::Tick(without_processes(tick))
                        }
                    },
                }
            },
            ServerMessage::Alert(alert) => Action::Alert(alert),
            ServerMessage::Enrichment { target, annotations } => Action::Enrichment {
                target,
                annotations,
            },
            ServerMessage::Proposal(p) => Action::Proposal(p),
            ServerMessage::Reply { req, result } => {
                proof {
                    lemma_answered(self@, req);
                }
                match self.pending.remove(&req) {
                    Some(resp) => Action::Deliver { resp, reply: result },
                    None => Action::Ignore,
                }
            },
            ServerMessage::Welcome { .. } => Action::Ignore,
        }
    }

    /// Sends a command: what waits for its reply is kept under a number that no
    /// other request has.
    pub fn on_command(&mut self, cmd: EngineCmd, resp: R) -> (m: ClientMessage)
        requires
            old(self)@.wf(),
            old(self)@.next_id < u64::MAX,
        ensures
            final(self)@.wf(),
            final(self)@ == old(self)@.asked(resp),
            m == request_of(cmd, old(self)@.next_id as u64),
    {
        let req: u64 = self.next_id;
        self.next_id = req + 1;
        proof {
            lemma_position(self.pending@, req);
        }
        self.pending.push(req, resp);
        request(cmd, req)
    }

    /// The number of the next request.
    pub fn next_request(&self) -> (n: u64)
        ensures
            n == self@.next_id,
    {
        self.next_id
    }
}

proof fn lemma_answered<R>(v: SessionView<R>, req: u64)
    requires
        v.wf(),
    ensures
        v.answered(req).wf(),
{
    law_without(v.pending, req, req);
    lemma_position(v.pending, req);
    let p = without(v.pending, req);
    assert forall|i: int| 0 <= i < p.len() implies (#[trigger] p[i]).0 < v.next_id by {
        if has_key(v.pending, req) {
            if i < crate::assoc::position(v.pending, req) {
                assert(p[i] == v.pending[i]);
            } else {
                assert(p[i] == v.pending[i + 1]);
            }
        }
    }
}

/// Requests and replies keep numbers apart.
pub proof fn law_sessions_stay_well_formed<R>(v: SessionView<R>, resp: R, req: u64)
    requires
        v.wf(),
        v.next_id < u64::MAX,
    ensures
        v.asked(resp).wf(),
        v.answered(req).wf(),
{
    lemma_position(v.pending, v.next_id as u64);
    lemma_answered(v, req);
}

/// A reply reaches what waits for it, whatever was asked and answered meanwhile,
/// and a second reply to the same request reaches nobody.
pub proof fn law_a_reply_reaches_its_request_once<R>(v: SessionView<R>, resp: R, later: R, other: u64)
    requires
        v.wf(),
        v.next_id + 1 < u64::MAX,
        other != v.next_id,
    ensures
        lookup(v.asked(resp).pending, v.next_id as u64) == Some(resp),
        lookup(v.asked(resp).asked(later).pending, v.next_id as u64) == Some(resp),
        lookup(v.asked(resp).answered(other).pending, v.next_id as u64) == Some(resp),
        lookup(v.asked(resp).answered(v.next_id as u64).pending, v.next_id as u64) is None,
{
    let n = v.next_id as u64;
    lemma_position(v.pending, n);
    let w = v.asked(resp);
    law_sessions_stay_well_formed(v, resp, other);
    crate::assoc::lemma_position_is(w.pending, n, v.pending.len() as int);
    let x = w.asked(later);
    crate::assoc::lemma_position_is(x.pending, n, v.pending.len() as int);
    law_without(w.pending, other, n);
    law_without(w.pending, n, n);
}

/// The times of the samples that are passed on, of those that come.
pub open spec fn passed(last: nat, times: Seq<nat>, cadence: nat) -> Seq<nat>
    decreases times.len(),
{
    if times.len() == 0 {
        Seq::empty()
    } else if (if times[0] >= last {
        times[0] - last
    } else {
        0
    }) >= cadence {
        seq![times[0]] + passed(times[0], times.drop_first(), cadence)
    } else {
        passed(last, times.drop_first(), cadence)
    }
}

/// Samples that are passed on lie at least the cadence apart.
pub proof fn law_samples_keep_their_distance(last: nat, times: Seq<nat>, cadence: nat, i: int)
    requires
        cadence > 0,
        0 <= i < passed(last, times, cadence).len(),
    ensures
        passed(last, times, cadence)[i] >= cadence + (if i == 0 {
            last
        } else {
            passed(last, times, cadence)[i - 1]
        }),
    decreases times.len(),
{
    let t = times[0];
    if (if t >= last {
        t - last
    } else {
        0
    }) >= cadence {
        if i > 0 {
            law_samples_keep_their_distance(t, times.drop_first(), cadence, i - 1);
        }
    } else {
        law_samples_keep_their_distance(last, times.drop_first(), cadence, i);
    }
}

/// Every command becomes a request of its own: two requests that are the same come
/// from the same command under the same number, except that rejecting a proposal is
/// resolving it with a refusal.
pub proof fn law_requests_identify_their_command(a: EngineCmd, b: EngineCmd, r: u64, s: u64)
    requires
        request_of(a, r) == request_of(b, s),
    ensures
        r == s,
        a == b || (a is RejectProposal && b is ResolveProposal) || (a is ResolveProposal
            && b is RejectProposal),
{
}

/// Rejecting a proposal resolves it with a refusal, and a command keeps what it says.
pub proof fn law_requests_say_what_the_command_says(
    id: i64,
    req: u64,
    rule: crate::rule::Rule,
    port: u16,
    remote: String,
    remote_port: u16,
)
    ensures
        request_of(EngineCmd::RejectProposal(id), req) == (ClientMessage::ResolveProposal {
            req,
            id,
            accept: false,
        }),
        request_of(EngineCmd::ResolveProposal(id, true), req) == (ClientMessage::ResolveProposal {
            req,
            id,
            accept: true,
        }),
        request_of(EngineCmd::AddRule(rule), req) == (ClientMessage::AddRule { req, rule }),
        request_of(EngineCmd::RemoveRule(id), req) == (ClientMessage::RemoveRule { req, id }),
        request_of(EngineCmd::KillConnection(port, remote, remote_port), req) == (
        ClientMessage::KillConnection {
            req,
            local_port: port,
            remote_addr: remote,
            remote_port,
        }),
{
}

/// Alerts are restored once both answers are there, in whichever order they came,
/// and not before; other replies do not count as either.
pub proof fn law_both_answers_restore_the_alerts<F>(
    backlog: Vec<Alert>,
    prompts: Vec<Alert>,
    step: RestoreStep<F>,
    early: RestoreStep<F>,
)
    ensures
        ({
            let none = Restore { backlog: None, prompts: None };
            let first = Some(
                ServerMessage::<F>::Reply { req: 0, result: Reply::Alerts(backlog) },
            );
            let second = Some(
                ServerMessage::<F>::Reply { req: 1, result: Reply::Alerts(prompts) },
            );
            let whole = RestoreStep::<F>::Restored { backlog, prompts };
            &&& none.step_of(first, early) ==> early !is Restored
            &&& none.step_of(second, early) ==> early !is Restored
            &&& none.after(first).step_of(second, step) ==> step == whole
            &&& none.after(second).step_of(first, step) ==> step == whole
            &&& none.after(first).after(second) == none.after(second).after(first)
            &&& none.step_of(None, early) ==> early is Failed
        }),
{
}

/// The alert that is asked about is the first that needs a decision.
pub proof fn law_the_first_asking_alert_is_asked_about(
    before: Seq<Alert>,
    one: Alert,
    after: Seq<Alert>,
)
    requires
        forall|i: int| 0 <= i < before.len() ==> !asks(#[trigger] before[i]),
        asks(one),
    ensures
        first_asking(before + seq![one] + after) == Some(one),
        first_asking(before) is None,
    decreases before.len(),
{
    let all = before + seq![one] + after;
    if before.len() > 0 {
        let b = before.drop_first();
        assert forall|i: int| 0 <= i < b.len() implies !asks(#[trigger] b[i]) by {
            assert(b[i] == before[i + 1]);
        }
        assert(!asks(before[0]));
        assert(all[0] == before[0]);
        assert(all.drop_first() =~= b + seq![one] + after);
        law_the_first_asking_alert_is_asked_about(b, one, after);
    } else {
        assert(all[0] == one);
    }
}

/// A sample is due when as much time has passed since the last one as the cadence
/// says; a clock that went back counts as no time, and without details none is due.
pub proof fn law_samples_are_due_after_their_cadence<R>(
    v: SessionView<R>,
    passed: nat,
    d: TickDetailState,
)
    ensures
        v.due(v.last_tick + passed, Some(d)) == (passed >= d.cadence_ms),
        !v.due(v.last_tick + passed, None),
        passed <= v.last_tick ==> v.due((v.last_tick - passed) as nat, Some(d)) == (d.cadence_ms
            == 0),
{
}

} // verus!
