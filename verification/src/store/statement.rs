//! The statements that are run on the database.

use crate::model::AdapterKind;
use crate::rule::ProposalState;
use crate::text::owned;
use crate::usage::{Granularity, UsageQuery};
use vstd::prelude::*;

verus! {

/// The most rows that a query for traffic gives.
pub const MAX_ROWS: i64 = 200_000;

pub const ENSURE_APP: &'static str =
    "INSERT OR IGNORE INTO apps(path, first_seen, name) VALUES (?1, ?2, ?3)";

pub const ADD_USAGE: &'static str = "INSERT INTO usage(path, bucket, sent, recv) VALUES (?1, ?2, ?3, ?4)
             ON CONFLICT(path, bucket) DO UPDATE SET sent = sent + ?3, recv = recv + ?4";

pub const ADD_ADAPTER_USAGE: &'static str = "INSERT INTO adapter_usage(kind, bucket, sent, recv) VALUES (?1, ?2, ?3, ?4)
             ON CONFLICT(kind, bucket) DO UPDATE SET sent = sent + ?3, recv = recv + ?4";

pub const ADAPTER_TOTALS: &'static str = "SELECT kind, SUM(sent), SUM(recv) FROM adapter_usage
             WHERE bucket >= ?1 AND bucket < ?2 GROUP BY kind
             ORDER BY SUM(sent) + SUM(recv) DESC";

pub const USAGE_OF_APP: &'static str = "SELECT path, (bucket / ?1) * ?1 AS b, SUM(sent), SUM(recv)
                 FROM usage WHERE bucket >= ?2 AND bucket < ?3 AND path = ?4
                 GROUP BY path, b ORDER BY b LIMIT ?5";

pub const USAGE_OF_ALL: &'static str = "SELECT path, (bucket / ?1) * ?1 AS b, SUM(sent), SUM(recv)
                 FROM usage WHERE bucket >= ?2 AND bucket < ?3
                 GROUP BY path, b ORDER BY b LIMIT ?4";

pub const USAGE_TOTALS: &'static str = "SELECT path, SUM(sent), SUM(recv) FROM usage
             WHERE bucket >= ?1 AND bucket < ?2 GROUP BY path
             ORDER BY SUM(sent) + SUM(recv) DESC";

pub const INSERT_ALERT: &'static str =
    "INSERT INTO alerts(at_ms, kind, acknowledged) VALUES (?1, ?2, 0)";

pub const LIST_UNACKED: &'static str =
    "SELECT id, at_ms, kind, acknowledged FROM alerts WHERE acknowledged = 0 ORDER BY id DESC LIMIT 500";

pub const LIST_ALERTS: &'static str =
    "SELECT id, at_ms, kind, acknowledged FROM alerts ORDER BY id DESC LIMIT 500";

pub const ACK_ALERT: &'static str = "UPDATE alerts SET acknowledged = 1 WHERE id = ?1";

pub const ACK_ALL: &'static str = "UPDATE alerts SET acknowledged = 1";

pub const PRUNE_USAGE: &'static str = "DELETE FROM usage WHERE bucket < ?1";

pub const PRUNE_ADAPTER_USAGE: &'static str = "DELETE FROM adapter_usage WHERE bucket < ?1";

pub const SET_GRANT: &'static str = "INSERT INTO plugin_grants(id, caps, egress, enabled, granted_at)
             VALUES (?1, ?2, ?3, ?4, ?5)
             ON CONFLICT(id) DO UPDATE SET
               caps = ?2, egress = ?3, enabled = ?4, granted_at = ?5";

pub const SET_ENABLED: &'static str = "UPDATE plugin_grants SET enabled = ?2 WHERE id = ?1";

pub const GRANT_OF: &'static str =
    "SELECT id, caps, egress, enabled, granted_at FROM plugin_grants WHERE id = ?1";

pub const GRANTS: &'static str =
    "SELECT id, caps, egress, enabled, granted_at FROM plugin_grants ORDER BY id";

pub const FIND_PROPOSAL: &'static str = "SELECT id, reason, at_ms FROM rule_proposals
                 WHERE source = ?1 AND rule = ?2 AND state = 'pending'";

pub const COUNT_PENDING: &'static str =
    "SELECT COUNT(*) FROM rule_proposals WHERE source = ?1 AND state = 'pending'";

pub const INSERT_PROPOSAL: &'static str = "INSERT INTO rule_proposals(source, rule, reason, at_ms, state)
             VALUES (?1, ?2, ?3, ?4, 'pending')";

pub const LIST_PROPOSALS: &'static str = "SELECT id, source, rule, reason, at_ms, state FROM rule_proposals
             ORDER BY id DESC LIMIT 200";

pub const SETTLE_PROPOSAL: &'static str =
    "UPDATE rule_proposals SET state = ?2 WHERE id = ?1 AND state = 'pending'";

pub const PROPOSAL_OF: &'static str =
    "SELECT source, rule, reason, at_ms FROM rule_proposals WHERE id = ?1";

pub const FIRST_SEEN: &'static str = "SELECT first_seen FROM apps WHERE path = ?1";

/// A value in a statement or in a row.
#[derive(Debug, PartialEq, Eq)]
pub enum SqlValue {
    Null,
    Int(i64),
    Text(String),
}

/// A statement, with the values that it is run with.
#[derive(Debug, PartialEq, Eq)]
pub enum Statement {
    EnsureApp { path: String, first_seen: i64, name: Option<String> },
    AddUsage { path: String, bucket: i64, sent: i64, recv: i64 },
    AddAdapterUsage { kind: AdapterKind, bucket: i64, sent: i64, recv: i64 },
    AdapterTotals { from: i64, to: i64 },
    UsageOf { width: i64, from: i64, to: i64, app: Option<String> },
    UsageTotals { from: i64, to: i64 },
    InsertAlert { at_ms: i64, kind: String },
    ListAlerts { unacked_only: bool },
    AckAlert { id: i64 },
    AckAll,
    PruneUsage { before: i64 },
    PruneAdapterUsage { before: i64 },
    SetGrant { id: String, caps: String, egress: String, enabled: bool, granted_at: i64 },
    SetEnabled { id: String, enabled: bool },
    GrantOf { id: String },
    Grants,
    FindProposal { source: String, rule: String },
    CountPending { source: String },
    InsertProposal { source: String, rule: String, reason: String, at_ms: i64 },
    ListProposals,
    SettleProposal { id: i64, state: ProposalState },
    ProposalOf { id: i64 },
    FirstSeen { path: String },
}

/// What a number becomes in a column: the upper half wraps around.
pub open spec fn stored(v: u64) -> i64 {
    if v <= i64::MAX {
        v as i64
    } else {
        (v - 0x1_0000_0000_0000_0000) as i64
    }
}

/// What a column's number stands for.
pub open spec fn loaded(v: i64) -> u64 {
    if v >= 0 {
        v as u64
    } else {
        (v + 0x1_0000_0000_0000_0000) as u64
    }
}

/// What is read from a column is what was written there.
pub proof fn law_numbers_read_back(v: u64)
    ensures
        loaded(stored(v)) == v,
{
}

/// What a number becomes in a column.
pub fn store_u64(v: u64) -> (r: i64)
    ensures
        r == stored(v),
{
    if v <= 0x7fff_ffff_ffff_ffff {
        v as i64
    } else {
        (v - 0x8000_0000_0000_0000) as i64 - 0x7fff_ffff_ffff_ffff - 1
    }
}

/// What a column's number stands for.
pub fn load_u64(v: i64) -> (r: u64)
    ensures
        r == loaded(v),
{
    if v >= 0 {
        v as u64
    } else {
        (v + 0x7fff_ffff_ffff_ffff + 1) as u64 + 0x8000_0000_0000_0000
    }
}

/// A truth value's column.
pub open spec fn flag_of(b: bool) -> i64 {
    if b {
        1
    } else {
        0
    }
}

fn flag(b: bool) -> (r: i64)
    ensures
        r == flag_of(b),
{
    if b {
        1
    } else {
        0
    }
}

/// An optional text's column.
pub open spec fn optional(t: Option<String>) -> SqlValue {
    match t {
        Some(s) => SqlValue::Text(s),
        None => SqlValue::Null,
    }
}

fn optional_value(t: Option<String>) -> (r: SqlValue)
    ensures
        r == optional(t),
{
    match t {
        Some(s) => SqlValue::Text(s),
        None => SqlValue::Null,
    }
}

impl Statement {
    /// A statement's text.
    pub open spec fn text(self) -> Seq<char> {
        match self {
            Statement::EnsureApp { path, first_seen, name } => ENSURE_APP@,
            Statement::AddUsage { path, bucket, sent, recv } => ADD_USAGE@,
            Statement::AddAdapterUsage { kind, bucket, sent, recv } => ADD_ADAPTER_USAGE@,
            Statement::AdapterTotals { from, to } => ADAPTER_TOTALS@,
            Statement::UsageOf { width, from, to, app } => if app is Some {
                USAGE_OF_APP@
            } else {
                USAGE_OF_ALL@
            },
            Statement::UsageTotals { from, to } => USAGE_TOTALS@,
            Statement::InsertAlert { at_ms, kind } => INSERT_ALERT@,
            Statement::ListAlerts { unacked_only } => if unacked_only {
                LIST_UNACKED@
            } else {
                LIST_ALERTS@
            },
            Statement::AckAlert { id } => ACK_ALERT@,
            Statement::AckAll => ACK_ALL@,
            Statement::PruneUsage { before } => PRUNE_USAGE@,
            Statement::PruneAdapterUsage { before } => PRUNE_ADAPTER_USAGE@,
            Statement::SetGrant { id, caps, egress, enabled, granted_at } => SET_GRANT@,
            Statement::SetEnabled { id, enabled } => SET_ENABLED@,
            Statement::GrantOf { id } => GRANT_OF@,
            Statement::Grants => GRANTS@,
            Statement::FindProposal { source, rule } => FIND_PROPOSAL@,
            Statement::CountPending { source } => COUNT_PENDING@,
            Statement::InsertProposal { source, rule, reason, at_ms } => INSERT_PROPOSAL@,
            Statement::ListProposals => LIST_PROPOSALS@,
            Statement::SettleProposal { id, state } => SETTLE_PROPOSAL@,
            Statement::ProposalOf { id } => PROPOSAL_OF@,
            Statement::FirstSeen { path } => FIRST_SEEN@,
        }
    }

    /// A statement's text.
    pub fn sql(&self) -> (s: &'static str)
        ensures
            s@ == self.text(),
    {
        match self {
            Statement::EnsureApp { .. } => ENSURE_APP,
            Statement::AddUsage { .. } => ADD_USAGE,
            Statement::AddAdapterUsage { .. } => ADD_ADAPTER_USAGE,
            Statement::AdapterTotals { .. } => ADAPTER_TOTALS,
            Statement::UsageOf { app: Some(_), .. } => USAGE_OF_APP,
            Statement::UsageOf { app: None, .. } => USAGE_OF_ALL,
            Statement::UsageTotals { .. } => USAGE_TOTALS,
            Statement::InsertAlert { .. } => INSERT_ALERT,
            Statement::ListAlerts { unacked_only: true } => LIST_UNACKED,
            Statement::ListAlerts { unacked_only: false } => LIST_ALERTS,
            Statement::AckAlert { .. } => ACK_ALERT,
            Statement::AckAll => ACK_ALL,
            Statement::PruneUsage { .. } => PRUNE_USAGE,
            Statement::PruneAdapterUsage { .. } => PRUNE_ADAPTER_USAGE,
            Statement::SetGrant { .. } => SET_GRANT,
            Statement::SetEnabled { .. } => SET_ENABLED,
            Statement::GrantOf { .. } => GRANT_OF,
            Statement::Grants => GRANTS,
            Statement::FindProposal { .. } => FIND_PROPOSAL,
            Statement::CountPending { .. } => COUNT_PENDING,
            Statement::InsertProposal { .. } => INSERT_PROPOSAL,
            Statement::ListProposals => LIST_PROPOSALS,
            Statement::SettleProposal { .. } => SETTLE_PROPOSAL,
            Statement::ProposalOf { .. } => PROPOSAL_OF,
            Statement::FirstSeen { .. } => FIRST_SEEN,
        }
    }

    /// The values that a statement is run with, in order. A kind of adapter and a
    /// proposal's state go by name.
    pub open spec fn has_params(self, p: Seq<SqlValue>) -> bool {
        match self {
            Statement::EnsureApp { path, first_seen, name } => p =~= seq![
                SqlValue::Text(path),
                SqlValue::Int(first_seen),
                optional(name),
            ],
            Statement::AddUsage { path, bucket, sent, recv } => p =~= seq![
                SqlValue::Text(path),
                SqlValue::Int(bucket),
                SqlValue::Int(sent),
                SqlValue::Int(recv),
            ],
            Statement::AddAdapterUsage { kind, bucket, sent, recv } => {
                &&& p.len() == 4
                &&& p[0] matches SqlValue::Text(k) && k@ == kind.name()
                &&& p.skip(1) =~= seq![SqlValue::Int(bucket), SqlValue::Int(sent), SqlValue::Int(recv)]
            },
            Statement::AdapterTotals { from, to } => p =~= seq![SqlValue::Int(from), SqlValue::Int(to)],
            Statement::UsageOf { width, from, to, app: Some(path) } => p =~= seq![
                SqlValue::Int(width),
                SqlValue::Int(from),
                SqlValue::Int(to),
                SqlValue::Text(path),
                SqlValue::Int(MAX_ROWS),
            ],
            Statement::UsageOf { width, from, to, app: None } => p =~= seq![
                SqlValue::Int(width),
                SqlValue::Int(from),
                SqlValue::Int(to),
                SqlValue::Int(MAX_ROWS),
            ],
            Statement::UsageTotals { from, to } => p =~= seq![SqlValue::Int(from), SqlValue::Int(to)],
            Statement::InsertAlert { at_ms, kind } => p =~= seq![
                SqlValue::Int(at_ms),
                SqlValue::Text(kind),
            ],
            Statement::ListAlerts { unacked_only } => p.len() == 0,
            Statement::AckAlert { id } => p =~= seq![SqlValue::Int(id)],
            Statement::AckAll => p.len() == 0,
            Statement::PruneUsage { before } => p =~= seq![SqlValue::Int(before)],
            Statement::PruneAdapterUsage { before } => p =~= seq![SqlValue::Int(before)],
            Statement::SetGrant { id, caps, egress, enabled, granted_at } => p =~= seq![
                SqlValue::Text(id),
                SqlValue::Text(caps),
                SqlValue::Text(egress),
                SqlValue::Int(flag_of(enabled)),
                SqlValue::Int(granted_at),
            ],
            Statement::SetEnabled { id, enabled } => p =~= seq![
                SqlValue::Text(id),
                SqlValue::Int(flag_of(enabled)),
            ],
            Statement::GrantOf { id } => p =~= seq![SqlValue::Text(id)],
            Statement::Grants => p.len() == 0,
            Statement::FindProposal { source, rule } => p =~= seq![
                SqlValue::Text(source),
                SqlValue::Text(rule),
            ],
            Statement::CountPending { source } => p =~= seq![SqlValue::Text(source)],
            Statement::InsertProposal { source, rule, reason, at_ms } => p =~= seq![
                SqlValue::Text(source),
                SqlValue::Text(rule),
                SqlValue::Text(reason),
                SqlValue::Int(at_ms),
            ],
            Statement::ListProposals => p.len() == 0,
            Statement::SettleProposal { id, state } => {
                &&& p.len() == 2
                &&& p[0] == SqlValue::Int(id)
                &&& p[1] matches SqlValue::Text(s) && s@ == state.name()
            },
            Statement::ProposalOf { id } => p =~= seq![SqlValue::Int(id)],
            Statement::FirstSeen { path } => p =~= seq![SqlValue::Text(path)],
        }
    }

    /// The values that a statement is run with, in order.
    pub fn params(self) -> (p: Vec<SqlValue>)
        ensures
            self.has_params(p@),
    {
        let mut p: Vec<SqlValue> = Vec::new();
        match self {
            Statement::EnsureApp { path, first_seen, name } => {
                p.push(SqlValue::Text(path));
                p.push(SqlValue::Int(first_seen));
                p.push(optional_value(name));
            },
            Statement::AddUsage { path, bucket, sent, recv } => {
                p.push(SqlValue::Text(path));
                p.push(SqlValue::Int(bucket));
                p.push(SqlValue::Int(sent));
                p.push(SqlValue::Int(recv));
            },
            Statement::AddAdapterUsage { kind, bucket, sent, recv } => {
                p.push(SqlValue::Text(owned(kind.as_str())));
                p.push(SqlValue::Int(bucket));
                p.push(SqlValue::Int(sent));
                p.push(SqlValue::Int(recv));
                assert(p@.skip(1) =~= seq![SqlValue::Int(bucket), SqlValue::Int(sent), SqlValue::Int(recv)]);
            },
            Statement::AdapterTotals { from, to } => {
                p.push(SqlValue::Int(from));
                p.push(SqlValue::Int(to));
            },
            Statement::UsageOf { width, from, to, app } => {
                p.push(SqlValue::Int(width));
                p.push(SqlValue::Int(from));
                p.push(SqlValue::Int(to));
                if let Some(path) = app {
                    p.push(SqlValue::Text(path));
                }
                p.push(SqlValue::Int(MAX_ROWS));
            },
            Statement::UsageTotals { from, to } => {
                p.push(SqlValue::Int(from));
                p.push(SqlValue::Int(to));
            },
            Statement::InsertAlert { at_ms, kind } => {
                p.push(SqlValue::Int(at_ms));
                p.push(SqlValue::Text(kind));
            },
            Statement::ListAlerts { .. } => {},
            Statement::AckAlert { id } => {
                p.push(SqlValue::Int(id));
            },
            Statement::AckAll => {},
            Statement::PruneUsage { before } => {
                p.push(SqlValue::Int(before));
            },
            Statement::PruneAdapterUsage { before } => {
                p.push(SqlValue::Int(before));
            },
            Statement::SetGrant { id, caps, egress, enabled, granted_at } => {
                p.push(SqlValue::Text(id));
                p.push(SqlValue::Text(caps));
                p.push(SqlValue::Text(egress));
                p.push(SqlValue::Int(flag(enabled)));
                p.push(SqlValue::Int(granted_at));
            },
            Statement::SetEnabled { id, enabled } => {
                p.push(SqlValue::Text(id));
                p.push(SqlValue::Int(flag(enabled)));
            },
            Statement::GrantOf { id } => {
                p.push(SqlValue::Text(id));
            },
            Statement::Grants => {},
            Statement::FindProposal { source, rule } => {
                p.push(SqlValue::Text(source));
                p.push(SqlValue::Text(rule));
            },
            Statement::CountPending { source } => {
                p.push(SqlValue::Text(source));
            },
            Statement::InsertProposal { source, rule, reason, at_ms } => {
                p.push(SqlValue::Text(source));
                p.push(SqlValue::Text(rule));
                p.push(SqlValue::Text(reason));
                p.push(SqlValue::Int(at_ms));
            },
            Statement::ListProposals => {},
            Statement::SettleProposal { id, state } => {
                p.push(SqlValue::Int(id));
                p.push(SqlValue::Text(owned(state.as_str())));
            },
            Statement::ProposalOf { id } => {
                p.push(SqlValue::Int(id));
            },
            Statement::FirstSeen { path } => {
                p.push(SqlValue::Text(path));
            },
        }
        p
    }
}

/// Remembers an application, where it is not remembered yet.
pub fn ensure_app(path: &str, name: Option<&str>, at_ms: u64) -> (s: Statement)
    ensures
        s matches Statement::EnsureApp { path: p, first_seen, name: n } && p@ == path@
            && first_seen == stored(at_ms) && (match name {
            Some(t) => n is Some && n->Some_0@ == t@,
            None => n is None,
        }),
{
    Statement::EnsureApp {
        path: owned(path),
        first_seen: store_u64(at_ms),
        name: match name {
            Some(n) => Some(owned(n)),
            None => None,
        },
    }
}

/// Adds an application's traffic to its minute; nothing where there was none.
pub fn add_usage(path: &str, at_ms: u64, sent: u64, recv: u64) -> (s: Option<Statement>)
    ensures
        s is None == (sent == 0 && recv == 0),
        s matches Some(x) ==> x matches Statement::AddUsage { path: p, bucket, sent: a, recv: b }
            && p@ == path@ && bucket == stored((at_ms - at_ms % 60_000) as u64) && a == stored(sent)
            && b == stored(recv),
{
    if sent == 0 && recv == 0 {
        return None;
    }
    let bucket: u64 = Granularity::Minute.bucket_start(at_ms);
    Some(
        Statement::AddUsage {
            path: owned(path),
            bucket: store_u64(bucket),
            sent: store_u64(sent),
            recv: store_u64(recv),
        },
    )
}

/// Adds the traffic of a kind of adapter to its minute; nothing where there was
/// none.
pub fn add_adapter_usage(kind: AdapterKind, at_ms: u64, sent: u64, recv: u64) -> (s: Option<
    Statement,
>)
    ensures
        s is None == (sent == 0 && recv == 0),
        s matches Some(x) ==> x == (Statement::AddAdapterUsage {
            kind,
            bucket: stored((at_ms - at_ms % 60_000) as u64),
            sent: stored(sent),
            recv: stored(recv),
        }),
{
    if sent == 0 && recv == 0 {
        return None;
    }
    let bucket: u64 = Granularity::Minute.bucket_start(at_ms);
    Some(
        Statement::AddAdapterUsage {
            kind,
            bucket: store_u64(bucket),
            sent: store_u64(sent),
            recv: store_u64(recv),
        },
    )
}

/// The traffic of each kind of adapter in a window.
pub fn adapter_usage_totals(from_ms: u64, to_ms: u64) -> (s: Statement)
    ensures
        s == (Statement::AdapterTotals { from: stored(from_ms), to: stored(to_ms) }),
{
    Statement::AdapterTotals { from: store_u64(from_ms), to: store_u64(to_ms) }
}

/// The statement that finds the traffic of applications in a window, in buckets.
pub open spec fn usage_statement(q: UsageQuery) -> Statement {
    Statement::UsageOf {
        width: q.granularity.width() as i64,
        from: stored(q.from_ms),
        to: stored(q.to_ms),
        app: match q.app {
            Some(a) => Some(a.0),
            None => None,
        },
    }
}

/// The traffic of applications in a window, in buckets.
pub fn query_usage(q: &UsageQuery) -> (s: Statement)
    ensures
        s == usage_statement(*q),
{
    let width: i64 = store_u64(q.granularity.width_ms());
    Statement::UsageOf {
        width,
        from: store_u64(q.from_ms),
        to: store_u64(q.to_ms),
        app: match &q.app {
            Some(a) => Some(a.0.clone()),
            None => None,
        },
    }
}

/// The traffic of each application in a window.
pub fn usage_totals(from_ms: u64, to_ms: u64) -> (s: Statement)
    ensures
        s == (Statement::UsageTotals { from: stored(from_ms), to: stored(to_ms) }),
{
    Statement::UsageTotals { from: store_u64(from_ms), to: store_u64(to_ms) }
}

/// Writes an alert down.
pub fn insert_alert(kind: String, at_ms: u64) -> (s: Statement)
    ensures
        s == (Statement::InsertAlert { at_ms: stored(at_ms), kind }),
{
    Statement::InsertAlert { at_ms: store_u64(at_ms), kind }
}

/// Forgets the traffic before a time.
pub fn prune_usage(older_than_ms: u64) -> (s: (Statement, Statement))
    ensures
        s.0 == (Statement::PruneUsage { before: stored(older_than_ms) }),
        s.1 == (Statement::PruneAdapterUsage { before: stored(older_than_ms) }),
{
    let before: i64 = store_u64(older_than_ms);
    (Statement::PruneUsage { before }, Statement::PruneAdapterUsage { before })
}

/// Switches what the user agreed to on or off.
pub fn set_plugin_enabled(id: &str, enabled: bool) -> (s: Statement)
    ensures
        s matches Statement::SetEnabled { id: i, enabled: e } && i@ == id@ && e == enabled,
{
    Statement::SetEnabled { id: owned(id), enabled }
}

/// Looks up when an application was first seen.
pub fn first_seen(path: &str) -> (s: Statement)
    ensures
        s matches Statement::FirstSeen { path: p } && p@ == path@,
{
    Statement::FirstSeen { path: owned(path) }
}

/// A number that fits is stored as it is, and only one that does not is stored as a
/// negative one.
pub proof fn law_small_numbers_are_stored_as_they_are(v: u64)
    ensures
        v <= i64::MAX ==> stored(v) == v,
        v > i64::MAX ==> stored(v) < 0,
        flag_of(true) == 1,
        flag_of(false) == 0,
{
}

/// The parameters of a statement stand in the order in which its text names them.
pub proof fn law_parameters_stand_in_order(
    path: String,
    name: Option<String>,
    kind: AdapterKind,
    a: i64,
    b: i64,
    c: i64,
    p: Seq<SqlValue>,
)
    ensures
        (Statement::EnsureApp { path, first_seen: a, name }).has_params(p) ==> p.len() == 3 && p[0]
            == SqlValue::Text(path) && p[1] == SqlValue::Int(a) && (name is None ==> p[2]
            == SqlValue::Null) && (name is Some ==> p[2] == SqlValue::Text(name->0)),
        (Statement::AddUsage { path, bucket: a, sent: b, recv: c }).has_params(p) ==> p.len() == 4
            && p[0] == SqlValue::Text(path) && p[1] == SqlValue::Int(a) && p[2] == SqlValue::Int(b)
            && p[3] == SqlValue::Int(c),
        (Statement::AddAdapterUsage { kind, bucket: a, sent: b, recv: c }).has_params(p)
            ==> p.len() == 4 && p[0] is Text && p[0]->Text_0@ == kind.name() && p[1]
            == SqlValue::Int(a) && p[2] == SqlValue::Int(b) && p[3] == SqlValue::Int(c),
        (Statement::AdapterTotals { from: a, to: b }).has_params(p) ==> p.len() == 2 && p[0]
            == SqlValue::Int(a) && p[1] == SqlValue::Int(b),
        (Statement::UsageTotals { from: a, to: b }).has_params(p) ==> p.len() == 2 && p[0]
            == SqlValue::Int(a) && p[1] == SqlValue::Int(b),
        (Statement::UsageOf { width: a, from: b, to: c, app: Some(path) }).has_params(p) ==> p.len()
            == 5 && p[0] == SqlValue::Int(a) && p[1] == SqlValue::Int(b) && p[2]
            == SqlValue::Int(c) && p[3] == SqlValue::Text(path) && p[4] == SqlValue::Int(200_000),
        (Statement::UsageOf { width: a, from: b, to: c, app: None }).has_params(p) ==> p.len() == 4
            && p[0] == SqlValue::Int(a) && p[1] == SqlValue::Int(b) && p[2] == SqlValue::Int(c)
            && p[3] == SqlValue::Int(200_000),
        (Statement::InsertAlert { at_ms: a, kind: path }).has_params(p) ==> p.len() == 2 && p[0]
            == SqlValue::Int(a) && p[1] == SqlValue::Text(path),
        (Statement::PruneUsage { before: a }).has_params(p) ==> p.len() == 1 && p[0]
            == SqlValue::Int(a),
{
    if (Statement::AddAdapterUsage { kind, bucket: a, sent: b, recv: c }).has_params(p) {
        let t = p.skip(1);
        assert(t[0] == p[1] && t[1] == p[2] && t[2] == p[3]);
    }
}

/// A question about usage asks for the time and the program that it names, in
/// buckets as wide as it names.
pub proof fn law_usage_is_asked_as_it_is_named(q: UsageQuery)
    ensures
        usage_statement(q) is UsageOf,
        usage_statement(q)->width == q.granularity.width(),
        loaded(usage_statement(q)->UsageOf_from) == q.from_ms,
        loaded(usage_statement(q)->UsageOf_to) == q.to_ms,
        usage_statement(q)->app is Some == q.app is Some,
        q.app is Some ==> usage_statement(q)->app->0@ == q.app->0@,
{
    law_numbers_read_back(q.from_ms);
    law_numbers_read_back(q.to_ms);
}

} // verus!
