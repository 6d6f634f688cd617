//! What is made of the database's answers. An answer that failed is `None`.

use crate::alert::{Alert, AlertKind};
use crate::model::{law_adapter_names_identify, AdapterKind, AppId, ByteCounts};
use crate::path::{set_extension, with_extension};
use crate::path_windows;
use crate::rule::{ProposalState, Rule, RuleProposal};
use crate::store::statement::{load_u64, loaded};
use crate::text::same;
use crate::usage::UsageBucket;
use vstd::prelude::*;

verus! {

/// Whether a check of the whole database found it sound.
pub fn intact(check: Option<&str>) -> (r: bool)
    ensures
        r == (check is Some && check->Some_0@ == "ok"@),
{
    match check {
        Some(s) => same(s, "ok"),
        None => false,
    }
}

/// Where a damaged database goes.
#[derive(Debug, PartialEq, Eq)]
pub struct Aside {
    /// The name that it is kept under.
    pub corrupt: String,
    /// The files beside it that a new database must not find.
    pub wal: String,
    pub shm: String,
}

/// Where a damaged database goes.
pub fn set_aside(path: &str) -> (r: Aside)
    ensures
        r.corrupt@ == with_extension(path@, "db.corrupt"@),
        r.wal@ == with_extension(path@, "db-wal"@),
        r.shm@ == with_extension(path@, "db-shm"@),
{
    Aside {
        corrupt: set_extension(path, "db.corrupt"),
        wal: set_extension(path, "db-wal"),
        shm: set_extension(path, "db-shm"),
    }
}

/// Where a damaged database goes on Windows.
pub fn set_aside_windows(path: &str) -> (r: Aside)
    ensures
        r.corrupt@ == path_windows::with_extension(path@, "db.corrupt"@),
        r.wal@ == path_windows::with_extension(path@, "db-wal"@),
        r.shm@ == path_windows::with_extension(path@, "db-shm"@),
{
    Aside {
        corrupt: path_windows::set_extension(path, "db.corrupt"),
        wal: path_windows::set_extension(path, "db-wal"),
        shm: path_windows::set_extension(path, "db-shm"),
    }
}

/// Whether a statement changed anything.
pub fn changed(rows: Option<usize>) -> (r: bool)
    ensures
        r == (rows is Some && rows->Some_0 > 0),
{
    match rows {
        Some(n) => n > 0,
        None => false,
    }
}

/// When an application was first seen.
pub fn first_seen_at(v: Option<i64>) -> (r: Option<u64>)
    ensures
        r == match v {
            Some(x) => Some(loaded(x)),
            None => None,
        },
{
    match v {
        Some(x) => Some(load_u64(x)),
        None => None,
    }
}

/// The bytes of two columns.
pub open spec fn bytes_of(sent: i64, recv: i64) -> ByteCounts {
    ByteCounts { sent: loaded(sent), recv: loaded(recv) }
}

fn bytes(sent: i64, recv: i64) -> (r: ByteCounts)
    ensures
        r == bytes_of(sent, recv),
{
    ByteCounts { sent: load_u64(sent), recv: load_u64(recv) }
}

/// The kind of adapter of a name.
pub open spec fn kind_of(name: Seq<char>) -> Option<AdapterKind> {
    if exists|k: AdapterKind| #[trigger] k.name() == name {
        Some(choose|k: AdapterKind| #[trigger] k.name() == name)
    } else {
        None
    }
}

/// The traffic of each kind of adapter, from rows; a row of an unknown kind is
/// left out.
pub open spec fn adapter_totals_of(rows: Seq<(String, i64, i64)>) -> Seq<(AdapterKind, ByteCounts)>
    decreases rows.len(),
{
    if rows.len() == 0 {
        Seq::empty()
    } else {
        let before = adapter_totals_of(rows.drop_last());
        let (name, sent, recv) = rows.last();
        match kind_of(name@) {
            Some(k) => before.push((k, bytes_of(sent, recv))),
            None => before,
        }
    }
}

/// The traffic of each kind of adapter, from rows.
pub fn adapter_totals(rows: &Vec<(String, i64, i64)>) -> (r: Vec<(AdapterKind, ByteCounts)>)
    ensures
        r@ == adapter_totals_of(rows@),
{
    let mut out: Vec<(AdapterKind, ByteCounts)> = Vec::new();
    let mut i: usize = 0;
    while i < rows.len()
        invariant
            i <= rows@.len(),
            out@ == adapter_totals_of(rows@.take(i as int)),
        decreases rows@.len() - i,
    {
        assert(rows@.take(i + 1).drop_last() =~= rows@.take(i as int));
        let k = AdapterKind::parse(rows[i].0.as_str());
        proof {
            if let Some(x) = k {
                law_adapter_names_identify(x, kind_of(rows@[i as int].0@)->Some_0);
            }
        }
        if let Some(kind) = k {
            out.push((kind, bytes(rows[i].1, rows[i].2)));
        }
        i += 1;
    }
    assert(rows@.take(rows@.len() as int) =~= rows@);
    out
}

/// The traffic of each application, from rows.
pub fn app_totals(rows: &Vec<(String, i64, i64)>) -> (r: Vec<(AppId, ByteCounts)>)
    ensures
        r@ == rows@.map_values(
            |x: (String, i64, i64)| (AppId(x.0), bytes_of(x.1, x.2)),
        ),
{
    let mut out: Vec<(AppId, ByteCounts)> = Vec::new();
    let ghost all = rows@.map_values(|x: (String, i64, i64)| (AppId(x.0), bytes_of(x.1, x.2)));
    let mut i: usize = 0;
    while i < rows.len()
        invariant
            i <= rows@.len(),
            all == rows@.map_values(|x: (String, i64, i64)| (AppId(x.0), bytes_of(x.1, x.2))),
            out@ == all.take(i as int),
        decreases rows@.len() - i,
    {
        out.push((AppId(rows[i].0.clone()), bytes(rows[i].1, rows[i].2)));
        i += 1;
        assert(out@ =~= all.take(i as int));
    }
    assert(all.take(rows@.len() as int) =~= all);
    out
}

/// A bucket of an application's traffic, from a row.
pub open spec fn bucket_of(x: (String, i64, i64, i64)) -> UsageBucket {
    UsageBucket {
        app: AppId(x.0),
        bucket_start_ms: loaded(x.1),
        bytes: bytes_of(x.2, x.3),
    }
}

/// The buckets of applications' traffic, from rows.
pub open spec fn buckets_of(rows: Seq<(String, i64, i64, i64)>) -> Seq<UsageBucket> {
    rows.map_values(|x: (String, i64, i64, i64)| bucket_of(x))
}

/// The buckets of applications' traffic, from rows; none where the query failed.
pub fn buckets(rows: &Option<Vec<(String, i64, i64, i64)>>) -> (r: Vec<UsageBucket>)
    ensures
        r@ == match rows {
            Some(v) => buckets_of(v@),
            None => Seq::empty(),
        },
{
    let mut out: Vec<UsageBucket> = Vec::new();
    if let Some(v) = rows {
        let ghost all = buckets_of(v@);
        let mut i: usize = 0;
        while i < v.len()
            invariant
                i <= v@.len(),
                all == buckets_of(v@),
                out@ == all.take(i as int),
            decreases v@.len() - i,
        {
            out.push(
                UsageBucket {
                    app: AppId(v[i].0.clone()),
                    bucket_start_ms: load_u64(v[i].1),
                    bytes: bytes(v[i].2, v[i].3),
                },
            );
            i += 1;
            assert(out@ =~= all.take(i as int));
        }
        assert(all.take(v@.len() as int) =~= all);
    }
    out
}

/// An alert that was written down, with the number of its row; the number is zero
/// where the write failed.
pub fn inserted_alert(kind: AlertKind, at_ms: u64, rows: Option<usize>, row: i64) -> (r: Alert)
    ensures
        r == (Alert {
            id: if rows is Some && rows->Some_0 > 0 {
                row
            } else {
                0
            },
            at_ms,
            kind,
            acknowledged: false,
        }),
{
    Alert {
        id: if changed(rows) {
            row
        } else {
            0
        },
        at_ms,
        kind,
        acknowledged: false,
    }
}

/// An alert's row; its kind is missing where the column could not be read.
#[derive(Debug)]
pub struct AlertRow {
    pub id: i64,
    pub at_ms: i64,
    pub kind: Option<AlertKind>,
    pub acknowledged: i64,
}

/// The alert of a row.
pub open spec fn alert_of(row: AlertRow) -> Option<Alert> {
    match row.kind {
        Some(kind) => Some(
            Alert { id: row.id, at_ms: loaded(row.at_ms), kind, acknowledged: row.acknowledged != 0 },
        ),
        None => None,
    }
}

/// The alerts of rows that could be read.
pub open spec fn alerts_of(rows: Seq<AlertRow>) -> Seq<Alert>
    decreases rows.len(),
{
    if rows.len() == 0 {
        Seq::empty()
    } else {
        match alert_of(rows.last()) {
            Some(a) => alerts_of(rows.drop_last()).push(a),
            None => alerts_of(rows.drop_last()),
        }
    }
}

/// The alerts of rows that could be read.
pub fn list_alerts(rows: &Vec<AlertRow>) -> (r: Vec<Alert>)
    ensures
        r@ == alerts_of(rows@),
{
    let mut out: Vec<Alert> = Vec::new();
    let mut i: usize = 0;
    while i < rows.len()
        invariant
            i <= rows@.len(),
            out@ == alerts_of(rows@.take(i as int)),
        decreases rows@.len() - i,
    {
        assert(rows@.take(i + 1).drop_last() =~= rows@.take(i as int));
        let row = &rows[i];
        if let Some(kind) = &row.kind {
            out.push(
                Alert {
                    id: row.id,
                    at_ms: load_u64(row.at_ms),
                    kind: kind.clone(),
                    acknowledged: row.acknowledged != 0,
                },
            );
        }
        i += 1;
    }
    assert(rows@.take(rows@.len() as int) =~= rows@);
    out
}

/// A proposal's row; its rule is missing where the column could not be read.
#[derive(Debug)]
pub struct ProposalRow {
    pub id: i64,
    pub source: String,
    pub rule: Option<Rule>,
    pub reason: String,
    pub at_ms: i64,
    pub state: String,
}

/// Whether `p` is the proposal of a row.
pub open spec fn proposal_from(row: ProposalRow, p: RuleProposal) -> bool {
    &&& row.rule == Some(p.rule)
    &&& p.id == row.id
    &&& p.source == row.source
    &&& p.reason == row.reason
    &&& p.at_ms == loaded(row.at_ms)
    &&& p.state.name() == row.state@
}

/// Whether a row can be read.
pub open spec fn readable(row: ProposalRow) -> bool {
    row.rule is Some && exists|s: ProposalState| #[trigger] s.name() == row.state@
}

/// Whether `out` are the proposals of the rows that can be read, in order.
pub open spec fn proposals_from(rows: Seq<ProposalRow>, out: Seq<RuleProposal>) -> bool
    decreases rows.len(),
{
    if rows.len() == 0 {
        out.len() == 0
    } else if readable(rows.last()) {
        &&& out.len() > 0
        &&& proposal_from(rows.last(), out.last())
        &&& proposals_from(rows.drop_last(), out.drop_last())
    } else {
        proposals_from(rows.drop_last(), out)
    }
}

/// The proposals of the rows that can be read.
pub fn list_proposals(rows: &Vec<ProposalRow>) -> (r: Vec<RuleProposal>)
    ensures
        proposals_from(rows@, r@),
{
    let mut out: Vec<RuleProposal> = Vec::new();
    let mut i: usize = 0;
    while i < rows.len()
        invariant
            i <= rows@.len(),
            proposals_from(rows@.take(i as int), out@),
        decreases rows@.len() - i,
    {
        assert(rows@.take(i + 1).drop_last() =~= rows@.take(i as int));
        assert(rows@.take(i + 1).last() == rows@[i as int]);
        let row = &rows[i];
        let ghost before = out@;
        if let Some(rule) = &row.rule {
            match ProposalState::parse(row.state.as_str()) {
                Some(state) => {
                    assert((Some(state) == Some(state)) == (row.state@ == state.name()));
                    out.push(
                        RuleProposal {
                            id: row.id,
                            source: row.source.clone(),
                            rule: rule.clone(),
                            reason: row.reason.clone(),
                            at_ms: load_u64(row.at_ms),
                            state,
                        },
                    );
                    assert(out@.drop_last() =~= before);
                },
                None => {
                    assert(!readable(*row));
                },
            }
        }
        i += 1;
    }
    assert(rows@.take(rows@.len() as int) =~= rows@);
    out
}

/// The totals of every adapter that is known by name are listed, in the order of the
/// rows, sent before received; rows of other names are passed over.
pub proof fn law_adapter_rows_are_listed(
    rows: Seq<(String, i64, i64)>,
    row: (String, i64, i64),
    kind: AdapterKind,
)
    ensures
        row.0@ == kind.name() ==> adapter_totals_of(rows.push(row)) == adapter_totals_of(rows).push(
            (kind, ByteCounts { sent: loaded(row.1), recv: loaded(row.2) }),
        ),
        (forall|k: AdapterKind| #[trigger] k.name() != row.0@) ==> adapter_totals_of(rows.push(row))
            == adapter_totals_of(rows),
        adapter_totals_of(Seq::empty()).len() == 0,
{
    assert(rows.push(row).drop_last() =~= rows);
    if row.0@ == kind.name() {
        let found = choose|k: AdapterKind| #[trigger] k.name() == row.0@;
        law_adapter_names_identify(found, kind);
    }
}

/// A bucket is read from its row: the program, the start, and the bytes sent and
/// received.
pub proof fn law_buckets_are_read_from_their_rows(rows: Seq<(String, i64, i64, i64)>, i: int)
    requires
        0 <= i < rows.len(),
    ensures
        buckets_of(rows).len() == rows.len(),
        buckets_of(rows)[i].app@ == rows[i].0@,
        buckets_of(rows)[i].bucket_start_ms == loaded(rows[i].1),
        buckets_of(rows)[i].bytes.sent == loaded(rows[i].2),
        buckets_of(rows)[i].bytes.recv == loaded(rows[i].3),
{
}

/// Every alert whose kind can be read is listed, in the order of the rows, and is
/// acknowledged where its row says so.
pub proof fn law_readable_alerts_are_listed(rows: Seq<AlertRow>, row: AlertRow)
    ensures
        row.kind is None ==> alerts_of(rows.push(row)) == alerts_of(rows),
        row.kind is Some ==> alerts_of(rows.push(row)) == alerts_of(rows).push(
            Alert {
                id: row.id,
                at_ms: loaded(row.at_ms),
                kind: row.kind->0,
                acknowledged: row.acknowledged != 0,
            },
        ),
        alerts_of(Seq::empty()).len() == 0,
{
    assert(rows.push(row).drop_last() =~= rows);
}

/// Every proposal whose rule and state can be read is listed, in the order of the
/// rows, as its row says.
pub proof fn law_readable_proposals_are_listed(rows: Seq<ProposalRow>, out: Seq<RuleProposal>)
    requires
        proposals_from(rows, out),
    ensures
        ({
            let own = rows.filter(
                |r: ProposalRow|
                    r.rule is Some && (r.state@ == "pending"@ || r.state@ == "accepted"@
                        || r.state@ == "rejected"@),
            );
            &&& out.len() == own.len()
            &&& forall|i: int|
                0 <= i < own.len() ==> {
                    &&& (#[trigger] out[i]).id == own[i].id
                    &&& out[i].source == own[i].source
                    &&& out[i].rule == own[i].rule->0
                    &&& out[i].reason == own[i].reason
                    &&& out[i].at_ms == loaded(own[i].at_ms)
                    &&& out[i].state.name() == own[i].state@
                }
        }),
    decreases rows.len(),
{
    reveal(Seq::filter);
    if rows.len() > 0 {
        let keep = |r: ProposalRow|
            r.rule is Some && (r.state@ == "pending"@ || r.state@ == "accepted"@ || r.state@
                == "rejected"@);
        let row = rows.last();
        let front = rows.drop_last();
        assert(ProposalState::Pending.name() == "pending"@);
        assert(ProposalState::Accepted.name() == "accepted"@);
        assert(ProposalState::Rejected.name() == "rejected"@);
        assert(keep(row) == readable(row));
        if readable(row) {
            law_readable_proposals_are_listed(front, out.drop_last());
            let own = rows.filter(keep);
            assert(own == front.filter(keep).push(row));
            assert forall|i: int| 0 <= i < own.len() implies {
                &&& (#[trigger] out[i]).id == own[i].id
                &&& out[i].source == own[i].source
                &&& out[i].rule == own[i].rule->0
                &&& out[i].reason == own[i].reason
                &&& out[i].at_ms == loaded(own[i].at_ms)
                &&& out[i].state.name() == own[i].state@
            } by {
                if i < front.filter(keep).len() {
                    assert(out.drop_last()[i] == out[i]);
                }
            }
        } else {
            law_readable_proposals_are_listed(front, out);
        }
    }
}

} // verus!
