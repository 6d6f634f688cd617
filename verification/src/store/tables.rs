//! What the statements do to the tables, and what holds of them throughout.

use crate::assoc::{distinct, has_key, law_put, lemma_position, lookup, put};
use crate::model::AppId;
use crate::rule::{law_state_names_identify, ProposalState};
use crate::store::proposals::{
    decided, full, Answer, Decision, Draft, Stage, MAX_PENDING_PER_SOURCE,
};
use crate::store::rows::buckets_of;
use crate::store::statement::{flag_of, stored, usage_statement, Statement, MAX_ROWS};
use crate::text::text_view;
use crate::usage::{Granularity, UsageBucket, UsageQuery};
use vstd::prelude::*;

verus! {

/// The row of an alert.
pub ghost struct AlertEntry {
    pub id: int,
    pub at_ms: i64,
    pub kind: Seq<char>,
    pub acknowledged: bool,
}

/// The row of a plugin's grant, but for the plugin.
pub ghost struct GrantEntry {
    pub caps: Seq<char>,
    pub egress: Seq<char>,
    pub enabled: i64,
    pub granted_at: i64,
}

/// The row of a proposal.
pub ghost struct ProposalEntry {
    pub id: int,
    pub source: Seq<char>,
    pub rule: Seq<char>,
    pub reason: Seq<char>,
    pub at_ms: i64,
    pub state: Seq<char>,
}

/// The tables. Sums of traffic are taken as they are, without a column's limit.
pub ghost struct Tables {
    /// When each application was first seen, and its name.
    pub apps: Seq<(Seq<char>, (i64, Option<Seq<char>>))>,
    /// The traffic of each application in each minute.
    pub usage: Seq<((Seq<char>, i64), (int, int))>,
    /// The traffic of each kind of adapter in each minute.
    pub adapter_usage: Seq<((Seq<char>, i64), (int, int))>,
    pub alerts: Seq<AlertEntry>,
    pub grants: Seq<(Seq<char>, GrantEntry)>,
    pub proposals: Seq<ProposalEntry>,
    /// The numbers of the next alert and the next proposal.
    pub next_alert: int,
    pub next_proposal: int,
}

/// Traffic with more of it in one bucket.
pub open spec fn added(
    usage: Seq<((Seq<char>, i64), (int, int))>,
    key: (Seq<char>, i64),
    sent: int,
    recv: int,
) -> Seq<((Seq<char>, i64), (int, int))> {
    put(
        usage,
        key,
        match lookup(usage, key) {
            Some((s, r)) => (s + sent, r + recv),
            None => (sent, recv),
        },
    )
}

/// Whether a proposal waits for the user.
pub open spec fn waits(e: ProposalEntry) -> bool {
    e.state == ProposalState::Pending.name()
}

/// A proposal after it was settled.
pub open spec fn settled(e: ProposalEntry, id: int, state: ProposalState) -> ProposalEntry {
    if e.id == id && waits(e) {
        ProposalEntry { state: state.name(), ..e }
    } else {
        e
    }
}

/// The tables after a statement.
pub open spec fn effect(t: Tables, s: Statement) -> Tables {
    match s {
        Statement::EnsureApp { path, first_seen, name } => if has_key(t.apps, path@) {
            t
        } else {
            Tables { apps: t.apps.push((path@, (first_seen, text_view(name)))), ..t }
        },
        Statement::AddUsage { path, bucket, sent, recv } => Tables {
            usage: added(t.usage, (path@, bucket), sent as int, recv as int),
            ..t
        },
        Statement::AddAdapterUsage { kind, bucket, sent, recv } => Tables {
            adapter_usage: added(
                t.adapter_usage,
                (kind.name(), bucket),
                sent as int,
                recv as int,
            ),
            ..t
        },
        Statement::InsertAlert { at_ms, kind } => Tables {
            alerts: t.alerts.push(
                AlertEntry { id: t.next_alert, at_ms, kind: kind@, acknowledged: false },
            ),
            next_alert: t.next_alert + 1,
            ..t
        },
        Statement::AckAlert { id } => Tables {
            alerts: t.alerts.map_values(
                |e: AlertEntry|
                    if e.id == id {
                        AlertEntry { acknowledged: true, ..e }
                    } else {
                        e
                    },
            ),
            ..t
        },
        Statement::AckAll => Tables {
            alerts: t.alerts.map_values(
                |e: AlertEntry| AlertEntry { acknowledged: true, ..e },
            ),
            ..t
        },
        Statement::PruneUsage { before } => Tables {
            usage: t.usage.filter(|e: ((Seq<char>, i64), (int, int))| e.0.1 >= before),
            ..t
        },
        Statement::PruneAdapterUsage { before } => Tables {
            adapter_usage: t.adapter_usage.filter(
                |e: ((Seq<char>, i64), (int, int))| e.0.1 >= before,
            ),
            ..t
        },
        Statement::SetGrant { id, caps, egress, enabled, granted_at } => Tables {
            grants: put(
                t.grants,
                id@,
                GrantEntry { caps: caps@, egress: egress@, enabled: flag_of(enabled), granted_at },
            ),
            ..t
        },
        Statement::SetEnabled { id, enabled } => match lookup(t.grants, id@) {
            Some(g) => Tables {
                grants: put(t.grants, id@, GrantEntry { enabled: flag_of(enabled), ..g }),
                ..t
            },
            None => t,
        },
        Statement::InsertProposal { source, rule, reason, at_ms } => Tables {
            proposals: t.proposals.push(
                ProposalEntry {
                    id: t.next_proposal,
                    source: source@,
                    rule: rule@,
                    reason: reason@,
                    at_ms,
                    state: ProposalState::Pending.name(),
                },
            ),
            next_proposal: t.next_proposal + 1,
            ..t
        },
        Statement::SettleProposal { id, state } => Tables {
            proposals: t.proposals.map_values(|e: ProposalEntry| settled(e, id as int, state)),
            ..t
        },
        _ => t,
    }
}

/// An application counts as new the first time that it is seen, and the time of
/// that is kept.
pub proof fn law_an_app_is_first_seen_once(
    t: Tables,
    path: String,
    at: i64,
    name: Option<String>,
    later: i64,
    again: Option<String>,
)
    requires
        distinct(t.apps),
        !has_key(t.apps, path@),
    ensures
        ({
            let once = effect(t, Statement::EnsureApp { path, first_seen: at, name });
            &&& distinct(once.apps)
            &&& lookup(once.apps, path@) == Some((at, text_view(name)))
            &&& effect(once, Statement::EnsureApp { path, first_seen: later, name: again }) == once
        }),
{
    law_put(t.apps, path@, (at, text_view(name)), path@);
}

/// The bytes that one key sent or received in the buckets of a window.
pub open spec fn total(
    usage: Seq<((Seq<char>, i64), (int, int))>,
    path: Seq<char>,
    from: int,
    to: int,
) -> (int, int)
    decreases usage.len(),
{
    if usage.len() == 0 {
        (0, 0)
    } else {
        let before = total(usage.drop_last(), path, from, to);
        let e = usage.last();
        if counts(e.0, path, from, to) {
            (before.0 + e.1.0, before.1 + e.1.1)
        } else {
            before
        }
    }
}

/// Whether a bucket is one of a key's in a window.
pub open spec fn counts(key: (Seq<char>, i64), path: Seq<char>, from: int, to: int) -> bool {
    key.0 == path && from <= key.1 && key.1 < to
}

proof fn lemma_total_update(
    usage: Seq<((Seq<char>, i64), (int, int))>,
    i: int,
    v: (int, int),
    path: Seq<char>,
    from: int,
    to: int,
)
    requires
        0 <= i < usage.len(),
    ensures
        ({
            let a = total(usage, path, from, to);
            let b = total(usage.update(i, (usage[i].0, v)), path, from, to);
            if counts(usage[i].0, path, from, to) {
                b == (a.0 + v.0 - usage[i].1.0, a.1 + v.1 - usage[i].1.1)
            } else {
                b == a
            }
        }),
    decreases usage.len(),
{
    let changed = usage.update(i, (usage[i].0, v));
    if i == usage.len() - 1 {
        assert(changed.drop_last() =~= usage.drop_last());
    } else {
        lemma_total_update(usage.drop_last(), i, v, path, from, to);
        assert(changed.drop_last() =~= usage.drop_last().update(i, (usage[i].0, v)));
    }
}

/// Traffic adds up: what is added to a minute shows in every window that holds
/// the minute, for its key alone.
pub proof fn law_usage_adds_up(
    usage: Seq<((Seq<char>, i64), (int, int))>,
    key: (Seq<char>, i64),
    sent: int,
    recv: int,
    path: Seq<char>,
    from: int,
    to: int,
)
    ensures
        ({
            let a = total(usage, path, from, to);
            let b = total(added(usage, key, sent, recv), path, from, to);
            if counts(key, path, from, to) {
                b == (a.0 + sent, a.1 + recv)
            } else {
                b == a
            }
        }),
{
    lemma_position(usage, key);
    if has_key(usage, key) {
        let i = crate::assoc::position(usage, key) as int;
        let (s, r) = usage[i].1;
        lemma_total_update(usage, i, (s + sent, r + recv), path, from, to);
    } else {
        let after = added(usage, key, sent, recv);
        assert(after.drop_last() =~= usage);
    }
}

/// Forgetting old traffic takes nothing from the windows that start no earlier.
pub proof fn law_pruning_keeps_what_is_newer(
    usage: Seq<((Seq<char>, i64), (int, int))>,
    before: i64,
    path: Seq<char>,
    from: int,
    to: int,
)
    requires
        before <= from,
    ensures
        total(
            usage.filter(|e: ((Seq<char>, i64), (int, int))| e.0.1 >= before),
            path,
            from,
            to,
        ) == total(usage, path, from, to),
    decreases usage.len(),
{
    let p = |e: ((Seq<char>, i64), (int, int))| e.0.1 >= before;
    reveal(Seq::filter);
    if usage.len() > 0 {
        law_pruning_keeps_what_is_newer(usage.drop_last(), before, path, from, to);
        let kept = usage.drop_last().filter(p);
        if p(usage.last()) {
            assert(usage.filter(p) =~= kept.push(usage.last()));
            assert(kept.push(usage.last()).drop_last() =~= kept);
        }
    }
}

/// Whether a bucket is one of the asked application's, or of any where none is
/// named, and in a window.
pub open spec fn within(key: (Seq<char>, i64), app: Option<Seq<char>>, from: i64, to: i64) -> bool {
    (app is Some ==> app == Some(key.0)) && from <= key.1 < to
}

/// The start of the bucket of a length that a time falls into.
pub open spec fn start_of(at: i64, width: i64) -> i64 {
    (at as int / width as int * width as int) as i64
}

/// The traffic in a window, added up for each application and each bucket of a
/// length.
pub open spec fn grouped(
    usage: Seq<((Seq<char>, i64), (int, int))>,
    width: i64,
    app: Option<Seq<char>>,
    from: i64,
    to: i64,
) -> Seq<((Seq<char>, i64), (int, int))>
    decreases usage.len(),
{
    if usage.len() == 0 {
        Seq::empty()
    } else {
        let before = grouped(usage.drop_last(), width, app, from, to);
        let e = usage.last();
        if within(e.0, app, from, to) {
            added(before, (e.0.0, start_of(e.0.1, width)), e.1.0, e.1.1)
        } else {
            before
        }
    }
}

/// Whether `rows` are `groups` in the order of their times.
pub open spec fn in_order(
    rows: Seq<((Seq<char>, i64), (int, int))>,
    groups: Seq<((Seq<char>, i64), (int, int))>,
) -> bool {
    &&& rows.to_multiset() == groups.to_multiset()
    &&& forall|i: int, j: int|
        0 <= i < j < rows.len() ==> (#[trigger] rows[i]).0.1 <= (#[trigger] rows[j]).0.1
}

/// The first rows, as many as are given at most.
pub open spec fn limited(rows: Seq<((Seq<char>, i64), (int, int))>) -> Seq<
    ((Seq<char>, i64), (int, int)),
> {
    if rows.len() <= MAX_ROWS {
        rows
    } else {
        rows.take(MAX_ROWS as int)
    }
}

/// Rows of the usage query as the tables' rows.
pub open spec fn row_views(rows: Seq<(String, i64, i64, i64)>) -> Seq<
    ((Seq<char>, i64), (int, int)),
> {
    rows.map_values(
        |x: (String, i64, i64, i64)| ((x.0@, x.1), (x.2 as int, x.3 as int)),
    )
}

/// Whether a usage query may find `rows`: the traffic in its window, grouped by
/// application and bucket, in the order of the buckets, as far as the limit goes.
pub open spec fn finds(t: Tables, s: Statement, rows: Seq<(String, i64, i64, i64)>) -> bool {
    s matches Statement::UsageOf { width, from, to, app } && exists|
        all: Seq<((Seq<char>, i64), (int, int))>,
    |
        #[trigger] in_order(all, grouped(t.usage, width, text_view(app), from, to)) && row_views(
            rows,
        ) == limited(all)
}

/// All the bytes that rows hold.
pub open spec fn all_bytes(rows: Seq<((Seq<char>, i64), (int, int))>) -> (int, int)
    decreases rows.len(),
{
    if rows.len() == 0 {
        (0, 0)
    } else {
        let before = all_bytes(rows.drop_last());
        (before.0 + rows.last().1.0, before.1 + rows.last().1.1)
    }
}

/// The bytes of the asked application, or of all, in a window.
pub open spec fn asked_bytes(
    usage: Seq<((Seq<char>, i64), (int, int))>,
    app: Option<Seq<char>>,
    from: i64,
    to: i64,
) -> (int, int)
    decreases usage.len(),
{
    if usage.len() == 0 {
        (0, 0)
    } else {
        let before = asked_bytes(usage.drop_last(), app, from, to);
        let e = usage.last();
        if within(e.0, app, from, to) {
            (before.0 + e.1.0, before.1 + e.1.1)
        } else {
            before
        }
    }
}

/// Whether times and bytes are those of real traffic: not negative.
pub open spec fn recorded(usage: Seq<((Seq<char>, i64), (int, int))>) -> bool {
    forall|i: int|
        0 <= i < usage.len() ==> (#[trigger] usage[i]).0.1 >= 0 && usage[i].1.0 >= 0
            && usage[i].1.1 >= 0
}

/// All the bytes of buckets, sent and received.
pub open spec fn bytes_in(out: Seq<UsageBucket>) -> (int, int)
    decreases out.len(),
{
    if out.len() == 0 {
        (0, 0)
    } else {
        let before = bytes_in(out.drop_last());
        (before.0 + out.last().bytes.sent, before.1 + out.last().bytes.recv)
    }
}

/// Whether buckets start at multiples of their length, follow each other in time,
/// and no application has two that start together.
pub open spec fn laid_out(out: Seq<UsageBucket>, g: Granularity) -> bool {
    &&& forall|i: int|
        0 <= i < out.len() ==> (#[trigger] out[i]).bucket_start_ms as nat % g.width() == 0
    &&& forall|i: int, j: int|
        0 <= i < j < out.len() ==> {
            &&& (#[trigger] out[i]).bucket_start_ms <= (#[trigger] out[j]).bucket_start_ms
            &&& out[i].app@ != out[j].app@ || out[i].bucket_start_ms != out[j].bucket_start_ms
        }
}

proof fn lemma_all_bytes_update(
    rows: Seq<((Seq<char>, i64), (int, int))>,
    i: int,
    v: (int, int),
)
    requires
        0 <= i < rows.len(),
    ensures
        ({
            let a = all_bytes(rows);
            all_bytes(rows.update(i, (rows[i].0, v))) == (
                a.0 + v.0 - rows[i].1.0,
                a.1 + v.1 - rows[i].1.1,
            )
        }),
    decreases rows.len(),
{
    let changed = rows.update(i, (rows[i].0, v));
    if i == rows.len() - 1 {
        assert(changed.drop_last() =~= rows.drop_last());
    } else {
        lemma_all_bytes_update(rows.drop_last(), i, v);
        assert(changed.drop_last() =~= rows.drop_last().update(i, (rows[i].0, v)));
    }
}

proof fn lemma_all_bytes_added(
    rows: Seq<((Seq<char>, i64), (int, int))>,
    key: (Seq<char>, i64),
    sent: int,
    recv: int,
)
    ensures
        all_bytes(added(rows, key, sent, recv)) == (
            all_bytes(rows).0 + sent,
            all_bytes(rows).1 + recv,
        ),
{
    lemma_position(rows, key);
    if has_key(rows, key) {
        let i = crate::assoc::position(rows, key) as int;
        let (s, r) = rows[i].1;
        lemma_all_bytes_update(rows, i, (s + sent, r + recv));
    } else {
        assert(added(rows, key, sent, recv).drop_last() =~= rows);
    }
}

/// Adding traffic keeps rows that are of real traffic, each with a key of its own.
pub proof fn law_adding_keeps_rows_recorded(
    rows: Seq<((Seq<char>, i64), (int, int))>,
    key: (Seq<char>, i64),
    sent: int,
    recv: int,
)
    requires
        recorded(rows),
        distinct(rows),
        key.1 >= 0,
        sent >= 0,
        recv >= 0,
    ensures
        recorded(added(rows, key, sent, recv)),
        distinct(added(rows, key, sent, recv)),
{
    let v = match lookup(rows, key) {
        Some((s, r)) => (s + sent, r + recv),
        None => (sent, recv),
    };
    lemma_position(rows, key);
    law_put(rows, key, v, key);
    let after = added(rows, key, sent, recv);
    assert forall|i: int| 0 <= i < after.len() implies (#[trigger] after[i]).0.1 >= 0
        && after[i].1.0 >= 0 && after[i].1.1 >= 0 by {
        if i < rows.len() {
            assert(rows[i].0.1 >= 0);
        }
    }
}

/// Whether the times of all rows are multiples of a length.
spec fn aligned(rows: Seq<((Seq<char>, i64), (int, int))>, width: int) -> bool {
    forall|i: int| 0 <= i < rows.len() ==> (#[trigger] rows[i]).0.1 as int % width == 0
}

proof fn lemma_start_of(at: i64, width: i64)
    requires
        at >= 0,
        width > 0,
    ensures
        0 <= start_of(at, width) <= at,
        start_of(at, width) as int % width as int == 0,
{
    let (a, w) = (at as int, width as int);
    vstd::arithmetic::div_mod::lemma_fundamental_div_mod(a, w);
    vstd::arithmetic::div_mod::lemma_div_pos_is_pos(a, w);
    vstd::arithmetic::div_mod::lemma_mod_multiples_basic(a / w, w);
    assert(w * (a / w) == a / w * w) by (nonlinear_arith);
    assert(a / w * w >= 0) by (nonlinear_arith)
        requires
            a / w >= 0,
            w > 0,
    ;
}

proof fn lemma_grouped(
    usage: Seq<((Seq<char>, i64), (int, int))>,
    width: i64,
    app: Option<Seq<char>>,
    from: i64,
    to: i64,
)
    requires
        recorded(usage),
        width > 0,
    ensures
        all_bytes(grouped(usage, width, app, from, to)) == asked_bytes(usage, app, from, to),
        distinct(grouped(usage, width, app, from, to)),
        recorded(grouped(usage, width, app, from, to)),
        aligned(grouped(usage, width, app, from, to), width as int),
    decreases usage.len(),
{
    if usage.len() > 0 {
        let front = usage.drop_last();
        let e = usage.last();
        assert forall|i: int| 0 <= i < front.len() implies (#[trigger] front[i]).0.1 >= 0
            && front[i].1.0 >= 0 && front[i].1.1 >= 0 by {
            assert(front[i] == usage[i]);
        }
        lemma_grouped(front, width, app, from, to);
        assert(usage[usage.len() - 1].0.1 >= 0);
        if within(e.0, app, from, to) {
            let before = grouped(front, width, app, from, to);
            let key = (e.0.0, start_of(e.0.1, width));
            lemma_start_of(e.0.1, width);
            lemma_all_bytes_added(before, key, e.1.0, e.1.1);
            law_adding_keeps_rows_recorded(before, key, e.1.0, e.1.1);
            let after = added(before, key, e.1.0, e.1.1);
            lemma_position(before, key);
            assert forall|i: int| 0 <= i < after.len() implies (#[trigger] after[i]).0.1 as int
                % width as int == 0 by {
                if i < before.len() {
                    assert(before[i].0.1 as int % width as int == 0);
                }
            }
        }
    }
}

proof fn lemma_all_bytes_remove(rows: Seq<((Seq<char>, i64), (int, int))>, i: int)
    requires
        0 <= i < rows.len(),
    ensures
        all_bytes(rows) == (
            all_bytes(rows.remove(i)).0 + rows[i].1.0,
            all_bytes(rows.remove(i)).1 + rows[i].1.1,
        ),
    decreases rows.len(),
{
    let t = rows.remove(i);
    if i == rows.len() - 1 {
        assert(t =~= rows.drop_last());
    } else {
        lemma_all_bytes_remove(rows.drop_last(), i);
        assert(t.drop_last() =~= rows.drop_last().remove(i));
        assert(t.last() == rows.last());
    }
}

/// Rows in another order hold the same bytes, each with a key of its own still.
proof fn lemma_same_rows(
    rows: Seq<((Seq<char>, i64), (int, int))>,
    groups: Seq<((Seq<char>, i64), (int, int))>,
    width: int,
)
    requires
        rows.to_multiset() == groups.to_multiset(),
        distinct(groups),
        recorded(groups),
        aligned(groups, width),
    ensures
        all_bytes(rows) == all_bytes(groups),
        distinct(rows),
        recorded(rows),
        aligned(rows, width),
        forall|i: int| 0 <= i < rows.len() ==> groups.contains(#[trigger] rows[i]),
    decreases rows.len(),
{
    broadcast use vstd::seq_lib::group_to_multiset_ensures;

    if rows.len() == 0 {
        assert(rows.to_multiset().len() == groups.to_multiset().len());
        assert(groups.len() == 0);
    } else {
        let x = rows.last();
        let front = rows.drop_last();
        assert(rows.contains(x));
        assert(groups.to_multiset().count(x) > 0);
        assert(groups.contains(x));
        let i = choose|i: int| 0 <= i < groups.len() && groups[i] == x;
        let rest = groups.remove(i);
        assert(front.push(x) =~= rows);
        assert(front.to_multiset() =~= rest.to_multiset());
        assert forall|j: int| 0 <= j < rest.len() implies rest[j] == (if j < i {
            groups[j]
        } else {
            groups[j + 1]
        }) by {}
        lemma_all_bytes_remove(groups, i);
        lemma_same_rows(front, rest, width);
        assert forall|j: int| 0 <= j < rows.len() implies groups.contains(#[trigger] rows[j]) by {
            if j < front.len() {
                assert(rest.contains(front[j]));
                let k = choose|k: int| 0 <= k < rest.len() && rest[k] == front[j];
                assert(groups[if k < i { k } else { k + 1 }] == rows[j]);
            }
        }
        assert forall|j: int| 0 <= j < front.len() implies (#[trigger] front[j]).0 != x.0 by {
            assert(rest.contains(front[j]));
            let k = choose|k: int| 0 <= k < rest.len() && rest[k] == front[j];
            assert(groups[if k < i { k } else { k + 1 }].0 != groups[i].0);
        }
        assert forall|a: int, b: int|
            0 <= a < rows.len() && 0 <= b < rows.len() && a != b implies (#[trigger] rows[a]).0 != (
        #[trigger] rows[b]).0 by {
            if a < front.len() {
                assert(front[a] == rows[a]);
            }
            if b < front.len() {
                assert(front[b] == rows[b]);
            }
        }
        assert forall|j: int| 0 <= j < rows.len() implies (#[trigger] rows[j]).0.1 >= 0
            && rows[j].1.0 >= 0 && rows[j].1.1 >= 0 && rows[j].0.1 as int % width == 0 by {
            assert(groups.contains(rows[j]));
            let k = choose|k: int| 0 <= k < groups.len() && groups[k] == rows[j];
            assert(groups[k].0.1 >= 0);
        }
    }
}

proof fn lemma_bytes_in(rows: Seq<(String, i64, i64, i64)>)
    requires
        recorded(row_views(rows)),
    ensures
        bytes_in(buckets_of(rows)) == all_bytes(row_views(rows)),
    decreases rows.len(),
{
    let v = row_views(rows);
    if rows.len() > 0 {
        let front = rows.drop_last();
        assert(row_views(front) =~= v.drop_last());
        assert(buckets_of(front) =~= buckets_of(rows).drop_last());
        assert forall|i: int| 0 <= i < row_views(front).len() implies (#[trigger] row_views(
            front,
        )[i]).0.1 >= 0 && row_views(front)[i].1.0 >= 0 && row_views(front)[i].1.1 >= 0 by {
            assert(row_views(front)[i] == v[i]);
        }
        lemma_bytes_in(front);
        assert(v[rows.len() - 1].1.0 >= 0);
    }
}

/// What a usage query finds, where the limit leaves nothing out, adds up to the
/// traffic in its window; its buckets start at multiples of their length, follow
/// each other in time, and no application has two that start together.
pub proof fn law_usage_answers_add_up(
    t: Tables,
    q: UsageQuery,
    rows: Seq<(String, i64, i64, i64)>,
)
    requires
        recorded(t.usage),
        finds(t, usage_statement(q), rows),
        rows.len() < MAX_ROWS,
    ensures
        bytes_in(buckets_of(rows)) == asked_bytes(
            t.usage,
            match q.app {
                Some(a) => Some(a@),
                None => None,
            },
            stored(q.from_ms),
            stored(q.to_ms),
        ),
        laid_out(buckets_of(rows), q.granularity),
{
    let width = q.granularity.width() as i64;
    let app = match q.app {
        Some(a) => Some(a@),
        None => None,
    };
    let named: Option<String> = match q.app {
        Some(a) => Some(a.0),
        None => None,
    };
    assert(text_view(named) == app);
    let (from, to) = (stored(q.from_ms), stored(q.to_ms));
    let groups = grouped(t.usage, width, app, from, to);
    let all = choose|all: Seq<((Seq<char>, i64), (int, int))>| #[trigger]
        in_order(all, groups) && row_views(rows) == limited(all);
    let v = row_views(rows);
    assert(v.len() == rows.len());
    assert(v == all);
    lemma_grouped(t.usage, width, app, from, to);
    lemma_same_rows(all, groups, width as int);
    lemma_bytes_in(rows);
    let out = buckets_of(rows);
    assert forall|i: int| 0 <= i < out.len() implies (#[trigger] out[i]).bucket_start_ms as int
        == v[i].0.1 && out[i].app@ == v[i].0.0 by {
        assert(v[i].0.1 >= 0);
    }
    assert forall|i: int| 0 <= i < out.len() implies (#[trigger] out[i]).bucket_start_ms as nat
        % q.granularity.width() == 0 by {
        assert(v[i].0.1 as int % width as int == 0);
    }
    assert forall|i: int, j: int| 0 <= i < j < out.len() implies {
        &&& (#[trigger] out[i]).bucket_start_ms <= (#[trigger] out[j]).bucket_start_ms
        &&& out[i].app@ != out[j].app@ || out[i].bucket_start_ms != out[j].bucket_start_ms
    } by {
        assert(v[i].0.1 <= v[j].0.1);
        assert(v[i].0 != v[j].0);
    }
}

/// The same traffic in minutes, in hours and in days adds up to the same bytes,
/// and each answer is laid out in whole buckets.
pub proof fn law_usage_agrees_over_granularities(
    t: Tables,
    app: Option<AppId>,
    from_ms: u64,
    to_ms: u64,
    minutes: Seq<(String, i64, i64, i64)>,
    hours: Seq<(String, i64, i64, i64)>,
    days: Seq<(String, i64, i64, i64)>,
)
    requires
        recorded(t.usage),
        finds(
            t,
            usage_statement(UsageQuery { app, from_ms, to_ms, granularity: Granularity::Minute }),
            minutes,
        ),
        finds(
            t,
            usage_statement(UsageQuery { app, from_ms, to_ms, granularity: Granularity::Hour }),
            hours,
        ),
        finds(
            t,
            usage_statement(UsageQuery { app, from_ms, to_ms, granularity: Granularity::Day }),
            days,
        ),
        minutes.len() < MAX_ROWS,
        hours.len() < MAX_ROWS,
        days.len() < MAX_ROWS,
    ensures
        bytes_in(buckets_of(minutes)) == bytes_in(buckets_of(hours)),
        bytes_in(buckets_of(hours)) == bytes_in(buckets_of(days)),
        laid_out(buckets_of(minutes), Granularity::Minute),
        laid_out(buckets_of(hours), Granularity::Hour),
        laid_out(buckets_of(days), Granularity::Day),
{
    let q = UsageQuery { app, from_ms, to_ms, granularity: Granularity::Minute };
    law_usage_answers_add_up(t, q, minutes);
    law_usage_answers_add_up(t, UsageQuery { granularity: Granularity::Hour, ..q }, hours);
    law_usage_answers_add_up(t, UsageQuery { granularity: Granularity::Day, ..q }, days);
}

/// What the user agreed to is found again, and switching a plugin on or off
/// changes nothing else of it.
pub proof fn law_grants_are_found_again(
    t: Tables,
    id: String,
    caps: String,
    egress: String,
    enabled: bool,
    granted_at: i64,
    on: bool,
)
    requires
        distinct(t.grants),
    ensures
        ({
            let set = effect(t, Statement::SetGrant { id, caps, egress, enabled, granted_at });
            let row = GrantEntry {
                caps: caps@,
                egress: egress@,
                enabled: flag_of(enabled),
                granted_at,
            };
            &&& lookup(set.grants, id@) == Some(row)
            &&& lookup(
                effect(set, Statement::SetEnabled { id, enabled: on }).grants,
                id@,
            ) == Some(GrantEntry { enabled: flag_of(on), ..row })
            &&& !has_key(t.grants, id@) ==> effect(t, Statement::SetEnabled { id, enabled: on }) == t
        }),
{
    let row = GrantEntry { caps: caps@, egress: egress@, enabled: flag_of(enabled), granted_at };
    law_put(t.grants, id@, row, id@);
    let set = put(t.grants, id@, row);
    law_put(set, id@, GrantEntry { enabled: flag_of(on), ..row }, id@);
}

/// An alert waits from when it is written down until it is acknowledged, and
/// acknowledging it leaves the others as they are.
pub proof fn law_an_alert_waits_until_acknowledged(t: Tables, at_ms: i64, kind: String)
    requires
        t.next_alert <= i64::MAX,
        t.next_alert >= i64::MIN,
        forall|i: int| 0 <= i < t.alerts.len() ==> (#[trigger] t.alerts[i]).id < t.next_alert,
    ensures
        ({
            let n = t.alerts.len() as int;
            let put_down = effect(t, Statement::InsertAlert { at_ms, kind });
            let acked = effect(put_down, Statement::AckAlert { id: t.next_alert as i64 });
            &&& !put_down.alerts[n].acknowledged
            &&& put_down.alerts[n].id == t.next_alert
            &&& acked.alerts[n].acknowledged
            &&& acked.alerts.take(n) == t.alerts
        }),
{
    let n = t.alerts.len() as int;
    let put_down = effect(t, Statement::InsertAlert { at_ms, kind });
    let acked = effect(put_down, Statement::AckAlert { id: t.next_alert as i64 });
    assert(acked.alerts.take(n) =~= t.alerts) by {
        assert forall|i: int| 0 <= i < n implies acked.alerts[i] == t.alerts[i] by {
            assert(put_down.alerts[i] == t.alerts[i]);
        }
    }
}

/// How many proposals of a plugin wait.
pub open spec fn pending(ps: Seq<ProposalEntry>, source: Seq<char>) -> nat
    decreases ps.len(),
{
    if ps.len() == 0 {
        0
    } else {
        pending(ps.drop_last(), source) + if ps.last().source == source && waits(ps.last()) {
            1nat
        } else {
            0nat
        }
    }
}

/// Whether a proposal of a plugin waits for a rule.
pub open spec fn asked_for(e: ProposalEntry, source: Seq<char>, rule: Seq<char>) -> bool {
    e.source == source && e.rule == rule && waits(e)
}

/// Whether the same proposal waits already.
pub open spec fn known(ps: Seq<ProposalEntry>, source: Seq<char>, rule: Seq<char>) -> bool {
    exists|i: int| 0 <= i < ps.len() && asked_for(#[trigger] ps[i], source, rule)
}

/// What holds of the proposals throughout: each has a number of its own, none
/// waits twice, and no plugin has more waiting than it may.
pub open spec fn sound(t: Tables) -> bool {
    &&& forall|i: int| 0 <= i < t.proposals.len() ==> (#[trigger] t.proposals[i]).id
        < t.next_proposal
    &&& forall|i: int, j: int|
        0 <= i < j < t.proposals.len() ==> (#[trigger] t.proposals[i]).id != (
        #[trigger] t.proposals[j]).id
    &&& forall|i: int, j: int|
        0 <= i < j < t.proposals.len() && waits(#[trigger] t.proposals[i]) && waits(
            #[trigger] t.proposals[j],
        ) ==> t.proposals[i].source != t.proposals[j].source || t.proposals[i].rule
            != t.proposals[j].rule
    &&& forall|source: Seq<char>|
        #[trigger] pending(t.proposals, source) <= MAX_PENDING_PER_SOURCE
}

/// The tables after a plugin proposed a rule.
pub open spec fn after_proposing(t: Tables, d: Draft) -> Tables {
    if known(t.proposals, d.source@, d.rule_json@) || full(
        Some(pending(t.proposals, d.source@) as i64),
    ) {
        t
    } else {
        effect(
            t,
            Statement::InsertProposal {
                source: d.source,
                rule: d.rule_json,
                reason: d.reason,
                at_ms: stored(d.at_ms),
            },
        )
    }
}

/// What is decided from the database's answers is what is done to the tables.
pub proof fn law_proposing_follows_the_answers(t: Tables, d: Draft, found: Answer, count: Answer)
    requires
        sound(t),
        found is Found,
        (found->Found_0 is Some) == known(t.proposals, d.source@, d.rule_json@),
        count is Pending,
        count->Pending_0 == Some(pending(t.proposals, d.source@) as i64),
    ensures
        after_proposing(t, d) == (if decided(Stage::Finding, found) == Decision::Count && decided(
            Stage::Counting,
            count,
        ) == Decision::Insert {
            effect(
                t,
                Statement::InsertProposal {
                    source: d.source,
                    rule: d.rule_json,
                    reason: d.reason,
                    at_ms: stored(d.at_ms),
                },
            )
        } else {
            t
        }),
{
}

/// However often plugins propose, no proposal waits twice, and no plugin has more
/// waiting than it may.
pub proof fn law_proposals_stay_bounded(t: Tables, d: Draft)
    requires
        sound(t),
    ensures
        sound(after_proposing(t, d)),
{
    let after = after_proposing(t, d);
    if after != t {
        let ps = t.proposals;
        let qs = after.proposals;
        assert(qs.drop_last() =~= ps);
        assert(pending(ps, d.source@) <= MAX_PENDING_PER_SOURCE);
        assert forall|source: Seq<char>| #[trigger]
            pending(qs, source) <= MAX_PENDING_PER_SOURCE by {
            assert(pending(ps, source) <= MAX_PENDING_PER_SOURCE);
        }
        assert forall|i: int, j: int|
            0 <= i < j < qs.len() && waits(#[trigger] qs[i]) && waits(
                #[trigger] qs[j],
            ) implies qs[i].source != qs[j].source || qs[i].rule != qs[j].rule by {
            assert(ps[i] == qs[i]);
            if j < ps.len() {
                assert(ps[j] == qs[j]);
            } else if qs[i].source == qs[j].source && qs[i].rule == qs[j].rule {
                assert(asked_for(ps[i], d.source@, d.rule_json@));
            }
        }
        assert forall|i: int, j: int| 0 <= i < j < qs.len() implies (#[trigger] qs[i]).id != (
        #[trigger] qs[j]).id by {
            assert(ps[i] == qs[i]);
            if j < ps.len() {
                assert(ps[j] == qs[j]);
            }
        }
        assert forall|i: int| 0 <= i < qs.len() implies (#[trigger] qs[i]).id
            < after.next_proposal by {
            if i < ps.len() {
                assert(ps[i] == qs[i]);
            }
        }
    }
}

proof fn lemma_settling_frees(ps: Seq<ProposalEntry>, id: int, state: ProposalState, source: Seq<char>)
    requires
        state != ProposalState::Pending,
    ensures
        pending(ps.map_values(|e: ProposalEntry| settled(e, id, state)), source) <= pending(
            ps,
            source,
        ),
    decreases ps.len(),
{
    law_state_names_identify();
    let f = |e: ProposalEntry| settled(e, id, state);
    if ps.len() > 0 {
        lemma_settling_frees(ps.drop_last(), id, state, source);
        assert(ps.map_values(f).drop_last() =~= ps.drop_last().map_values(f));
    }
}

/// A proposal is settled once: a second verdict changes nothing, and other
/// proposals stay as they are.
pub proof fn law_a_proposal_is_settled_once(
    t: Tables,
    id: i64,
    state: ProposalState,
    second: ProposalState,
)
    requires
        sound(t),
        state != ProposalState::Pending,
    ensures
        ({
            let once = effect(t, Statement::SettleProposal { id, state });
            &&& sound(once)
            &&& effect(once, Statement::SettleProposal { id, state: second }) == once
            &&& forall|i: int|
                0 <= i < t.proposals.len() && t.proposals[i].id != id
                    ==> #[trigger] once.proposals[i] == t.proposals[i]
        }),
{
    law_state_names_identify();
    let once = effect(t, Statement::SettleProposal { id, state });
    let ps = t.proposals;
    let qs = once.proposals;
    assert forall|i: int| 0 <= i < ps.len() implies #[trigger] qs[i] == settled(
        ps[i],
        id as int,
        state,
    ) by {}
    assert(effect(once, Statement::SettleProposal { id, state: second }).proposals =~= qs) by {
        assert forall|i: int| 0 <= i < qs.len() implies settled(qs[i], id as int, second)
            == qs[i] by {
            assert(qs[i] == settled(ps[i], id as int, state));
        }
    }
    assert forall|source: Seq<char>| #[trigger]
        pending(qs, source) <= MAX_PENDING_PER_SOURCE by {
        lemma_settling_frees(ps, id as int, state, source);
        assert(pending(ps, source) <= MAX_PENDING_PER_SOURCE);
    }
}

} // verus!
