//! Byte deltas between samples, per application.

use crate::assoc::{distinct, law_put, lookup, mapped, put, without, Assoc};
use crate::model::{capped_sum, AppId, AppSample, ByteCounts, StatsTick};
use crate::text::{owned, text_view};
use vstd::prelude::*;

verus! {

/// Adds up each application's bytes and turns them into a sample on flush.
///
/// Rates are over the time that really passed, so a late flush reports the right
/// bytes per second. An application is reported until it is forgotten.
pub struct Aggregator {
    apps: Assoc<AppId, Accum>,
    window_start_ms: u64,
}

struct Accum {
    name: Option<String>,
    total: ByteCounts,
    window: ByteCounts,
}

/// What is known of one application.
pub ghost struct AppTotals {
    pub name: Option<Seq<char>>,
    /// Bytes since it was first seen.
    pub total: ByteCounts,
    /// Bytes since the last flush.
    pub window: ByteCounts,
}

/// An application that has moved nothing.
pub open spec fn untouched() -> AppTotals {
    AppTotals {
        name: None,
        total: ByteCounts { sent: 0, recv: 0 },
        window: ByteCounts { sent: 0, recv: 0 },
    }
}

/// Counters with more bytes.
pub open spec fn counted(c: ByteCounts, sent: u64, recv: u64) -> ByteCounts {
    ByteCounts {
        sent: capped_sum(c.sent as nat, sent as nat) as u64,
        recv: capped_sum(c.recv as nat, recv as nat) as u64,
    }
}

/// An application after more bytes. The first name given stays.
pub open spec fn recorded(t: AppTotals, name: Option<Seq<char>>, sent: u64, recv: u64) -> AppTotals {
    AppTotals {
        name: if t.name is None {
            name
        } else {
            t.name
        },
        total: counted(t.total, sent, recv),
        window: counted(t.window, sent, recv),
    }
}

/// The milliseconds between two times, at least one.
pub open spec fn elapsed(from: u64, to: u64) -> nat {
    if to > from {
        (to - from) as nat
    } else {
        1
    }
}

/// Bytes per second, in the low sixty-four bits.
pub open spec fn rate(bytes: u64, ms: nat) -> nat {
    (bytes as nat * 1000 / ms) % 0x1_0000_0000_0000_0000
}

/// The sum of the rates, which stops at the largest value.
pub open spec fn rate_sum(rates: Seq<nat>) -> nat
    decreases rates.len(),
{
    if rates.len() == 0 {
        0
    } else {
        capped_sum(rate_sum(rates.drop_last()), rates.last())
    }
}

/// The rates at which applications sent.
pub open spec fn sent_rates(apps: Seq<(Seq<char>, AppTotals)>, ms: nat) -> Seq<nat> {
    apps.map_values(|e: (Seq<char>, AppTotals)| rate(e.1.window.sent, ms))
}

/// The rates at which applications received.
pub open spec fn recv_rates(apps: Seq<(Seq<char>, AppTotals)>, ms: nat) -> Seq<nat> {
    apps.map_values(|e: (Seq<char>, AppTotals)| rate(e.1.window.recv, ms))
}

/// Whether a sample's row reports an application.
pub open spec fn reports(row: AppSample, e: (Seq<char>, AppTotals), ms: nat) -> bool {
    &&& row.app@ == e.0
    &&& text_view(row.name) == e.1.name
    &&& row.rate_sent == rate(e.1.window.sent, ms)
    &&& row.rate_recv == rate(e.1.window.recv, ms)
    &&& row.total == e.1.total
    &&& row.connections == 0
    &&& !row.online
    &&& row.processes@.len() == 0
}

/// Whether a tick samples applications over a window: a row for each, in order, and
/// the rates of all of them together.
pub open spec fn samples(
    tick: StatsTick,
    apps: Seq<(Seq<char>, AppTotals)>,
    since: u64,
    now: u64,
) -> bool {
    let ms = elapsed(since, now);
    &&& tick.at_ms == now
    &&& tick.apps@.len() == apps.len()
    &&& forall|i: int| 0 <= i < tick.apps@.len() ==> reports(#[trigger] tick.apps@[i], apps[i], ms)
    &&& tick.total_rate_sent == rate_sum(sent_rates(apps, ms))
    &&& tick.total_rate_recv == rate_sum(recv_rates(apps, ms))
}

/// An aggregator's applications after bytes of one.
pub open spec fn after_record(
    apps: Seq<(Seq<char>, AppTotals)>,
    app: Seq<char>,
    name: Option<Seq<char>>,
    sent: u64,
    recv: u64,
) -> Seq<(Seq<char>, AppTotals)> {
    put(
        apps,
        app,
        recorded(
            match lookup(apps, app) {
                Some(t) => t,
                None => untouched(),
            },
            name,
            sent,
            recv,
        ),
    )
}

/// Applications at the start of a window.
pub open spec fn window_reset(apps: Seq<(Seq<char>, AppTotals)>) -> Seq<(Seq<char>, AppTotals)> {
    mapped(apps, |t: AppTotals| AppTotals { window: ByteCounts { sent: 0, recv: 0 }, ..t })
}

impl Accum {
    spec fn totals(self) -> AppTotals {
        AppTotals { name: text_view(self.name), total: self.total, window: self.window }
    }

    fn copy(&self) -> (r: Accum)
        ensures
            r == *self,
    {
        Accum {
            name: crate::rule::clone_label(&self.name),
            total: self.total,
            window: self.window,
        }
    }
}

impl Aggregator {
    /// The applications that are tracked, in the order in which they came.
    pub closed spec fn apps(&self) -> Seq<(Seq<char>, AppTotals)> {
        mapped(self.apps@, |a: Accum| a.totals())
    }

    /// When the window began.
    pub closed spec fn since(&self) -> u64 {
        self.window_start_ms
    }

    /// Whether no application is tracked twice.
    pub open spec fn wf(&self) -> bool {
        distinct(self.apps())
    }

    /// What is known of one application.
    pub open spec fn totals(&self, app: Seq<char>) -> Option<AppTotals> {
        lookup(self.apps(), app)
    }

    /// Nothing tracked yet, from `now_ms` on.
    pub fn new(now_ms: u64) -> (a: Aggregator)
        ensures
            a.wf(),
            a.apps() == Seq::<(Seq<char>, AppTotals)>::empty(),
            a.since() == now_ms,
    {
        let a = Aggregator { apps: Assoc::new(), window_start_ms: now_ms };
        assert(a.apps() =~= Seq::<(Seq<char>, AppTotals)>::empty());
        a
    }

    fn entry(&self, app: &AppId) -> (e: Accum)
        ensures
            e.totals() == (match self.totals(app@) {
                Some(t) => t,
                None => untouched(),
            }),
    {
        proof {
            crate::assoc::lemma_mapped(
                self.apps@,
                |a: Accum| a.totals(),
                app@,
                Accum { name: None, total: untouched().total, window: untouched().total },
            );
        }
        match self.apps.get(app) {
            Some(a) => a.copy(),
            None => Accum {
                name: None,
                total: ByteCounts::default(),
                window: ByteCounts::default(),
            },
        }
    }

    fn store(&mut self, app: &AppId, e: Accum)
        requires
            old(self).wf(),
        ensures
            final(self).wf(),
            final(self).apps() == put(old(self).apps(), app@, e.totals()),
            final(self).since() == old(self).since(),
    {
        proof {
            crate::assoc::lemma_mapped(self.apps@, |a: Accum| a.totals(), app@, e);
            crate::assoc::law_put(self.apps(), app@, e.totals(), app@);
        }
        self.apps.put(app.clone(), e);
    }

    /// Adds an application's bytes.
    pub fn record(&mut self, app: &AppId, name: Option<&str>, sent: u64, recv: u64)
        requires
            old(self).wf(),
        ensures
            final(self).wf(),
            final(self).apps() == after_record(
                old(self).apps(),
                app@,
                crate::text::str_view(name),
                sent,
                recv,
            ),
            final(self).since() == old(self).since(),
    {
        let mut e = self.entry(app);
        if e.name.is_none() {
            if let Some(n) = name {
                e.name = Some(owned(n));
            }
        }
        let delta = ByteCounts { sent, recv };
        e.total.add(delta);
        e.window.add(delta);
        self.store(app, e);
    }

    /// Tracks an application that has moved nothing yet.
    pub fn touch(&mut self, app: &AppId)
        requires
            old(self).wf(),
        ensures
            final(self).wf(),
            final(self).apps() == put(
                old(self).apps(),
                app@,
                match old(self).totals(app@) {
                    Some(t) => t,
                    None => untouched(),
                },
            ),
            final(self).since() == old(self).since(),
    {
        let e = self.entry(app);
        self.store(app, e);
    }

    /// Stops tracking an application.
    pub fn forget(&mut self, app: &AppId)
        requires
            old(self).wf(),
        ensures
            final(self).wf(),
            final(self).apps() == without(old(self).apps(), app@),
            final(self).since() == old(self).since(),
    {
        proof {
            crate::assoc::lemma_mapped(
                self.apps@,
                |a: Accum| a.totals(),
                app@,
                Accum { name: None, total: untouched().total, window: untouched().total },
            );
            crate::assoc::law_without(self.apps(), app@, app@);
        }
        self.apps.remove(app);
    }

    /// A sample of every application over the time since the last flush. The next
    /// window begins now.
    pub fn flush(&mut self, now_ms: u64) -> (tick: StatsTick)
        requires
            old(self).wf(),
        ensures
            final(self).wf(),
            final(self).apps() == window_reset(old(self).apps()),
            final(self).since() == now_ms,
            samples(tick, old(self).apps(), old(self).since(), now_ms),
            tick.adapters@.len() == 0,
    {
        let past: u64 = now_ms.saturating_sub(self.window_start_ms);
        let ms: u64 = if past > 1 {
            past
        } else {
            1
        };
        let ghost before = self.apps();
        let ghost raw = self.apps@;
        let ghost fresh = |a: Accum| Accum { window: ByteCounts { sent: 0, recv: 0 }, ..a };
        let mut samples: Vec<AppSample> = Vec::new();
        let mut next: Assoc<AppId, Accum> = Assoc::new();
        let mut sent: u64 = 0;
        let mut recv: u64 = 0;
        let mut i: usize = 0;
        assert(next@ =~= mapped(raw.take(0), fresh));
        assert(sent_rates(before, ms as nat).take(0) =~= Seq::empty());
        assert(recv_rates(before, ms as nat).take(0) =~= Seq::empty());
        while i < self.apps.len()
            invariant
                i <= raw.len(),
                self.apps@ == raw,
                ms > 0,
                fresh == (|a: Accum| Accum { window: ByteCounts { sent: 0, recv: 0 }, ..a }),
                before == mapped(raw, |a: Accum| a.totals()),
                distinct(before),
                next@ == mapped(raw.take(i as int), fresh),
                samples@.len() == i,
                forall|j: int|
                    0 <= j < i ==> reports(#[trigger] samples@[j], before[j], ms as nat),
                sent == rate_sum(sent_rates(before, ms as nat).take(i as int)),
                recv == rate_sum(recv_rates(before, ms as nat).take(i as int)),
            decreases raw.len() - i,
        {
            let app = self.apps.key_at(i).clone();
            let e = self.apps.value_at(i).copy();
            proof {
                assert(before[i as int] == (raw[i as int].0, raw[i as int].1.totals()));
                let s = sent_rates(before, ms as nat);
                let r = recv_rates(before, ms as nat);
                assert(s.take(i + 1).drop_last() =~= s.take(i as int));
                assert(r.take(i + 1).drop_last() =~= r.take(i as int));
            }
            let rate_sent: u64 = per_sec(e.window.sent, ms);
            let rate_recv: u64 = per_sec(e.window.recv, ms);
            sent = sent.saturating_add(rate_sent);
            recv = recv.saturating_add(rate_recv);
            samples.push(
                AppSample {
                    app: app.clone(),
                    name: crate::rule::clone_label(&e.name),
                    rate_sent,
                    rate_recv,
                    total: e.total,
                    connections: 0,
                    online: false,
                    processes: Vec::new(),
                },
            );
            let ghost was = next@;
            let kept = Accum { name: e.name, total: e.total, window: ByteCounts::default() };
            proof {
                assert(raw.take(i + 1) =~= raw.take(i as int).push(raw[i as int]));
                assert(mapped(raw.take(i + 1), fresh) =~= was.push((app@, kept)));
                assert forall|j: int| 0 <= j < was.len() implies (#[trigger] was[j]).0 != app@ by {
                    assert(before[j].0 == raw[j].0);
                    assert(before[j].0 != before[i as int].0);
                }
                crate::assoc::lemma_position_none(was, app@);
            }
            next.put(app, kept);
            i += 1;
        }
        proof {
            let s = sent_rates(before, ms as nat);
            let r = recv_rates(before, ms as nat);
            assert(s.take(i as int) =~= s);
            assert(r.take(i as int) =~= r);
            assert(raw.take(i as int) =~= raw);
            assert(mapped(next@, |a: Accum| a.totals()) =~= window_reset(before));
        }
        self.apps = next;
        self.window_start_ms = now_ms;
        StatsTick {
            at_ms: now_ms,
            total_rate_sent: sent,
            total_rate_recv: recv,
            apps: samples,
            adapters: Vec::new(),
        }
    }
}

/// Bytes per second over some milliseconds.
fn per_sec(bytes: u64, ms: u64) -> (r: u64)
    requires
        ms > 0,
    ensures
        r == rate(bytes, ms as nat),
{
    let q: u128 = bytes as u128 * 1000 / ms as u128;
    (q % 0x1_0000_0000_0000_0000) as u64
}

/// A flush keeps every application and its totals, and the next flush without
/// bytes in between reports a rate of zero.
pub proof fn law_idle_window_keeps_totals(apps: Seq<(Seq<char>, AppTotals)>, app: Seq<char>, ms: nat)
    requires
        ms > 0,
    ensures
        match (lookup(apps, app), lookup(window_reset(apps), app)) {
            (Some(a), Some(b)) => a.total == b.total && a.name == b.name && rate(b.window.sent, ms)
                == 0 && rate(b.window.recv, ms) == 0,
            (None, None) => true,
            _ => false,
        },
{
    let g = |t: AppTotals| AppTotals { window: ByteCounts { sent: 0, recv: 0 }, ..t };
    crate::assoc::lemma_mapped(apps, g, app, untouched());
    assert(0nat * 1000 / ms == 0) by {
        vstd::arithmetic::div_mod::lemma_div_basics(ms as int);
    }
}

/// The sum of what the rows of a tick were sent at.
pub open spec fn sum_of_sent(rows: Seq<AppSample>) -> int
    decreases rows.len(),
{
    if rows.len() == 0 {
        0
    } else {
        sum_of_sent(rows.drop_last()) + rows.last().rate_sent
    }
}

/// The sum of what the rows of a tick were received at.
pub open spec fn sum_of_recv(rows: Seq<AppSample>) -> int
    decreases rows.len(),
{
    if rows.len() == 0 {
        0
    } else {
        sum_of_recv(rows.drop_last()) + rows.last().rate_recv
    }
}

proof fn lemma_rate_sums(rows: Seq<AppSample>, apps: Seq<(Seq<char>, AppTotals)>, ms: nat)
    requires
        rows.len() == apps.len(),
        forall|i: int| 0 <= i < rows.len() ==> reports(#[trigger] rows[i], apps[i], ms),
    ensures
        0 <= sum_of_sent(rows),
        0 <= sum_of_recv(rows),
        rate_sum(sent_rates(apps, ms)) == (if sum_of_sent(rows) <= u64::MAX {
            sum_of_sent(rows)
        } else {
            u64::MAX as int
        }),
        rate_sum(recv_rates(apps, ms)) == (if sum_of_recv(rows) <= u64::MAX {
            sum_of_recv(rows)
        } else {
            u64::MAX as int
        }),
    decreases rows.len(),
{
    if rows.len() > 0 {
        let (r, a) = (rows.drop_last(), apps.drop_last());
        assert forall|i: int| 0 <= i < r.len() implies reports(#[trigger] r[i], a[i], ms) by {
            assert(r[i] == rows[i] && a[i] == apps[i]);
        }
        lemma_rate_sums(r, a, ms);
        assert(sent_rates(apps, ms).drop_last() =~= sent_rates(a, ms));
        assert(recv_rates(apps, ms).drop_last() =~= recv_rates(a, ms));
        assert(reports(rows[rows.len() - 1], apps[apps.len() - 1], ms));
    }
}

/// A tick's totals are the sums of its rows, of what was sent and of what was
/// received each; a sum that does not fit stays at the largest number.
pub proof fn law_totals_are_the_sums_of_the_rows(
    tick: StatsTick,
    apps: Seq<(Seq<char>, AppTotals)>,
    since: u64,
    now: u64,
)
    requires
        samples(tick, apps, since, now),
    ensures
        sum_of_sent(tick.apps@) <= u64::MAX ==> tick.total_rate_sent == sum_of_sent(tick.apps@),
        sum_of_sent(tick.apps@) > u64::MAX ==> tick.total_rate_sent == u64::MAX,
        sum_of_recv(tick.apps@) <= u64::MAX ==> tick.total_rate_recv == sum_of_recv(tick.apps@),
        sum_of_recv(tick.apps@) > u64::MAX ==> tick.total_rate_recv == u64::MAX,
{
    lemma_rate_sums(tick.apps@, apps, elapsed(since, now));
}

/// A row's rates are bytes per second over the time that passed: what moved at that
/// rate in the time is what was counted, to within one byte a second. Its totals
/// are those counted since the application was first seen, and a tick has a row
/// for each application and no other.
pub proof fn law_rates_are_bytes_per_second(
    tick: StatsTick,
    apps: Seq<(Seq<char>, AppTotals)>,
    since: u64,
    now: u64,
    i: int,
)
    requires
        samples(tick, apps, since, now),
        since < now,
        0 <= i < apps.len(),
        apps[i].1.window.sent * 1000 <= u64::MAX,
        apps[i].1.window.recv * 1000 <= u64::MAX,
    ensures
        tick.at_ms == now,
        tick.apps@.len() == apps.len(),
        ({
            let row = tick.apps@[i];
            let w = apps[i].1.window;
            &&& row.app@ == apps[i].0
            &&& row.rate_sent * (now - since) <= w.sent * 1000
            &&& w.sent * 1000 < (row.rate_sent + 1) * (now - since)
            &&& row.rate_recv * (now - since) <= w.recv * 1000
            &&& w.recv * 1000 < (row.rate_recv + 1) * (now - since)
            &&& row.total.sent == apps[i].1.total.sent
            &&& row.total.recv == apps[i].1.total.recv
        }),
{
    let ms = (now - since) as nat;
    let w = apps[i].1.window;
    assert(reports(tick.apps@[i], apps[i], ms));
    lemma_rate(w.sent, ms);
    lemma_rate(w.recv, ms);
}

proof fn lemma_rate(bytes: u64, ms: nat)
    requires
        ms > 0,
        bytes * 1000 <= u64::MAX,
    ensures
        rate(bytes, ms) * ms <= bytes * 1000 < (rate(bytes, ms) + 1) * ms,
{
    let n = bytes as int * 1000;
    let m = ms as int;
    vstd::arithmetic::div_mod::lemma_fundamental_div_mod(n, m);
    vstd::arithmetic::div_mod::lemma_div_is_ordered_by_denominator(n, 1, m);
    vstd::arithmetic::div_mod::lemma_div_pos_is_pos(n, m);
    vstd::arithmetic::div_mod::lemma_mod_bound(n, m);
    assert(n / 1 == n);
    assert(rate(bytes, ms) == n / m);
    assert(m * (n / m) == (n / m) * m) by (nonlinear_arith);
    assert((n / m + 1) * m == (n / m) * m + m) by (nonlinear_arith);
}

/// Recording bytes adds them to the application's totals and to its current
/// window, sent and received apart, and leaves every other application as it is.
/// An application that is new starts at zero, and the first name given stays.
pub proof fn law_recorded_bytes_are_added(
    apps: Seq<(Seq<char>, AppTotals)>,
    app: Seq<char>,
    name: Option<Seq<char>>,
    sent: u64,
    recv: u64,
    other: Seq<char>,
)
    requires
        distinct(apps),
    ensures
        ({
            let was = lookup(apps, app);
            let now = lookup(after_record(apps, app, name, sent, recv), app)->0;
            let zero = ByteCounts { sent: 0, recv: 0 };
            let (total, window) = match was {
                Some(t) => (t.total, t.window),
                None => (zero, zero),
            };
            &&& lookup(after_record(apps, app, name, sent, recv), app) is Some
            &&& total.sent + sent <= u64::MAX ==> now.total.sent == total.sent + sent
            &&& total.recv + recv <= u64::MAX ==> now.total.recv == total.recv + recv
            &&& window.sent + sent <= u64::MAX ==> now.window.sent == window.sent + sent
            &&& window.recv + recv <= u64::MAX ==> now.window.recv == window.recv + recv
            &&& now.total.sent >= total.sent && now.total.recv >= total.recv
            &&& now.name == (if was is Some && was->0.name is Some {
                was->0.name
            } else {
                name
            })
            &&& other != app ==> lookup(after_record(apps, app, name, sent, recv), other) == lookup(
                apps,
                other,
            )
        }),
{
    let t = recorded(
        match lookup(apps, app) {
            Some(t) => t,
            None => untouched(),
        },
        name,
        sent,
        recv,
    );
    law_put(apps, app, t, other);
}

/// Bytes are reported in one window: a flush starts the next one at zero for every
/// application and keeps what was counted in all.
pub proof fn law_windows_start_at_zero(apps: Seq<(Seq<char>, AppTotals)>, i: int)
    requires
        0 <= i < apps.len(),
    ensures
        window_reset(apps).len() == apps.len(),
        window_reset(apps)[i].0 == apps[i].0,
        window_reset(apps)[i].1.window.sent == 0,
        window_reset(apps)[i].1.window.recv == 0,
        window_reset(apps)[i].1.total == apps[i].1.total,
        window_reset(apps)[i].1.name == apps[i].1.name,
{
}

} // verus!
