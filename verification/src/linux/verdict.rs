//! The firewall's life: installing its hook, adding and removing rules, holding
//! packets, and finding the program of a packet.

use crate::assoc::{has_key, lookup, put, Assoc, Key};
use crate::error::EngineError;
use crate::ip::IpAddr;
use crate::linux::fw::{
    decided, decision_view, no_rules, verdict_of, verdict_on, with_rule, without_id, Decided,
    PacketDecision, PendingConnection, RuleMap, Rules, Subject, Verdict, HOLD_MS, MAX_HELD,
    QUEUE_IN, QUEUE_OUT, SOCKETS_FRESH_MS, WORKER_COUNT,
};
use crate::linux::packet::PacketTuple;
use crate::linux::sockets::SockInfo;
use crate::model::{AppId, Direction};
use crate::rule::RuleAction;
use crate::text::{dec_text, owned, push_dec, trimmed};
use vstd::prelude::*;

verus! {

/// The rule set that queues the first packet of every new flow, in both
/// directions.
pub open spec fn table_text() -> Seq<char> {
    "table inet iris {\n    chain output {\n        type filter hook output priority -10; policy accept;\n        ct state new queue num "@
        + dec_text(QUEUE_OUT as nat)
        + "\n    }\n    chain input {\n        type filter hook input priority -10; policy accept;\n        ct state new queue num "@
        + dec_text(QUEUE_IN as nat) + "\n    }\n}\n"@
}

/// The rule set that queues the first packet of every new flow.
pub fn install_table() -> (r: String)
    ensures
        r@ == table_text(),
{
    let mut r = owned(
        "table inet iris {\n    chain output {\n        type filter hook output priority -10; policy accept;\n        ct state new queue num ",
    );
    push_dec(&mut r, QUEUE_OUT as u64);
    r.push_str(
        "\n    }\n    chain input {\n        type filter hook input priority -10; policy accept;\n        ct state new queue num ",
    );
    push_dec(&mut r, QUEUE_IN as u64);
    r.push_str("\n    }\n}\n");
    r
}

/// The firewall: its rules, the next rule's id, and whether its hook is in place.
pub struct Wfp {
    rules: RuleMap,
    next_id: u64,
    hooked: bool,
}

/// The error of a firewall whose workers are not all there.
pub open spec fn is_unhealthy(e: EngineError) -> bool {
    e matches EngineError::Os(m) && m@ == "firewall verdict worker is unavailable"@
}

fn unhealthy() -> (e: EngineError)
    ensures
        is_unhealthy(e),
{
    EngineError::Os(owned("firewall verdict worker is unavailable"))
}

/// Whether all workers are ready.
pub fn is_healthy(ready_workers: u8) -> (r: bool)
    ensures
        r == (ready_workers == WORKER_COUNT),
{
    ready_workers == WORKER_COUNT
}

/// A change of the rules that has begun: its rule's id, and whether the hook is to
/// be installed before it holds.
#[derive(Debug, Clone, Copy, PartialEq, Eq, Structural)]
pub struct Begun {
    pub id: u64,
    pub install: bool,
}

impl Wfp {
    /// The rules.
    pub closed spec fn rules(&self) -> Rules {
        self.rules.rules()
    }

    /// The next rule's id.
    pub closed spec fn next_id(&self) -> u64 {
        self.next_id
    }

    /// Whether the hook is in place.
    pub closed spec fn hooked(&self) -> bool {
        self.hooked
    }

    /// No rules and no hook.
    pub fn open() -> (w: Wfp)
        ensures
            w.rules() == no_rules(),
            w.next_id() == 1,
            !w.hooked(),
    {
        Wfp { rules: RuleMap::new(), next_id: 1, hooked: false }
    }

    /// The rules, for giving verdicts.
    pub fn rule_map(&self) -> (r: &RuleMap)
        ensures
            r.rules() == self.rules(),
    {
        &self.rules
    }

    /// Drops every rule. The hook is then removed and installed again; `installed`
    /// is what came of that. Where it failed there is no hook, and the next change
    /// of the rules installs it.
    pub fn reset(&mut self, installed: Result<(), EngineError>) -> (r: Result<(), EngineError>)
        ensures
            final(self).rules() == no_rules(),
            final(self).next_id() == old(self).next_id(),
            final(self).hooked() == installed is Ok,
            r is Ok == installed is Ok,
            r is Err ==> r->Err_0 == installed->Err_0,
    {
        self.rules = RuleMap::new();
        match installed {
            Ok(()) => {
                self.hooked = true;
                Ok(())
            },
            Err(e) => {
                self.hooked = false;
                Err(e)
            },
        }
    }

    /// Begins to enforce a rule: it gets an id and counts from now on. Without all
    /// workers nothing changes.
    pub fn begin_apply(
        &mut self,
        ready_workers: u8,
        path: &str,
        direction: Direction,
        action: RuleAction,
    ) -> (r: Result<Begun, EngineError>)
        ensures
            final(self).hooked() == old(self).hooked(),
            if ready_workers == WORKER_COUNT {
                &&& r == Ok::<Begun, EngineError>(
                    Begun { id: old(self).next_id(), install: !old(self).hooked() },
                )
                &&& final(self).rules() == with_rule(
                    old(self).rules(),
                    old(self).next_id(),
                    (Subject { app: trimmed(path@), direction }),
                    action,
                )
                &&& final(self).next_id() == old(self).next_id().wrapping_add(1)
            } else {
                &&& r is Err && is_unhealthy(r->Err_0)
                &&& final(self).rules() == old(self).rules()
                &&& final(self).next_id() == old(self).next_id()
            },
    {
        if !is_healthy(ready_workers) {
            return Err(unhealthy());
        }
        let id: u64 = self.next_id;
        self.next_id = self.next_id.wrapping_add(1);
        let key = AppId::from_path(path).0;
        self.rules.insert(id, key, direction, action);
        Ok(Begun { id, install: !self.hooked })
    }

    /// Ends what [`Wfp::begin_apply`] began. Where the workers went away or the
    /// hook could not be installed, the rule goes again.
    pub fn finish_apply(
        &mut self,
        begun: Begun,
        ready_workers: u8,
        installed: Result<(), EngineError>,
    ) -> (r: Result<Vec<u64>, EngineError>)
        ensures
            final(self).next_id() == old(self).next_id(),
            if ready_workers != WORKER_COUNT {
                &&& r is Err && is_unhealthy(r->Err_0)
                &&& final(self).rules() == without_id(old(self).rules(), begun.id)
                &&& final(self).hooked() == old(self).hooked()
            } else if begun.install && installed is Err {
                &&& r == Err::<Vec<u64>, EngineError>(installed->Err_0)
                &&& final(self).rules() == without_id(old(self).rules(), begun.id)
                &&& final(self).hooked() == old(self).hooked()
            } else {
                &&& r matches Ok(ids) && ids@ == seq![begun.id]
                &&& final(self).rules() == old(self).rules()
                &&& final(self).hooked() == (old(self).hooked() || begun.install)
            },
    {
        if !is_healthy(ready_workers) {
            self.rules.remove_id(begun.id);
            return Err(unhealthy());
        }
        if begun.install {
            match installed {
                Ok(()) => {
                    self.hooked = true;
                },
                Err(e) => {
                    self.rules.remove_id(begun.id);
                    return Err(e);
                },
            }
        }
        Ok(vec![begun.id])
    }

    /// Removes rules. Gives whether the hook is to be installed before
    /// [`Wfp::finish_remove`]. Without all workers nothing changes.
    pub fn remove(&mut self, ready_workers: u8, ids: &Vec<u64>) -> (r: Result<bool, EngineError>)
        ensures
            final(self).next_id() == old(self).next_id(),
            final(self).hooked() == old(self).hooked(),
            if ready_workers == WORKER_COUNT {
                &&& r == Ok::<bool, EngineError>(!old(self).hooked())
                &&& final(self).rules() == without_ids(old(self).rules(), ids@)
            } else {
                &&& r is Err && is_unhealthy(r->Err_0)
                &&& final(self).rules() == old(self).rules()
            },
    {
        if !is_healthy(ready_workers) {
            return Err(unhealthy());
        }
        let mut i: usize = 0;
        assert(ids@.take(0) =~= Seq::empty());
        while i < ids.len()
            invariant
                i <= ids@.len(),
                self.next_id() == old(self).next_id(),
                self.hooked() == old(self).hooked(),
                self.rules() == without_ids(old(self).rules(), ids@.take(i as int)),
            decreases ids@.len() - i,
        {
            assert(ids@.take(i + 1).drop_last() =~= ids@.take(i as int));
            self.rules.remove_id(ids[i]);
            i += 1;
        }
        assert(ids@.take(i as int) =~= ids@);
        Ok(!self.hooked)
    }

    /// Ends what [`Wfp::remove`] began. Where the workers went away or the hook was
    /// to be installed and could not be, that is an error; the rules are gone all
    /// the same.
    pub fn finish_remove(
        &mut self,
        ready_workers: u8,
        installed: Result<(), EngineError>,
    ) -> (r: Result<(), EngineError>)
        ensures
            final(self).rules() == old(self).rules(),
            final(self).next_id() == old(self).next_id(),
            if ready_workers != WORKER_COUNT {
                &&& r is Err && is_unhealthy(r->Err_0)
                &&& final(self).hooked() == old(self).hooked()
            } else if !old(self).hooked() && installed is Err {
                &&& r == Err::<(), EngineError>(installed->Err_0)
                &&& !final(self).hooked()
            } else {
                &&& r is Ok
                &&& final(self).hooked()
            },
    {
        if !is_healthy(ready_workers) {
            return Err(unhealthy());
        }
        if !self.hooked {
            match installed {
                Ok(()) => {
                    self.hooked = true;
                },
                Err(e) => {
                    return Err(e);
                },
            }
        }
        Ok(())
    }

    /// Trusts applications.
    pub fn trust_apps(&mut self, paths: &Vec<String>)
        ensures
            final(self).rules() == crate::linux::fw::trusting(
                old(self).rules(),
                paths@.map_values(|s: String| s@),
            ),
            final(self).next_id() == old(self).next_id(),
            final(self).hooked() == old(self).hooked(),
    {
        self.rules.trust(paths);
    }

    /// Stops trusting an application.
    pub fn forget_app(&mut self, path: &str)
        ensures
            final(self).rules() == crate::linux::fw::forgetting(old(self).rules(), path@),
            final(self).next_id() == old(self).next_id(),
            final(self).hooked() == old(self).hooked(),
    {
        self.rules.forget(path);
    }
}

/// Rules without those of several ids.
pub open spec fn without_ids(r: Rules, ids: Seq<u64>) -> Rules
    decreases ids.len(),
{
    if ids.len() == 0 {
        r
    } else {
        without_id(without_ids(r, ids.drop_last()), ids.last())
    }
}

/// A packet that waits for a decision. `ticket` identifies it to whoever holds its
/// bytes.
#[derive(Debug, PartialEq, Eq)]
pub struct HeldPacket {
    pub ticket: u64,
    pub app: String,
    pub since: u64,
}

/// A packet that waits, as contracts see it.
pub ghost struct Held {
    pub ticket: u64,
    pub app: Seq<char>,
    pub since: u64,
}

/// Packets that wait, as contracts see them.
pub open spec fn held_views(v: Seq<HeldPacket>) -> Seq<Held> {
    v.map_values(|h: HeldPacket| Held { ticket: h.ticket, app: h.app@, since: h.since })
}

/// The verdict on a packet that waits, where it is time for one: the rules decide,
/// and without a rule it is dropped after a while.
pub open spec fn late_verdict(r: Rules, direction: Direction, h: Held, now: u64) -> Option<Verdict> {
    match verdict_of(r, direction, h.app) {
        Some(a) => Some(verdict_on(a)),
        None => if now - h.since >= HOLD_MS {
            Some(Verdict::Drop)
        } else {
            None
        },
    }
}

/// The verdicts on packets that wait.
pub open spec fn late_verdicts(r: Rules, direction: Direction, held: Seq<Held>, now: u64) -> Seq<
    (u64, Verdict),
>
    decreases held.len(),
{
    if held.len() == 0 {
        Seq::empty()
    } else {
        let before = late_verdicts(r, direction, held.drop_last(), now);
        match late_verdict(r, direction, held.last(), now) {
            Some(v) => before.push((held.last().ticket, v)),
            None => before,
        }
    }
}

/// The packets that wait on.
pub open spec fn still_held(r: Rules, direction: Direction, held: Seq<Held>, now: u64) -> Seq<Held>
    decreases held.len(),
{
    if held.len() == 0 {
        Seq::empty()
    } else {
        let before = still_held(r, direction, held.drop_last(), now);
        match late_verdict(r, direction, held.last(), now) {
            Some(_) => before,
            None => before.push(held.last()),
        }
    }
}

/// Whether a packet of an application waits.
pub open spec fn app_waits(held: Seq<Held>, app: Seq<char>) -> bool {
    exists|i: int| 0 <= i < held.len() && (#[trigger] held[i]).app == app
}

/// The applications of which a packet waits.
pub open spec fn waiting_apps(apps: Seq<Seq<char>>, held: Seq<Held>) -> Seq<Seq<char>> {
    apps.filter(|a: Seq<char>| app_waits(held, a))
}

/// A queue after a packet came: what waits, what was reported, the verdict to give
/// now, and whether the packet's connection is reported.
#[verifier::ext_equal]
pub ghost struct Arrival {
    pub held: Seq<Held>,
    pub notified: Seq<Seq<char>>,
    pub verdict: Option<Verdict>,
    pub reported: bool,
}

/// A queue after a packet came.
pub open spec fn arrived(
    held: Seq<Held>,
    notified: Seq<Seq<char>>,
    ticket: u64,
    d: Decided,
    now: u64,
) -> Arrival {
    match d {
        Decided::Verdict(v) => Arrival { held, notified, verdict: Some(v), reported: false },
        Decided::Waits { app, .. } => {
            let room = held.len() < MAX_HELD;
            let told = notified.contains(app);
            Arrival {
                held: if room {
                    held.push(Held { ticket, app, since: now })
                } else {
                    held
                },
                notified: if told {
                    notified
                } else {
                    notified.push(app)
                },
                verdict: if room {
                    None
                } else {
                    Some(Verdict::Drop)
                },
                reported: !told,
            }
        },
    }
}

/// A packet that was decided gets its verdict at once and changes nothing else.
pub proof fn law_decided_packets_are_answered_at_once(
    held: Seq<Held>,
    notified: Seq<Seq<char>>,
    ticket: u64,
    v: Verdict,
    now: u64,
)
    ensures
        ({
            let a = arrived(held, notified, ticket, Decided::Verdict(v), now);
            a.verdict == Some(v) && !a.reported && a.held == held && a.notified == notified
        }),
{
}

/// A packet that waits for the user is kept, and gets the verdict of the rule that
/// answers: dropped where that blocks, let through where that allows. Where five
/// hundred and twelve packets wait already it is dropped.
pub proof fn law_a_packet_is_held_for_its_answer(
    held: Seq<Held>,
    notified: Seq<Seq<char>>,
    ticket: u64,
    app: Seq<char>,
    remote: crate::model::Endpoint,
    direction: Direction,
    now: u64,
    r: Rules,
    later: u64,
)
    ensures
        ({
            let a = arrived(
                held,
                notified,
                ticket,
                Decided::Waits { app, remote, direction },
                now,
            );
            let before = late_verdicts(r, direction, held, later);
            let out = late_verdicts(r, direction, a.held, later);
            &&& held.len() >= 512 ==> a.verdict == Some(Verdict::Drop) && a.held == held
            &&& held.len() < 512 ==> a.verdict is None
            &&& held.len() < 512 && verdict_of(r, direction, app) == Some(RuleAction::Block)
                ==> out == before.push((ticket, Verdict::Drop))
            &&& held.len() < 512 && verdict_of(r, direction, app) == Some(RuleAction::Allow)
                ==> out == before.push((ticket, Verdict::Accept))
            &&& held.len() < 512 && verdict_of(r, direction, app) is None && later - now < 120_000
                ==> out == before
            &&& held.len() < 512 && verdict_of(r, direction, app) is None && later - now >= 120_000
                ==> out == before.push((ticket, Verdict::Drop))
        }),
{
    let a = arrived(held, notified, ticket, Decided::Waits { app, remote, direction }, now);
    if held.len() < 512 {
        assert(a.held.drop_last() =~= held);
    }
}

/// Whether every program of which a packet waits was reported, and none twice.
pub open spec fn all_told(held: Seq<Held>, notified: Seq<Seq<char>>) -> bool {
    &&& forall|i: int| 0 <= i < held.len() ==> notified.contains((#[trigger] held[i]).app)
    &&& notified.no_duplicates()
}

/// A program is reported when its first packet comes to wait and not again while
/// one of its packets waits, so that the user is asked once; every program of which
/// a packet waits was reported.
pub proof fn law_the_user_is_asked_once(
    held: Seq<Held>,
    notified: Seq<Seq<char>>,
    ticket: u64,
    d: Decided,
    now: u64,
)
    requires
        all_told(held, notified),
    ensures
        ({
            let a = arrived(held, notified, ticket, d, now);
            &&& all_told(a.held, a.notified)
            &&& a.reported == (d is Waits && !notified.contains(d->app))
            &&& d is Waits ==> a.notified.contains(d->app)
            &&& forall|x: Seq<char>| #[trigger]
                a.notified.contains(x) ==> notified.contains(x) || a.reported && x == d->app
        }),
{
    let a = arrived(held, notified, ticket, d, now);
    if let Decided::Waits { app, .. } = d {
        if !notified.contains(app) {
            assert(a.notified[notified.len() as int] == app);
            assert forall|x: Seq<char>| notified.contains(x) implies #[trigger] a.notified.contains(
                x,
            ) by {
                let i = choose|i: int| 0 <= i < notified.len() && notified[i] == x;
                assert(a.notified[i] == x);
            }
            assert forall|i: int, j: int|
                0 <= i < j < a.notified.len() implies a.notified[i] != a.notified[j] by {
                if j == notified.len() {
                    assert(notified.contains(notified[i]));
                }
            }
        }
        assert forall|i: int| 0 <= i < a.held.len() implies a.notified.contains(
            (#[trigger] a.held[i]).app,
        ) by {
            if i < held.len() {
                assert(a.held[i] == held[i]);
            }
        }
    }
}

/// A look at the queue leaves reported exactly the programs of which a packet still
/// waits, so that the user can be asked again about a program that was answered.
pub proof fn law_answered_programs_may_be_asked_about_again(
    r: Rules,
    direction: Direction,
    held: Seq<Held>,
    notified: Seq<Seq<char>>,
    now: u64,
    app: Seq<char>,
)
    requires
        all_told(held, notified),
    ensures
        ({
            let kept = still_held(r, direction, held, now);
            let told = waiting_apps(notified, kept);
            &&& all_told(kept, told)
            &&& told.contains(app) == (exists|i: int|
                0 <= i < kept.len() && (#[trigger] kept[i]).app == app)
            &&& verdict_of(r, direction, app) is Some ==> !told.contains(app)
        }),
{
    let kept = still_held(r, direction, held, now);
    let p = |a: Seq<char>| app_waits(kept, a);
    let told = notified.filter(p);
    lemma_kept(r, direction, held, now);
    broadcast use Seq::lemma_filter_contains, Seq::lemma_filter_pred;

    lemma_filter_distinct(notified, p);
    assert forall|i: int| 0 <= i < kept.len() implies told.contains((#[trigger] kept[i]).app) by {
        assert(held.contains(kept[i]));
        let j = choose|j: int| 0 <= j < held.len() && held[j] == kept[i];
        assert(notified.contains(held[j].app));
        let n = choose|n: int| 0 <= n < notified.len() && notified[n] == kept[i].app;
        assert(app_waits(kept, kept[i].app));
        assert(p(notified[n]));
        assert(told.contains(notified[n]));
    }
    if told.contains(app) {
        let n = choose|n: int| 0 <= n < told.len() && told[n] == app;
        assert(p(told[n]));
    }
}

proof fn lemma_filter_distinct(s: Seq<Seq<char>>, p: spec_fn(Seq<char>) -> bool)
    requires
        s.no_duplicates(),
    ensures
        s.filter(p).no_duplicates(),
    decreases s.len(),
{
    reveal(Seq::filter);
    if s.len() > 0 {
        let front = s.drop_last();
        lemma_filter_distinct(front, p);
        let f = front.filter(p);
        assert forall|i: int| 0 <= i < f.len() implies #[trigger] f[i] != s.last() by {
            assert(f.contains(f[i]));
            front.lemma_filter_contains_rev(p, f[i]);
            let j = choose|j: int| 0 <= j < front.len() && front[j] == f[i];
            assert(s[j] == f[i]);
        }
    }
}

proof fn lemma_kept(r: Rules, direction: Direction, held: Seq<Held>, now: u64)
    ensures
        forall|i: int|
            0 <= i < still_held(r, direction, held, now).len() ==> held.contains(
                #[trigger] still_held(r, direction, held, now)[i],
            ) && verdict_of(r, direction, still_held(r, direction, held, now)[i].app) is None,
    decreases held.len(),
{
    if held.len() > 0 {
        let front = held.drop_last();
        let kept = still_held(r, direction, held, now);
        lemma_kept(r, direction, front, now);
        assert forall|i: int| 0 <= i < kept.len() implies held.contains(#[trigger] kept[i])
            && verdict_of(r, direction, kept[i].app) is None by {
            if i < still_held(r, direction, front, now).len() {
                assert(kept[i] == still_held(r, direction, front, now)[i]);
                let j = choose|j: int| 0 <= j < front.len() && front[j] == kept[i];
                assert(held[j] == kept[i]);
            } else {
                assert(held[held.len() - 1] == kept[i]);
            }
        }
    }
}

/// The packets that wait in one queue, and the applications that were reported.
pub struct PacketQueue {
    held: Vec<HeldPacket>,
    notified: Vec<String>,
}

/// What to do with a packet that came.
#[derive(Debug, PartialEq, Eq)]
pub struct PacketAction {
    /// The verdict to give now; without one the packet is kept.
    pub verdict: Option<Verdict>,
    /// The connection to report.
    pub report: Option<PendingConnection>,
}

impl PacketQueue {
    /// The packets that wait.
    pub closed spec fn held(&self) -> Seq<Held> {
        held_views(self.held@)
    }

    /// The applications that were reported.
    pub closed spec fn notified(&self) -> Seq<Seq<char>> {
        self.notified@.map_values(|s: String| s@)
    }

    /// Whether no more packets wait than may.
    pub open spec fn wf(&self) -> bool {
        self.held().len() <= MAX_HELD
    }

    /// No packet.
    pub fn new() -> (q: PacketQueue)
        ensures
            q.wf(),
            q.held() == Seq::<Held>::empty(),
            q.notified() == Seq::<Seq<char>>::empty(),
    {
        let q = PacketQueue { held: Vec::new(), notified: Vec::new() };
        assert(q.held() =~= Seq::empty());
        assert(q.notified() =~= Seq::empty());
        q
    }

    fn waits(held: &Vec<HeldPacket>, app: &String) -> (r: bool)
        ensures
            r == app_waits(held_views(held@), app@),
    {
        let ghost all = held_views(held@);
        let mut i: usize = 0;
        while i < held.len()
            invariant
                i <= held@.len(),
                all == held_views(held@),
                forall|j: int| 0 <= j < i ==> (#[trigger] all[j]).app != app@,
            decreases held@.len() - i,
        {
            assert(all[i as int].app == held@[i as int].app@);
            if held[i].app == *app {
                assert(all[i as int].app == app@);
                return true;
            }
            i += 1;
        }
        false
    }

    /// Looks at the packets that wait. Gives the verdicts to give now; an
    /// application of which no packet waits any more may be reported again.
    pub fn review(&mut self, rules: &RuleMap, direction: Direction, now: u64) -> (out: Vec<
        (u64, Verdict),
    >)
        requires
            old(self).wf(),
        ensures
            final(self).wf(),
            out@ == late_verdicts(rules.rules(), direction, old(self).held(), now),
            final(self).held() == still_held(rules.rules(), direction, old(self).held(), now),
            final(self).notified() == waiting_apps(old(self).notified(), final(self).held()),
    {
        let mut out: Vec<(u64, Verdict)> = Vec::new();
        let mut held: Vec<HeldPacket> = Vec::new();
        let ghost r = rules.rules();
        let ghost all = self.held();
        let mut i: usize = 0;
        assert(all.take(0) =~= Seq::empty());
        assert(held_views(held@) =~= Seq::empty());
        while i < self.held.len()
            invariant
                i <= self.held@.len(),
                self.held@.len() <= MAX_HELD,
                all == held_views(self.held@),
                r == rules.rules(),
                self.notified@ == old(self).notified@,
                out@ == late_verdicts(r, direction, all.take(i as int), now),
                held_views(held@) == still_held(r, direction, all.take(i as int), now),
                held@.len() <= i,
            decreases self.held@.len() - i,
        {
            let h = &self.held[i];
            let ghost was = held_views(held@);
            proof {
                assert(all.take(i + 1).drop_last() =~= all.take(i as int));
                assert(all.take(i + 1).last() == all[i as int]);
                assert(all[i as int] == Held { ticket: h.ticket, app: h.app@, since: h.since });
            }
            let verdict = match rules.lookup(direction, &h.app) {
                Some(RuleAction::Allow) => Some(Verdict::Accept),
                Some(RuleAction::Block) => Some(Verdict::Drop),
                None => if now.saturating_sub(h.since) >= HOLD_MS {
                    Some(Verdict::Drop)
                } else {
                    None
                },
            };
            match verdict {
                Some(v) => {
                    out.push((h.ticket, v));
                },
                None => {
                    held.push(
                        HeldPacket { ticket: h.ticket, app: h.app.clone(), since: h.since },
                    );
                    assert(held_views(held@) =~= was.push(all[i as int]));
                },
            }
            i += 1;
        }
        assert(all.take(i as int) =~= all);
        let mut notified: Vec<String> = Vec::new();
        let ghost apps = self.notified();
        let ghost kept = held_views(held@);
        let ghost keep = |a: Seq<char>| app_waits(kept, a);
        let mut k: usize = 0;
        assert(apps.take(0).filter(keep) =~= Seq::empty());
        assert(notified@.map_values(|s: String| s@) =~= Seq::empty());
        while k < self.notified.len()
            invariant
                k <= self.notified@.len(),
                apps == self.notified@.map_values(|s: String| s@),
                kept == held_views(held@),
                keep == (|a: Seq<char>| app_waits(kept, a)),
                notified@.map_values(|s: String| s@) == apps.take(k as int).filter(keep),
            decreases self.notified@.len() - k,
        {
            let ghost was = notified@.map_values(|s: String| s@);
            let app = &self.notified[k];
            proof {
                assert(apps.take(k + 1) =~= apps.take(k as int).push(app@));
                apps.take(k as int).lemma_filter_push(app@, keep);
            }
            if PacketQueue::waits(&held, app) {
                notified.push(app.clone());
                assert(notified@.map_values(|s: String| s@) =~= was.push(app@));
            }
            k += 1;
        }
        assert(apps.take(k as int) =~= apps);
        self.held = held;
        self.notified = notified;
        out
    }

    /// Takes the decision about a packet that came. A packet that waits is kept
    /// while there is room; its application is reported once for as long as a
    /// packet of it waits.
    pub fn on_packet(&mut self, ticket: u64, decision: PacketDecision, now: u64) -> (a: PacketAction)
        requires
            old(self).wf(),
        ensures
            final(self).wf(),
            ({
                let after = arrived(
                    old(self).held(),
                    old(self).notified(),
                    ticket,
                    decision_view(decision),
                    now,
                );
                &&& final(self).held() == after.held
                &&& final(self).notified() == after.notified
                &&& a.verdict == after.verdict
                &&& a.report == (match decision {
                    PacketDecision::Pending(c) if after.reported => Some(c),
                    _ => None,
                })
            }),
    {
        match decision {
            PacketDecision::Verdict(v) => PacketAction { verdict: Some(v), report: None },
            PacketDecision::Pending(c) => {
                let app = c.app.0.clone();
                let ghost apps = self.notified();
                let mut told: bool = false;
                let mut i: usize = 0;
                while i < self.notified.len()
                    invariant
                        i <= self.notified@.len(),
                        *self == *old(self),
                        apps == self.notified@.map_values(|s: String| s@),
                        told == (exists|j: int| 0 <= j < i && #[trigger] apps[j] == app@),
                    decreases self.notified@.len() - i,
                {
                    assert(apps[i as int] == self.notified@[i as int]@);
                    if self.notified[i] == app {
                        told = true;
                    }
                    i += 1;
                }
                assert(told == apps.contains(app@));
                if !told {
                    self.notified.push(app.clone());
                    assert(self.notified() =~= apps.push(app@));
                }
                let room: bool = self.held.len() < MAX_HELD;
                if room {
                    let ghost was = self.held();
                    self.held.push(HeldPacket { ticket, app, since: now });
                    assert(self.held() =~= was.push(Held { ticket, app: c.app@, since: now }));
                }
                PacketAction {
                    verdict: if room {
                        None
                    } else {
                        Some(Verdict::Drop)
                    },
                    report: if told {
                        None
                    } else {
                        Some(c)
                    },
                }
            },
        }
    }

    /// The packets to drop when the queue ends.
    pub fn close(&mut self) -> (out: Vec<u64>)
        ensures
            out@ == old(self).held().map_values(|h: Held| h.ticket),
            final(self).held() == Seq::<Held>::empty(),
            final(self).notified() == old(self).notified(),
    {
        let ghost all = self.held();
        let mut out: Vec<u64> = Vec::new();
        let mut i: usize = 0;
        while i < self.held.len()
            invariant
                i <= self.held@.len(),
                *self == *old(self),
                all == held_views(self.held@),
                out@ == all.take(i as int).map_values(|h: Held| h.ticket),
            decreases self.held@.len() - i,
        {
            let ghost was = out@;
            out.push(self.held[i].ticket);
            assert(all.take(i + 1).map_values(|h: Held| h.ticket) =~= was.push(
                all[i as int].ticket,
            ));
            i += 1;
        }
        assert(all.take(i as int) =~= all);
        self.held = Vec::new();
        assert(self.held() =~= Seq::empty());
        out
    }
}

/// Every packet that waits either gets a verdict or waits on, and none waits
/// longer than it may.
pub proof fn law_held_packets_are_answered(r: Rules, direction: Direction, held: Seq<Held>, now: u64)
    ensures
        late_verdicts(r, direction, held, now).len() + still_held(r, direction, held, now).len()
            == held.len(),
        forall|i: int|
            0 <= i < still_held(r, direction, held, now).len() ==> now - (
            #[trigger] still_held(r, direction, held, now)[i]).since < HOLD_MS,
    decreases held.len(),
{
    if held.len() > 0 {
        law_held_packets_are_answered(r, direction, held.drop_last(), now);
    }
}

proof fn lemma_late_join(r: Rules, direction: Direction, a: Seq<Held>, b: Seq<Held>, now: u64)
    ensures
        late_verdicts(r, direction, a + b, now) == late_verdicts(r, direction, a, now)
            + late_verdicts(r, direction, b, now),
        still_held(r, direction, a + b, now) == still_held(r, direction, a, now) + still_held(
            r,
            direction,
            b,
            now,
        ),
    decreases b.len(),
{
    if b.len() == 0 {
        assert(a + b =~= a);
        assert(late_verdicts(r, direction, a, now) + Seq::empty() =~= late_verdicts(
            r,
            direction,
            a,
            now,
        ));
        assert(still_held(r, direction, a, now) + Seq::empty() =~= still_held(
            r,
            direction,
            a,
            now,
        ));
    } else {
        lemma_late_join(r, direction, a, b.drop_last(), now);
        assert((a + b).drop_last() =~= a + b.drop_last());
        assert((a + b).last() == b.last());
        assert(late_verdicts(r, direction, a + b, now) =~= late_verdicts(r, direction, a, now)
            + late_verdicts(r, direction, b, now));
        assert(still_held(r, direction, a + b, now) =~= still_held(r, direction, a, now)
            + still_held(r, direction, b, now));
    }
}

/// A packet that waits gets the verdict that its rule gives, wherever in the queue
/// it stands: it is dropped where its program is blocked and let through where its
/// program is allowed. Without a rule it is dropped after two minutes and waits on
/// until then. The other packets are answered as they are without it.
pub proof fn law_held_packets_follow_their_rule(
    r: Rules,
    direction: Direction,
    before: Seq<Held>,
    h: Held,
    after: Seq<Held>,
    now: u64,
)
    ensures
        ({
            let rule = verdict_of(r, direction, h.app);
            let all = before + seq![h] + after;
            let given = if rule == Some(RuleAction::Block) {
                seq![(h.ticket, Verdict::Drop)]
            } else if rule == Some(RuleAction::Allow) {
                seq![(h.ticket, Verdict::Accept)]
            } else if now - h.since >= 120_000 {
                seq![(h.ticket, Verdict::Drop)]
            } else {
                Seq::empty()
            };
            &&& late_verdicts(r, direction, all, now) == late_verdicts(r, direction, before, now)
                + given + late_verdicts(r, direction, after, now)
            &&& still_held(r, direction, all, now) == still_held(r, direction, before, now) + (
            if given.len() == 0 {
                seq![h]
            } else {
                Seq::empty()
            }) + still_held(r, direction, after, now)
        }),
{
    let one = seq![h];
    lemma_late_join(r, direction, before + one, after, now);
    lemma_late_join(r, direction, before, one, now);
    assert(one.drop_last() =~= Seq::empty());
    assert(late_verdicts(r, direction, one.drop_last(), now) == Seq::<(u64, Verdict)>::empty());
    assert(still_held(r, direction, one.drop_last(), now) == Seq::<Held>::empty());
    assert(Seq::<(u64, Verdict)>::empty().push((h.ticket, Verdict::Drop)) =~= seq![
        (h.ticket, Verdict::Drop),
    ]);
    assert(Seq::<(u64, Verdict)>::empty().push((h.ticket, Verdict::Accept)) =~= seq![
        (h.ticket, Verdict::Accept),
    ]);
    assert(Seq::<Held>::empty().push(h) =~= seq![h]);
}

/// The user's answer reaches the packet that waits for it: once a rule is added,
/// the packet gets the verdict that a new packet of the same program gets.
pub proof fn law_the_answer_reaches_the_waiting_packet(
    r: Rules,
    id: u64,
    direction: Direction,
    h: Held,
    action: RuleAction,
    now: u64,
    t: PacketTuple,
    exe: Seq<char>,
)
    requires
        crate::assoc::distinct(r.out),
        crate::assoc::distinct(r.inbound),
        trimmed(exe) == h.app,
    ensures
        ({
            let ruled = with_rule(r, id, Subject { app: h.app, direction }, action);
            let out = late_verdicts(ruled, direction, seq![h], now);
            &&& out.len() == 1
            &&& out[0].0 == h.ticket
            &&& out[0].1 == (match action {
                RuleAction::Block => Verdict::Drop,
                RuleAction::Allow => Verdict::Accept,
            })
            &&& decided(Some(t), direction, ruled, Some(exe)) == Decided::Verdict(out[0].1)
        }),
{
    let s = Subject { app: h.app, direction };
    let ruled = with_rule(r, id, s, action);
    crate::linux::fw::law_a_rule_decides(r, id, s, action, direction, h.app);
    crate::linux::fw::law_packets_follow_the_rule(r, id, t, direction, exe);
    law_held_packets_follow_their_rule(ruled, direction, Seq::empty(), h, Seq::empty(), now);
    assert(Seq::<Held>::empty() + seq![h] + Seq::empty() =~= seq![h]);
}

impl Key for (IpAddr, u16) {
    type Id = (IpAddr, u16);

    open spec fn id(&self) -> (IpAddr, u16) {
        *self
    }

    fn same(&self, other: &Self) -> (r: bool) {
        self.0 == other.0 && self.1 == other.1
    }
}

/// Sockets by local endpoint; the first one listed with an endpoint has it.
pub open spec fn by_local(socks: Seq<SockInfo>) -> Seq<((IpAddr, u16), u32)>
    decreases socks.len(),
{
    if socks.len() == 0 {
        Seq::empty()
    } else {
        let before = by_local(socks.drop_last());
        let s = socks.last();
        if has_key(before, s.local) {
            before
        } else {
            put(before, s.local, s.inode)
        }
    }
}

/// The address that stands for every address of a family.
pub open spec fn wildcard(a: IpAddr) -> IpAddr {
    match a {
        IpAddr::V4(_) => IpAddr::V4(0),
        IpAddr::V6(_) => IpAddr::V6(0),
    }
}

/// The process of a local endpoint: the owner of the socket that is bound to it,
/// or else to its port at every address.
pub open spec fn pid_at(
    table: Seq<((IpAddr, u16), u32)>,
    owners: Seq<(u64, u32)>,
    local: (IpAddr, u16),
) -> Option<u32> {
    let inode = match lookup(table, local) {
        Some(i) => Some(i),
        None => lookup(table, (wildcard(local.0), local.1)),
    };
    match inode {
        Some(i) => lookup(owners, i as u64),
        None => None,
    }
}

proof fn lemma_by_local(socks: Seq<SockInfo>, local: (IpAddr, u16))
    ensures
        crate::assoc::distinct(by_local(socks)),
        (forall|j: int| 0 <= j < socks.len() ==> (#[trigger] socks[j]).local != local) ==> !has_key(
            by_local(socks),
            local,
        ),
    decreases socks.len(),
{
    if socks.len() > 0 {
        let front = socks.drop_last();
        let s = socks.last();
        let before = by_local(front);
        lemma_by_local(front, local);
        crate::assoc::law_put(before, s.local, s.inode, local);
        if forall|j: int| 0 <= j < socks.len() ==> (#[trigger] socks[j]).local != local {
            assert forall|j: int| 0 <= j < front.len() implies (#[trigger] front[j]).local
                != local by {
                assert(front[j] == socks[j]);
            }
            assert(s == socks[socks.len() - 1]);
        }
    }
}

proof fn lemma_first_at(socks: Seq<SockInfo>, local: (IpAddr, u16), i: int)
    requires
        0 <= i < socks.len(),
        socks[i].local == local,
        forall|j: int| 0 <= j < i ==> (#[trigger] socks[j]).local != local,
    ensures
        lookup(by_local(socks), local) == Some(socks[i].inode),
    decreases socks.len(),
{
    let front = socks.drop_last();
    let s = socks.last();
    let before = by_local(front);
    lemma_by_local(front, local);
    crate::assoc::law_put(before, s.local, s.inode, local);
    if i < front.len() {
        assert(front[i] == socks[i]);
        assert forall|j: int| 0 <= j < i implies (#[trigger] front[j]).local != local by {
            assert(front[j] == socks[j]);
        }
        lemma_first_at(front, local, i);
    } else {
        assert forall|j: int| 0 <= j < front.len() implies (#[trigger] front[j]).local != local by {
            assert(front[j] == socks[j]);
        }
    }
}

/// The process of a packet is the one that holds the first listed socket with
/// exactly the packet's local endpoint, whatever else is listed.
pub proof fn law_the_exact_socket_comes_first(
    socks: Seq<SockInfo>,
    owners: Seq<(u64, u32)>,
    local: (IpAddr, u16),
    i: int,
    k: int,
)
    requires
        crate::assoc::distinct(owners),
        0 <= i < socks.len(),
        socks[i].local == local,
        forall|j: int| 0 <= j < i ==> (#[trigger] socks[j]).local != local,
        0 <= k < owners.len(),
        owners[k].0 == socks[i].inode,
    ensures
        pid_at(by_local(socks), owners, local) == Some(owners[k].1),
{
    lemma_first_at(socks, local, i);
    lemma_owner(owners, k);
}

proof fn lemma_owner(owners: Seq<(u64, u32)>, k: int)
    requires
        crate::assoc::distinct(owners),
        0 <= k < owners.len(),
    ensures
        lookup(owners, owners[k].0) == Some(owners[k].1),
{
    assert forall|j: int| 0 <= j < k implies (#[trigger] owners[j]).0 != owners[k].0 by {}
    crate::assoc::lemma_position_is(owners, owners[k].0, k);
}

/// Where no socket has a packet's local endpoint, the process is the one that holds
/// the first listed socket on the port at the address of all zeros of the same
/// family.
pub proof fn law_the_socket_on_the_port_comes_next(
    socks: Seq<SockInfo>,
    owners: Seq<(u64, u32)>,
    local: (IpAddr, u16),
    zero: IpAddr,
    i: int,
    k: int,
)
    requires
        crate::assoc::distinct(owners),
        zero == (if local.0 is V4 {
            IpAddr::V4(0)
        } else {
            IpAddr::V6(0)
        }),
        forall|j: int| 0 <= j < socks.len() ==> (#[trigger] socks[j]).local != local,
        0 <= i < socks.len(),
        socks[i].local == (zero, local.1),
        forall|j: int| 0 <= j < i ==> (#[trigger] socks[j]).local != (zero, local.1),
        0 <= k < owners.len(),
        owners[k].0 == socks[i].inode,
    ensures
        pid_at(by_local(socks), owners, local) == Some(owners[k].1),
{
    lemma_by_local(socks, local);
    lemma_first_at(socks, (zero, local.1), i);
    lemma_owner(owners, k);
}

/// A packet belongs to no process where no listed socket is bound to its local
/// endpoint or to its port at the address of all zeros, nor where the socket that
/// is has no owner.
pub proof fn law_packets_of_nobody(
    socks: Seq<SockInfo>,
    owners: Seq<(u64, u32)>,
    local: (IpAddr, u16),
)
    requires
        forall|j: int|
            0 <= j < socks.len() && (#[trigger] socks[j]).local.1 == local.1 && (socks[j].local.0
                == local.0 || socks[j].local.0 == IpAddr::V4(0) || socks[j].local.0 == IpAddr::V6(
                0,
            )) ==> forall|k: int|
                0 <= k < owners.len() ==> (#[trigger] owners[k]).0 != socks[j].inode,
    ensures
        pid_at(by_local(socks), owners, local) is None,
{
    let zero = if local.0 is V4 {
        IpAddr::V4(0)
    } else {
        IpAddr::V6(0)
    };
    lemma_unowned(socks, owners, local);
    lemma_unowned(socks, owners, (zero, local.1));
}

proof fn lemma_unowned(socks: Seq<SockInfo>, owners: Seq<(u64, u32)>, at: (IpAddr, u16))
    requires
        forall|j: int|
            0 <= j < socks.len() && (#[trigger] socks[j]).local == at ==> forall|k: int|
                0 <= k < owners.len() ==> (#[trigger] owners[k]).0 != socks[j].inode,
    ensures
        lookup(by_local(socks), at) matches Some(i) ==> lookup(owners, i as u64) is None,
{
    lemma_by_local(socks, at);
    if exists|j: int| 0 <= j < socks.len() && (#[trigger] socks[j]).local == at {
        let j = choose|j: int| 0 <= j < socks.len() && (#[trigger] socks[j]).local == at;
        let i = lemma_first_index(socks, at, j);
        lemma_first_at(socks, at, i);
        crate::assoc::lemma_position_none(owners, socks[i].inode as u64);
    }
}

proof fn lemma_first_index(socks: Seq<SockInfo>, at: (IpAddr, u16), j: int) -> (i: int)
    requires
        0 <= j < socks.len(),
        socks[j].local == at,
    ensures
        0 <= i <= j,
        socks[i].local == at,
        forall|k: int| 0 <= k < i ==> (#[trigger] socks[k]).local != at,
    decreases j,
{
    if exists|k: int| 0 <= k < j && (#[trigger] socks[k]).local == at {
        let k = choose|k: int| 0 <= k < j && (#[trigger] socks[k]).local == at;
        lemma_first_index(socks, at, k)
    } else {
        j
    }
}

/// What is next in finding the program of a packet. `last` is whether the look
/// that follows is the last one.
#[derive(Debug, Clone, Copy, PartialEq, Eq, Structural)]
pub enum Search {
    /// List the sockets.
    List { last: bool },
    /// Look the endpoint up.
    Look { last: bool },
    Over,
}

/// What follows a step, given whether the program is known by now: a program that
/// is not found is looked for once more, in a new listing.
pub open spec fn search_after(s: Search, known: bool) -> Search {
    match s {
        Search::List { last } => Search::Look { last },
        Search::Look { last } => if known || last {
            Search::Over
        } else {
            Search::List { last: true }
        },
        Search::Over => Search::Over,
    }
}

impl Search {
    /// What follows a step.
    pub fn step(self, known: bool) -> (r: Search)
        ensures
            r == search_after(self, known),
    {
        match self {
            Search::List { last } => Search::Look { last },
            Search::Look { last } => if known || last {
                Search::Over
            } else {
                Search::List { last: true }
            },
            Search::Over => Search::Over,
        }
    }
}

/// A look that finds the program ends the search. One that does not is followed by
/// a listing and one more look, and by nothing after that.
pub proof fn law_a_program_is_looked_for_twice(last: bool, known: bool)
    ensures
        search_after(Search::Look { last }, true) == Search::Over,
        search_after(
            search_after(search_after(Search::Look { last: false }, false), false),
            known,
        ) == Search::Over,
{
}

/// Finds the process of a packet by its local endpoint.
pub struct Resolver {
    by_local: Assoc<(IpAddr, u16), u32>,
    owners: Assoc<u64, u32>,
    stamp: Option<u64>,
}

impl Resolver {
    /// The sockets by local endpoint.
    pub closed spec fn table(&self) -> Seq<((IpAddr, u16), u32)> {
        self.by_local@
    }

    /// The owners of sockets.
    pub closed spec fn owners(&self) -> Seq<(u64, u32)> {
        self.owners@
    }

    /// When the sockets were listed, where they were.
    pub closed spec fn stamp(&self) -> Option<u64> {
        self.stamp
    }

    /// Nothing listed.
    pub fn new() -> (r: Resolver)
        ensures
            r.table() == Seq::<((IpAddr, u16), u32)>::empty(),
            r.owners() == Seq::<(u64, u32)>::empty(),
            r.stamp() is None,
    {
        Resolver { by_local: Assoc::new(), owners: Assoc::new(), stamp: None }
    }

    /// Whether the sockets are to be listed before a lookup.
    pub fn is_stale(&self, now: u64) -> (r: bool)
        ensures
            r == (match self.stamp() {
                Some(s) => now - s > SOCKETS_FRESH_MS,
                None => true,
            }),
    {
        match self.stamp {
            Some(s) => now.saturating_sub(s) > SOCKETS_FRESH_MS,
            None => true,
        }
    }

    /// Begins to look for the program of an endpoint; old listings are renewed
    /// first.
    pub fn exe_for(&self, now: u64) -> (r: Search)
        ensures
            r == (if self.stamp() is None || now - self.stamp()->0 > SOCKETS_FRESH_MS {
                Search::List { last: false }
            } else {
                Search::Look { last: false }
            }),
    {
        if self.is_stale(now) {
            Search::List { last: false }
        } else {
            Search::Look { last: false }
        }
    }

    /// Takes a listing of sockets and their owners.
    pub fn refresh(&mut self, owners: Assoc<u64, u32>, socks: &Vec<SockInfo>, now: u64)
        ensures
            final(self).table() == by_local(socks@),
            final(self).owners() == owners@,
            final(self).stamp() == Some(now),
    {
        let mut table: Assoc<(IpAddr, u16), u32> = Assoc::new();
        let mut i: usize = 0;
        assert(socks@.take(0) =~= Seq::empty());
        while i < socks.len()
            invariant
                i <= socks@.len(),
                table@ == by_local(socks@.take(i as int)),
            decreases socks@.len() - i,
        {
            assert(socks@.take(i + 1).drop_last() =~= socks@.take(i as int));
            let s: SockInfo = socks[i];
            if !table.contains(&s.local) {
                table.put(s.local, s.inode);
            }
            i += 1;
        }
        assert(socks@.take(i as int) =~= socks@);
        self.by_local = table;
        self.owners = owners;
        self.stamp = Some(now);
    }

    /// The process of a local endpoint.
    pub fn pid_for(&self, local: (IpAddr, u16)) -> (r: Option<u32>)
        ensures
            r == pid_at(self.table(), self.owners(), local),
    {
        let wild = match local.0 {
            IpAddr::V4(_) => IpAddr::V4(0),
            IpAddr::V6(_) => IpAddr::V6(0),
        };
        let inode: u32 = match self.by_local.get(&local) {
            Some(i) => *i,
            None => match self.by_local.get(&(wild, local.1)) {
                Some(i) => *i,
                None => {
                    return None;
                },
            },
        };
        match self.owners.get(&(inode as u64)) {
            Some(pid) => Some(*pid),
            None => None,
        }
    }
}

/// Removing rules removes exactly those that are named, and what is in force
/// afterwards is what the newest of the rules that are left say.
pub proof fn law_the_named_rules_are_removed(r: Rules, ids: Seq<u64>, id: u64)
    requires
        crate::linux::fw::consistent(r),
    ensures
        crate::linux::fw::consistent(without_ids(r, ids)),
        lookup(without_ids(r, ids).by_id, id) == (if ids.contains(id) {
            None
        } else {
            lookup(r.by_id, id)
        }),
        without_ids(r, ids).trusted == r.trusted,
    decreases ids.len(),
{
    if ids.len() > 0 {
        let front = ids.drop_last();
        let last = ids.last();
        let before = without_ids(r, front);
        law_the_named_rules_are_removed(r, front, id);
        crate::linux::fw::law_removing_keeps_rules_consistent(before, last);
        crate::assoc::law_without(before.by_id, last, id);
        assert(ids.contains(last)) by {
            assert(ids[ids.len() - 1] == last);
        }
        if front.contains(id) {
            let i = choose|i: int| 0 <= i < front.len() && front[i] == id;
            assert(ids[i] == id);
        }
        if ids.contains(id) {
            let i = choose|i: int| 0 <= i < ids.len() && ids[i] == id;
            if i < front.len() {
                assert(front[i] == id);
            }
        }
    }
}

} // verus!
