//! The byte monitor's state: what it does with each poll and each report of the
//! kernel.

use crate::assoc::{distinct, has_key, lookup, put, Assoc};
use crate::linux::account::{
    account_closed_tcp, account_tcp, account_udp, closed_owner, closing_of, ends,
    law_tcp_growth_is_charged, law_udp_growth_is_charged, lemma_sum_join, lemma_sum_push,
    owner_of_closed, recv_by, sent_by, tcp_recv, tcp_sent, udp_recv, udp_sent,
    recent_after, record_recent_flow, tcp_baselines, tcp_charges, tcp_owner_map, tcp_owners_after,
    udp_baselines, udp_charges, Baseline, Charge, ClosedTcp, FlowKey, NetworkEvent, Poll, PollData,
    RecentFlow, TcpOwner, UdpKey, CLOSED_WAIT_MS, OWNER_KEEP_MS,
};
use crate::adapter_map::settled;
use crate::linux::ct::Flow;
use crate::linux::sockets::SockInfo;
use crate::model::AdapterKind;
use vstd::prelude::*;

verus! {

/// What the monitor knows between polls.
pub struct Accounting {
    tcp_seen: Assoc<u64, Baseline>,
    tcp_owners: Assoc<u64, TcpOwner>,
    flow_owners: Assoc<FlowKey, (TcpOwner, u64)>,
    pending_closed: Assoc<FlowKey, (SockInfo, u64)>,
    udp_seen: Assoc<UdpKey, Baseline>,
    recent: Vec<RecentFlow>,
    primed: bool,
    udp_event_was_active: bool,
}

/// What the monitor knows, and what it has charged in the current poll.
#[verifier::ext_equal]
pub ghost struct AcctState {
    /// Counters of TCP sockets by cookie.
    pub tcp_seen: Seq<(u64, Baseline)>,
    /// Owners of TCP sockets by cookie.
    pub tcp_owners: Seq<(u64, TcpOwner)>,
    /// Who opened a connection, and when that was reported.
    pub flow_owners: Seq<(FlowKey, (TcpOwner, u64))>,
    /// Closed sockets without an owner, and since when they wait.
    pub pending: Seq<(FlowKey, (SockInfo, u64))>,
    /// Counters of UDP flows.
    pub udp_seen: Seq<(UdpKey, Baseline)>,
    /// Connections that were too short for a poll.
    pub recent: Seq<RecentFlow>,
    pub charges: Seq<Charge>,
    /// Whether there was a poll before.
    pub primed: bool,
    /// Whether datagrams were reported by the kernel at the last poll.
    pub udp_was: bool,
}

/// The image of a process, or else what was reported with it.
pub open spec fn path_or(images: Seq<(u32, String)>, pid: u32, reported: String) -> String {
    match lookup(images, pid) {
        Some(p) => p,
        None => reported,
    }
}

/// Charges with one more, where there is one.
pub open spec fn with_charge(charges: Seq<Charge>, c: Option<Charge>) -> Seq<Charge> {
    match c {
        Some(c) => charges.push(c),
        None => charges,
    }
}

/// Recent flows with a closed socket's, where it had an owner.
pub open spec fn with_recent(
    recent: Seq<RecentFlow>,
    owner: Option<TcpOwner>,
    s: SockInfo,
) -> Seq<RecentFlow> {
    match owner {
        Some(o) => recent_after(recent, o.path, s.remote),
        None => recent,
    }
}

/// The state after one report of the kernel.
pub open spec fn after_event(st: AcctState, ev: NetworkEvent, p: Poll, now: u64) -> AcctState {
    match ev {
        NetworkEvent::Owner(o) => AcctState {
            flow_owners: put(
                st.flow_owners,
                o.key,
                (
                    TcpOwner {
                        pid: o.pid,
                        path: path_or(p.images, o.pid, o.path),
                        kind: settled(p.adapters, o.key.local.0, o.key.remote.0),
                    },
                    now,
                ),
            ),
            ..st
        },
        NetworkEvent::Closed(s) => match closing_of(
            s,
            st.tcp_seen,
            st.tcp_owners,
            st.flow_owners,
        ) {
            ClosedTcp::Waiting => AcctState {
                pending: put(st.pending, ends(s), (s, now)),
                ..st
            },
            ClosedTcp::Done(c) => AcctState {
                charges: with_charge(st.charges, c),
                recent: with_recent(
                    st.recent,
                    owner_of_closed(s, st.tcp_seen, st.tcp_owners, st.flow_owners),
                    s,
                ),
                ..st
            },
        },
        NetworkEvent::Datagram(b) => if b.sent != 0 || b.recv != 0 {
            AcctState {
                charges: st.charges.push(
                    Charge {
                        pid: b.pid,
                        path: path_or(p.images, b.pid, b.path),
                        kind: AdapterKind::Other,
                        sent: b.sent,
                        recv: b.recv,
                    },
                ),
                ..st
            }
        } else {
            st
        },
    }
}

/// The state after several reports.
pub open spec fn after_events(st: AcctState, events: Seq<NetworkEvent>, p: Poll, now: u64) -> AcctState
    decreases events.len(),
{
    if events.len() == 0 {
        st
    } else {
        after_event(after_events(st, events.drop_last(), p, now), events.last(), p, now)
    }
}

/// Whether less than `limit` has passed.
pub open spec fn recent_enough(since: u64, now: u64, limit: u64) -> bool {
    now - since < limit
}

/// The state after the first `n` closed sockets in `waiting` were tried again.
/// Those that have an owner now are charged and go; of the others, those that
/// have waited too long go.
pub open spec fn after_waiting(
    st: AcctState,
    waiting: Seq<(FlowKey, (SockInfo, u64))>,
    n: int,
    now: u64,
) -> AcctState
    decreases n,
{
    if n <= 0 {
        AcctState { pending: Seq::empty(), ..st }
    } else {
        let before = after_waiting(st, waiting, n - 1, now);
        let (key, (s, queued)) = waiting[n - 1];
        match closing_of(s, st.tcp_seen, st.tcp_owners, st.flow_owners) {
            ClosedTcp::Done(c) => AcctState {
                charges: with_charge(before.charges, c),
                recent: with_recent(
                    before.recent,
                    owner_of_closed(s, st.tcp_seen, st.tcp_owners, st.flow_owners),
                    s,
                ),
                ..before
            },
            ClosedTcp::Waiting => if recent_enough(queued, now, CLOSED_WAIT_MS) {
                AcctState { pending: before.pending.push((key, (s, queued))), ..before }
            } else {
                before
            },
        }
    }
}

/// The owners of flows that were reported lately.
pub open spec fn young_owners(flows: Seq<(FlowKey, (TcpOwner, u64))>, now: u64) -> Seq<
    (FlowKey, (TcpOwner, u64)),
>
    decreases flows.len(),
{
    if flows.len() == 0 {
        Seq::empty()
    } else if recent_enough(flows.last().1.1, now, OWNER_KEEP_MS) {
        young_owners(flows.drop_last(), now).push(flows.last())
    } else {
        young_owners(flows.drop_last(), now)
    }
}

/// The owners of the sockets whose counters are known.
pub open spec fn known_owners(owners: Seq<(u64, TcpOwner)>, seen: Seq<(u64, Baseline)>) -> Seq<
    (u64, TcpOwner),
>
    decreases owners.len(),
{
    if owners.len() == 0 {
        Seq::empty()
    } else if has_key(seen, owners.last().0) {
        known_owners(owners.drop_last(), seen).push(owners.last())
    } else {
        known_owners(owners.drop_last(), seen)
    }
}

/// The state after the sockets of a poll.
pub open spec fn after_tcp(st: AcctState, p: Poll, now: u64) -> AcctState {
    let n = p.socks.len() as int;
    let seen = tcp_baselines(p.socks, st.tcp_seen);
    AcctState {
        flow_owners: young_owners(st.flow_owners, now),
        charges: st.charges + tcp_charges(p, st.tcp_seen, st.primed, n),
        tcp_seen: seen,
        tcp_owners: tcp_owners_after(p, known_owners(st.tcp_owners, seen), n),
        ..st
    }
}

/// The state after the UDP flows of a poll. They count only where the kernel does
/// not report datagrams, and as new only where it did not do so before either.
pub open spec fn after_udp(st: AcctState, p: Poll, flows: Seq<Flow>, udp_active: bool) -> AcctState {
    let counted = if udp_active {
        st
    } else {
        AcctState {
            charges: st.charges + udp_charges(
                p,
                flows,
                st.udp_seen,
                st.primed && !st.udp_was,
                flows.len() as int,
            ),
            udp_seen: udp_baselines(flows),
            ..st
        }
    };
    AcctState { udp_was: udp_active, primed: true, ..counted }
}

/// The state after a whole poll.
pub open spec fn after_poll(
    st: AcctState,
    events: Seq<NetworkEvent>,
    p: Poll,
    flows: Seq<Flow>,
    udp_active: bool,
    now: u64,
) -> AcctState {
    let a = after_events(AcctState { charges: Seq::empty(), ..st }, events, p, now);
    let b = after_waiting(a, a.pending, a.pending.len() as int, now);
    let c = after_tcp(b, p, now);
    after_udp(c, p, flows, udp_active)
}

/// The sockets that do not listen.
pub fn active_sockets(socks: &Vec<SockInfo>) -> (r: Vec<SockInfo>)
    ensures
        r@ == socks@.filter(|s: SockInfo| !s.listens()),
{
    let ghost keep = |s: SockInfo| !s.listens();
    let mut r: Vec<SockInfo> = Vec::new();
    let mut i: usize = 0;
    assert(socks@.take(0).filter(keep) =~= Seq::empty());
    while i < socks.len()
        invariant
            i <= socks@.len(),
            keep == (|s: SockInfo| !s.listens()),
            r@ == socks@.take(i as int).filter(keep),
        decreases socks@.len() - i,
    {
        let s: SockInfo = socks[i];
        proof {
            assert(socks@.take(i + 1) =~= socks@.take(i as int).push(s));
            socks@.take(i as int).lemma_filter_push(s, keep);
        }
        if !s.is_listener() {
            r.push(s);
        }
        i += 1;
    }
    assert(socks@.take(i as int) =~= socks@);
    r
}

impl Accounting {
    /// What is known between polls.
    pub closed spec fn state(&self) -> AcctState {
        self.during(Seq::empty())
    }

    spec fn during(&self, charges: Seq<Charge>) -> AcctState {
        AcctState {
            tcp_seen: self.tcp_seen@,
            tcp_owners: self.tcp_owners@,
            flow_owners: self.flow_owners@,
            pending: self.pending_closed@,
            udp_seen: self.udp_seen@,
            recent: self.recent@,
            charges,
            primed: self.primed,
            udp_was: self.udp_event_was_active,
        }
    }

    /// Nothing known. `udp_active` says whether the kernel reports datagrams.
    pub fn new(udp_active: bool) -> (a: Accounting)
        ensures
            a.state() == (AcctState {
                tcp_seen: Seq::empty(),
                tcp_owners: Seq::empty(),
                flow_owners: Seq::empty(),
                pending: Seq::empty(),
                udp_seen: Seq::empty(),
                recent: Seq::empty(),
                charges: Seq::empty(),
                primed: false,
                udp_was: udp_active,
            }),
    {
        let a = Accounting {
            tcp_seen: Assoc::new(),
            tcp_owners: Assoc::new(),
            flow_owners: Assoc::new(),
            pending_closed: Assoc::new(),
            udp_seen: Assoc::new(),
            recent: Vec::new(),
            primed: false,
            udp_event_was_active: udp_active,
        };
        assert(a.recent@ =~= Seq::empty());
        a
    }

    fn note_event(&mut self, ev: NetworkEvent, poll: &PollData, now: u64, charges: &mut Vec<Charge>)
        ensures
            final(self).during(final(charges)@) == after_event(
                old(self).during(old(charges)@),
                ev,
                poll.poll(),
                now,
            ),
    {
        match ev {
            NetworkEvent::Owner(o) => {
                let path = match poll.images.get(&o.pid) {
                    Some(p) => p.clone(),
                    None => o.path,
                };
                let kind = poll.adapters.settled_kind(o.key.local.0, o.key.remote.0);
                self.flow_owners.put(o.key, (TcpOwner { pid: o.pid, path, kind }, now));
            },
            NetworkEvent::Closed(s) => {
                let owner = closed_owner(&s, &self.tcp_seen, &self.tcp_owners, &self.flow_owners);
                match account_closed_tcp(
                    &s,
                    &self.tcp_seen,
                    &self.tcp_owners,
                    &self.flow_owners,
                ) {
                    ClosedTcp::Waiting => {
                        let key = FlowKey { local: s.local, remote: s.remote };
                        self.pending_closed.put(key, (s, now));
                    },
                    ClosedTcp::Done(c) => {
                        if let Some(c) = c {
                            charges.push(c);
                        }
                        if let Some(o) = owner {
                            record_recent_flow(&mut self.recent, o.path, s.remote);
                        }
                    },
                }
            },
            NetworkEvent::Datagram(b) => {
                if b.sent != 0 || b.recv != 0 {
                    let path = match poll.images.get(&b.pid) {
                        Some(p) => p.clone(),
                        None => b.path,
                    };
                    charges.push(
                        Charge {
                            pid: b.pid,
                            path,
                            kind: AdapterKind::Other,
                            sent: b.sent,
                            recv: b.recv,
                        },
                    );
                }
            },
        }
    }

    fn note_events(
        &mut self,
        events: Vec<NetworkEvent>,
        poll: &PollData,
        now: u64,
        charges: &mut Vec<Charge>,
    )
        ensures
            final(self).during(final(charges)@) == after_events(
                old(self).during(old(charges)@),
                events@,
                poll.poll(),
                now,
            ),
    {
        let ghost all = events@;
        let mut rest: Vec<NetworkEvent> = Vec::new();
        let mut source = events;
        // Turned round, so that the first event is at the end.
        while source.len() > 0
            invariant
                all == source@ + rest@.reverse(),
            decreases source@.len(),
        {
            let ghost was = rest@;
            match source.pop() {
                Some(e) => {
                    rest.push(e);
                    assert(rest@.reverse() =~= seq![e] + was.reverse());
                    assert(all =~= source@ + rest@.reverse());
                },
                None => {},
            }
        }
        assert(all =~= rest@.reverse());
        assert(all.take(0) =~= Seq::empty());
        while rest.len() > 0
            invariant
                rest@.len() <= all.len(),
                all.skip(all.len() - rest@.len()) == rest@.reverse(),
                self.during(charges@) == after_events(
                    old(self).during(old(charges)@),
                    all.take(all.len() - rest@.len()),
                    poll.poll(),
                    now,
                ),
            decreases rest@.len(),
        {
            let ghost k = all.len() - rest@.len();
            let ghost was = rest@;
            match rest.pop() {
                Some(e) => {
                    proof {
                        assert(was.reverse()[0] == e);
                        assert(all[k] == all.skip(k)[0]);
                        assert(all.take(k + 1).drop_last() =~= all.take(k));
                        assert(all.take(k + 1).last() == e);
                        assert(rest@.reverse() =~= was.reverse().skip(1));
                        assert(all.skip(k + 1) =~= all.skip(k).skip(1));
                    }
                    self.note_event(e, poll, now, charges);
                },
                None => {},
            }
        }
        assert(all.take(all.len() as int) =~= all);
    }

    fn retry_waiting(&mut self, now: u64, charges: &mut Vec<Charge>)
        ensures
            final(self).during(final(charges)@) == after_waiting(
                old(self).during(old(charges)@),
                old(self).during(old(charges)@).pending,
                old(self).during(old(charges)@).pending.len() as int,
                now,
            ),
    {
        let mut waiting: Assoc<FlowKey, (SockInfo, u64)> = Assoc::new();
        std::mem::swap(&mut waiting, &mut self.pending_closed);
        let ghost st = old(self).during(old(charges)@);
        let mut i: usize = 0;
        while i < waiting.len()
            invariant
                i <= waiting@.len(),
                waiting@ == st.pending,
                self.during(charges@) == after_waiting(st, waiting@, i as int, now),
                self.tcp_seen@ == st.tcp_seen,
                self.tcp_owners@ == st.tcp_owners,
                self.flow_owners@ == st.flow_owners,
            decreases waiting@.len() - i,
        {
            let key: FlowKey = *waiting.key_at(i);
            let (s, queued) = *waiting.value_at(i);
            assert(waiting@[i as int] == (key, (s, queued)));
            let owner = closed_owner(&s, &self.tcp_seen, &self.tcp_owners, &self.flow_owners);
            match account_closed_tcp(&s, &self.tcp_seen, &self.tcp_owners, &self.flow_owners) {
                ClosedTcp::Done(c) => {
                    if let Some(c) = c {
                        charges.push(c);
                    }
                    if let Some(o) = owner {
                        record_recent_flow(&mut self.recent, o.path, s.remote);
                    }
                },
                ClosedTcp::Waiting => {
                    if now.saturating_sub(queued) < CLOSED_WAIT_MS {
                        self.pending_closed.push(key, (s, queued));
                    }
                },
            }
            i += 1;
        }
    }

    fn forget_old_owners(&mut self, now: u64)
        ensures
            *final(self) == (Accounting { flow_owners: final(self).flow_owners, ..*old(self) }),
            final(self).flow_owners@ == young_owners(old(self).flow_owners@, now),
    {
        let mut kept: Assoc<FlowKey, (TcpOwner, u64)> = Assoc::new();
        let ghost all = self.flow_owners@;
        let mut i: usize = 0;
        assert(all.take(0) =~= Seq::empty());
        while i < self.flow_owners.len()
            invariant
                i <= all.len(),
                self.flow_owners@ == all,
                kept@ == young_owners(all.take(i as int), now),
            decreases all.len() - i,
        {
            assert(all.take(i + 1).drop_last() =~= all.take(i as int));
            let key: FlowKey = *self.flow_owners.key_at(i);
            let v = self.flow_owners.value_at(i);
            if now.saturating_sub(v.1) < OWNER_KEEP_MS {
                kept.push(key, (v.0.clone(), v.1));
            }
            i += 1;
        }
        assert(all.take(i as int) =~= all);
        self.flow_owners = kept;
    }

    fn forget_gone_sockets(&mut self)
        ensures
            *final(self) == (Accounting { tcp_owners: final(self).tcp_owners, ..*old(self) }),
            final(self).tcp_owners@ == known_owners(old(self).tcp_owners@, old(self).tcp_seen@),
    {
        let mut kept: Assoc<u64, TcpOwner> = Assoc::new();
        let ghost all = self.tcp_owners@;
        let mut i: usize = 0;
        assert(all.take(0) =~= Seq::empty());
        while i < self.tcp_owners.len()
            invariant
                i <= all.len(),
                self.tcp_owners@ == all,
                kept@ == known_owners(all.take(i as int), self.tcp_seen@),
            decreases all.len() - i,
        {
            assert(all.take(i + 1).drop_last() =~= all.take(i as int));
            let cookie: u64 = *self.tcp_owners.key_at(i);
            if self.tcp_seen.contains(&cookie) {
                kept.push(cookie, self.tcp_owners.value_at(i).clone());
            }
            i += 1;
        }
        assert(all.take(i as int) =~= all);
        self.tcp_owners = kept;
    }

    /// Takes one poll: the reports since the last one, then the sockets, then,
    /// where the kernel does not report datagrams, the UDP flows. Gives what is to
    /// be charged.
    pub fn step(
        &mut self,
        events: Vec<NetworkEvent>,
        poll: &PollData,
        flows: &Vec<Flow>,
        udp_active: bool,
        now: u64,
    ) -> (charges: Vec<Charge>)
        ensures
            ({
                let after = after_poll(
                    old(self).state(),
                    events@,
                    poll.poll(),
                    flows@,
                    udp_active,
                    now,
                );
                &&& charges@ == after.charges
                &&& final(self).state() == (AcctState { charges: Seq::empty(), ..after })
            }),
    {
        let mut charges: Vec<Charge> = Vec::new();
        let ghost p = poll.poll();
        let ghost start = self.during(Seq::empty());
        assert(charges@ =~= Seq::empty());
        self.note_events(events, poll, now, &mut charges);
        let ghost a = self.during(charges@);
        self.retry_waiting(now, &mut charges);
        let ghost b = self.during(charges@);
        self.forget_old_owners(now);
        let ghost b1 = self.during(charges@);
        account_tcp(poll, &mut self.tcp_seen, self.primed, &mut charges);
        let ghost b2 = self.during(charges@);
        self.forget_gone_sockets();
        tcp_owner_map(poll, &mut self.tcp_owners);
        let ghost c = self.during(charges@);
        assert(c =~= after_tcp(b, p, now));
        if !udp_active {
            let count_new: bool = self.primed && !self.udp_event_was_active;
            account_udp(poll, flows, &mut self.udp_seen, count_new, &mut charges);
        }
        self.udp_event_was_active = udp_active;
        self.primed = true;
        assert(self.during(charges@) =~= after_udp(c, p, flows@, udp_active));
        charges
    }

    /// The connections that were too short for a poll, since they were last asked
    /// for.
    pub fn take_recent_flows(&mut self) -> (r: Vec<RecentFlow>)
        ensures
            r@ == old(self).state().recent,
            final(self).state() == (AcctState {
                recent: Seq::empty(),
                ..old(self).state()
            }),
    {
        let mut r: Vec<RecentFlow> = Vec::new();
        std::mem::swap(&mut r, &mut self.recent);
        assert(self.recent@ =~= Seq::empty());
        r
    }
}

/// Whether no key occurs twice in what the monitor knows.
pub open spec fn keys_distinct(st: AcctState) -> bool {
    &&& distinct(st.tcp_seen)
    &&& distinct(st.tcp_owners)
    &&& distinct(st.flow_owners)
    &&& distinct(st.pending)
    &&& distinct(st.udp_seen)
}

proof fn lemma_events_distinct(st: AcctState, events: Seq<NetworkEvent>, p: Poll, now: u64)
    requires
        keys_distinct(st),
    ensures
        keys_distinct(after_events(st, events, p, now)),
    decreases events.len(),
{
    if events.len() > 0 {
        lemma_events_distinct(st, events.drop_last(), p, now);
        let a = after_events(st, events.drop_last(), p, now);
        match events.last() {
            NetworkEvent::Owner(o) => {
                let owner = TcpOwner {
                    pid: o.pid,
                    path: path_or(p.images, o.pid, o.path),
                    kind: settled(p.adapters, o.key.local.0, o.key.remote.0),
                };
                crate::assoc::law_put(a.flow_owners, o.key, (owner, now), o.key);
            },
            NetworkEvent::Closed(s) => {
                crate::assoc::law_put(a.pending, ends(s), (s, now), ends(s));
            },
            NetworkEvent::Datagram(_) => {},
        }
    }
}

proof fn lemma_waiting_distinct(
    st: AcctState,
    waiting: Seq<(FlowKey, (SockInfo, u64))>,
    n: int,
    now: u64,
    k: FlowKey,
)
    requires
        distinct(waiting),
        0 <= n <= waiting.len(),
    ensures
        distinct(after_waiting(st, waiting, n, now).pending),
        has_key(after_waiting(st, waiting, n, now).pending, k) ==> has_key(waiting.take(n), k),
        after_waiting(st, waiting, n, now).tcp_seen == st.tcp_seen,
        after_waiting(st, waiting, n, now).tcp_owners == st.tcp_owners,
        after_waiting(st, waiting, n, now).flow_owners == st.flow_owners,
        after_waiting(st, waiting, n, now).udp_seen == st.udp_seen,
    decreases n,
{
    if n > 0 {
        let front = waiting.take(n);
        assert(front.drop_last() =~= waiting.take(n - 1));
        assert forall|i: int, j: int|
            0 <= i < front.len() && 0 <= j < front.len() && i != j implies (#[trigger] front[i]).0
            != (#[trigger] front[j]).0 by {
            assert(front[i] == waiting[i] && front[j] == waiting[j]);
        }
        let (key, v) = waiting[n - 1];
        crate::assoc::lemma_last(front, k);
        lemma_waiting_distinct(st, waiting, n - 1, now, k);
        lemma_waiting_distinct(st, waiting, n - 1, now, key);
        let before = after_waiting(st, waiting, n - 1, now);
        crate::assoc::lemma_push_entry(before.pending, key, v, k);
    }
}

proof fn lemma_young_distinct(flows: Seq<(FlowKey, (TcpOwner, u64))>, now: u64, k: FlowKey)
    requires
        distinct(flows),
    ensures
        distinct(young_owners(flows, now)),
        has_key(young_owners(flows, now), k) ==> has_key(flows, k),
    decreases flows.len(),
{
    if flows.len() > 0 {
        crate::assoc::lemma_last(flows, k);
        lemma_young_distinct(flows.drop_last(), now, k);
        lemma_young_distinct(flows.drop_last(), now, flows.last().0);
        if recent_enough(flows.last().1.1, now, OWNER_KEEP_MS) {
            crate::assoc::lemma_push_entry(
                young_owners(flows.drop_last(), now),
                flows.last().0,
                flows.last().1,
                k,
            );
        }
    }
}

proof fn lemma_known_distinct(owners: Seq<(u64, TcpOwner)>, seen: Seq<(u64, Baseline)>, k: u64)
    requires
        distinct(owners),
    ensures
        distinct(known_owners(owners, seen)),
        has_key(known_owners(owners, seen), k) ==> has_key(owners, k),
    decreases owners.len(),
{
    if owners.len() > 0 {
        crate::assoc::lemma_last(owners, k);
        lemma_known_distinct(owners.drop_last(), seen, k);
        lemma_known_distinct(owners.drop_last(), seen, owners.last().0);
        if has_key(seen, owners.last().0) {
            crate::assoc::lemma_push_entry(
                known_owners(owners.drop_last(), seen),
                owners.last().0,
                owners.last().1,
                k,
            );
        }
    }
}

proof fn lemma_owners_distinct(p: Poll, known: Seq<(u64, TcpOwner)>, n: int)
    requires
        distinct(known),
        n <= p.socks.len(),
    ensures
        distinct(tcp_owners_after(p, known, n)),
    decreases n,
{
    if n > 0 {
        lemma_owners_distinct(p, known, n - 1);
        let s = p.socks[n - 1];
        if crate::linux::account::holder(p, s.inode) is Some {
            let (pid, path) = crate::linux::account::holder(p, s.inode)->0;
            crate::assoc::law_put(
                tcp_owners_after(p, known, n - 1),
                s.cookie,
                TcpOwner { pid, path, kind: settled(p.adapters, s.local.0, s.remote.0) },
                s.cookie,
            );
        }
    }
}

proof fn lemma_udp_distinct(flows: Seq<Flow>)
    ensures
        distinct(udp_baselines(flows)),
    decreases flows.len(),
{
    if flows.len() > 0 {
        lemma_udp_distinct(flows.drop_last());
        let f = flows.last();
        crate::assoc::law_put(
            udp_baselines(flows.drop_last()),
            crate::linux::account::tuple_of(f),
            Baseline { sent: f.orig_bytes, recv: f.reply_bytes, missed: 0 },
            crate::linux::account::tuple_of(f),
        );
    }
}

/// Every poll leaves at most one entry for each socket, each connection and each
/// flow.
pub proof fn law_polls_keep_keys_distinct(
    st: AcctState,
    events: Seq<NetworkEvent>,
    p: Poll,
    flows: Seq<Flow>,
    udp_active: bool,
    now: u64,
)
    requires
        keys_distinct(st),
    ensures
        keys_distinct(after_poll(st, events, p, flows, udp_active, now)),
{
    let start = AcctState { charges: Seq::empty(), ..st };
    lemma_events_distinct(start, events, p, now);
    let a = after_events(start, events, p, now);
    let k = arbitrary();
    lemma_waiting_distinct(a, a.pending, a.pending.len() as int, now, k);
    let b = after_waiting(a, a.pending, a.pending.len() as int, now);
    lemma_young_distinct(b.flow_owners, now, k);
    crate::linux::account::lemma_tcp_baselines_distinct(p.socks, b.tcp_seen);
    let seen = tcp_baselines(p.socks, b.tcp_seen);
    lemma_known_distinct(b.tcp_owners, seen, 0);
    lemma_owners_distinct(p, known_owners(b.tcp_owners, seen), p.socks.len() as int);
    lemma_udp_distinct(flows);
}

/// The reports that are not of datagrams.
pub open spec fn without_datagrams(events: Seq<NetworkEvent>) -> Seq<NetworkEvent>
    decreases events.len(),
{
    if events.len() == 0 {
        Seq::empty()
    } else if events.last() is Datagram {
        without_datagrams(events.drop_last())
    } else {
        without_datagrams(events.drop_last()).push(events.last())
    }
}

/// What datagram reports say that a process sent.
pub open spec fn reported_sent(events: Seq<NetworkEvent>, pid: u32) -> int
    decreases events.len(),
{
    if events.len() == 0 {
        0
    } else {
        reported_sent(events.drop_last(), pid) + match events.last() {
            NetworkEvent::Datagram(b) if b.pid == pid => b.sent as int,
            _ => 0,
        }
    }
}

/// What datagram reports say that a process received.
pub open spec fn reported_recv(events: Seq<NetworkEvent>, pid: u32) -> int
    decreases events.len(),
{
    if events.len() == 0 {
        0
    } else {
        reported_recv(events.drop_last(), pid) + match events.last() {
            NetworkEvent::Datagram(b) if b.pid == pid => b.recv as int,
            _ => 0,
        }
    }
}

/// Whether two states are the same but for their charges, of which the first has
/// `sent` and `recv` more bytes of a process.
spec fn ahead_by(a: AcctState, b: AcctState, pid: u32, sent: int, recv: int) -> bool {
    &&& a == AcctState { charges: a.charges, ..b }
    &&& sent_by(a.charges, pid) == sent_by(b.charges, pid) + sent
    &&& recv_by(a.charges, pid) == recv_by(b.charges, pid) + recv
}

proof fn lemma_event_shift(
    a: AcctState,
    b: AcctState,
    pid: u32,
    sent: int,
    recv: int,
    ev: NetworkEvent,
    p: Poll,
    now: u64,
)
    requires
        ahead_by(a, b, pid, sent, recv),
    ensures
        ahead_by(after_event(a, ev, p, now), after_event(b, ev, p, now), pid, sent, recv),
{
    match ev {
        NetworkEvent::Owner(_) => {},
        NetworkEvent::Closed(s) => {
            match closing_of(s, a.tcp_seen, a.tcp_owners, a.flow_owners) {
                ClosedTcp::Done(Some(c)) => {
                    lemma_sum_push(a.charges, c, pid);
                    lemma_sum_push(b.charges, c, pid);
                },
                _ => {},
            }
        },
        NetworkEvent::Datagram(d) => {
            let c = Charge {
                pid: d.pid,
                path: path_or(p.images, d.pid, d.path),
                kind: AdapterKind::Other,
                sent: d.sent,
                recv: d.recv,
            };
            lemma_sum_push(a.charges, c, pid);
            lemma_sum_push(b.charges, c, pid);
        },
    }
}

proof fn lemma_events_shift(st: AcctState, events: Seq<NetworkEvent>, p: Poll, now: u64, pid: u32)
    ensures
        ahead_by(
            after_events(st, events, p, now),
            after_events(st, without_datagrams(events), p, now),
            pid,
            reported_sent(events, pid),
            reported_recv(events, pid),
        ),
    decreases events.len(),
{
    if events.len() > 0 {
        let front = events.drop_last();
        let ev = events.last();
        lemma_events_shift(st, front, p, now, pid);
        let a = after_events(st, front, p, now);
        let rest = without_datagrams(front);
        let b = after_events(st, rest, p, now);
        if let NetworkEvent::Datagram(d) = ev {
            let c = Charge {
                pid: d.pid,
                path: path_or(p.images, d.pid, d.path),
                kind: AdapterKind::Other,
                sent: d.sent,
                recv: d.recv,
            };
            lemma_sum_push(a.charges, c, pid);
        } else {
            assert(rest.push(ev).drop_last() =~= rest);
            lemma_event_shift(
                a,
                b,
                pid,
                reported_sent(front, pid),
                reported_recv(front, pid),
                ev,
                p,
                now,
            );
        }
    }
}

proof fn lemma_waiting_shift(
    a: AcctState,
    b: AcctState,
    pid: u32,
    sent: int,
    recv: int,
    waiting: Seq<(FlowKey, (SockInfo, u64))>,
    n: int,
    now: u64,
)
    requires
        ahead_by(a, b, pid, sent, recv),
        0 <= n <= waiting.len(),
    ensures
        ahead_by(
            after_waiting(a, waiting, n, now),
            after_waiting(b, waiting, n, now),
            pid,
            sent,
            recv,
        ),
    decreases n,
{
    if n > 0 {
        lemma_waiting_shift(a, b, pid, sent, recv, waiting, n - 1, now);
        let x = after_waiting(a, waiting, n - 1, now);
        let y = after_waiting(b, waiting, n - 1, now);
        let (key, (s, queued)) = waiting[n - 1];
        match closing_of(s, a.tcp_seen, a.tcp_owners, a.flow_owners) {
            ClosedTcp::Done(Some(c)) => {
                lemma_sum_push(x.charges, c, pid);
                lemma_sum_push(y.charges, c, pid);
            },
            _ => {},
        }
    }
}

/// Datagram reports are charged to the process that they name, byte for byte and
/// each direction on its own: a poll charges what it would without them, and the
/// reported bytes on top. They change nothing else that the monitor knows.
pub proof fn law_datagrams_are_charged_as_reported(
    st: AcctState,
    events: Seq<NetworkEvent>,
    p: Poll,
    flows: Seq<Flow>,
    udp_active: bool,
    now: u64,
    pid: u32,
)
    ensures
        ({
            let with = after_poll(st, events, p, flows, udp_active, now);
            let less = after_poll(st, without_datagrams(events), p, flows, udp_active, now);
            &&& sent_by(with.charges, pid) == sent_by(less.charges, pid) + reported_sent(events, pid)
            &&& recv_by(with.charges, pid) == recv_by(less.charges, pid) + reported_recv(events, pid)
            &&& with == AcctState { charges: with.charges, ..less }
        }),
{
    let (sent, recv) = (reported_sent(events, pid), reported_recv(events, pid));
    let start = AcctState { charges: Seq::empty(), ..st };
    lemma_events_shift(start, events, p, now, pid);
    let a = after_events(start, events, p, now);
    let b = after_events(start, without_datagrams(events), p, now);
    lemma_waiting_shift(a, b, pid, sent, recv, a.pending, a.pending.len() as int, now);
    let a1 = after_waiting(a, a.pending, a.pending.len() as int, now);
    let b1 = after_waiting(b, b.pending, b.pending.len() as int, now);
    let n = p.socks.len() as int;
    let tcp = tcp_charges(p, a1.tcp_seen, a1.primed, n);
    lemma_sum_join(a1.charges, tcp, pid);
    lemma_sum_join(b1.charges, tcp, pid);
    let a2 = after_tcp(a1, p, now);
    let b2 = after_tcp(b1, p, now);
    let udp = udp_charges(
        p,
        flows,
        a2.udp_seen,
        a2.primed && !a2.udp_was,
        flows.len() as int,
    );
    lemma_sum_join(a2.charges, udp, pid);
    lemma_sum_join(b2.charges, udp, pid);
}

/// A poll without reports charges a process what its TCP sockets moved and, where
/// the kernel does not report datagrams, what its UDP flows moved. Counters that
/// were not known count from the second poll on, and those of flows not right
/// after datagrams were reported.
pub proof fn law_a_poll_charges_what_was_moved(
    st: AcctState,
    p: Poll,
    flows: Seq<Flow>,
    udp_active: bool,
    now: u64,
    pid: u32,
)
    requires
        st.pending.len() == 0,
    ensures
        ({
            let after = after_poll(st, Seq::empty(), p, flows, udp_active, now);
            let n = p.socks.len() as int;
            let m = flows.len() as int;
            let fresh = st.primed && !st.udp_was;
            &&& sent_by(after.charges, pid) == tcp_sent(p, st.tcp_seen, st.primed, pid, n) + (
            if udp_active {
                0
            } else {
                udp_sent(p, flows, st.udp_seen, fresh, pid, m)
            })
            &&& recv_by(after.charges, pid) == tcp_recv(p, st.tcp_seen, st.primed, pid, n) + (
            if udp_active {
                0
            } else {
                udp_recv(p, flows, st.udp_seen, fresh, pid, m)
            })
            &&& after.primed
            &&& after.udp_was == udp_active
        }),
{
    let n = p.socks.len() as int;
    let start = AcctState { charges: Seq::empty(), ..st };
    let a = after_events(start, Seq::empty(), p, now);
    let b = after_waiting(a, a.pending, a.pending.len() as int, now);
    law_tcp_growth_is_charged(p, st.tcp_seen, st.primed, pid, n);
    let tcp = tcp_charges(p, st.tcp_seen, st.primed, n);
    lemma_sum_join(b.charges, tcp, pid);
    let c = after_tcp(b, p, now);
    let fresh = st.primed && !st.udp_was;
    law_udp_growth_is_charged(p, flows, st.udp_seen, fresh, pid, flows.len() as int);
    let udp = udp_charges(p, flows, st.udp_seen, fresh, flows.len() as int);
    lemma_sum_join(c.charges, udp, pid);
}

/// A connection that opened and closed between two polls is charged whole to the
/// process that opened it, whichever of the two reports comes first.
pub proof fn law_short_connections_are_charged(
    st: AcctState,
    p: Poll,
    o: crate::linux::account::FlowOwner,
    s: SockInfo,
    sent: u64,
    recv: u64,
    now: u64,
)
    requires
        st.pending.len() == 0,
        st.charges.len() == 0,
        distinct(st.flow_owners),
        !has_key(st.flow_owners, o.key),
        !has_key(st.tcp_seen, s.cookie),
        o.key.local == s.local,
        o.key.remote == s.remote,
        s.bytes == Some((sent, recv)),
    ensures
        ({
            let first = seq![NetworkEvent::Owner(o), NetworkEvent::Closed(s)];
            let then = seq![NetworkEvent::Closed(s), NetworkEvent::Owner(o)];
            let a = after_events(st, first, p, now);
            let b = after_events(st, then, p, now);
            let x = after_waiting(a, a.pending, a.pending.len() as int, now);
            let y = after_waiting(b, b.pending, b.pending.len() as int, now);
            &&& sent_by(x.charges, o.pid) == sent && recv_by(x.charges, o.pid) == recv
            &&& sent_by(y.charges, o.pid) == sent && recv_by(y.charges, o.pid) == recv
            &&& x.pending.len() == 0 && y.pending.len() == 0
        }),
{
    let ev_o = NetworkEvent::Owner(o);
    let ev_s = NetworkEvent::Closed(s);
    let first = seq![ev_o, ev_s];
    let then = seq![ev_s, ev_o];
    reveal_with_fuel(after_events, 3);
    assert(first.drop_last() =~= seq![ev_o] && seq![ev_o].drop_last() =~= Seq::empty());
    assert(then.drop_last() =~= seq![ev_s] && seq![ev_s].drop_last() =~= Seq::empty());
    assert(ends(s) == o.key);
    let owner = TcpOwner {
        pid: o.pid,
        path: path_or(p.images, o.pid, o.path),
        kind: settled(p.adapters, o.key.local.0, o.key.remote.0),
    };
    crate::assoc::law_put(st.flow_owners, o.key, (owner, now), o.key);
    let c = Charge { pid: o.pid, path: owner.path, kind: owner.kind, sent, recv };
    lemma_sum_push(st.charges, c, o.pid);
    let a = after_events(st, first, p, now);
    assert(a.pending == st.pending);
    let b = after_events(st, then, p, now);
    assert(st.pending =~= Seq::empty());
    reveal_with_fuel(crate::assoc::position, 2);
    assert(b.pending =~= seq![(ends(s), (s, now))]);
    reveal_with_fuel(after_waiting, 2);
    assert(b.charges == st.charges);
}

/// A closed socket waits for its owner for five seconds and no longer.
pub proof fn law_closed_sockets_wait_five_seconds(
    st: AcctState,
    waiting: Seq<(FlowKey, (SockInfo, u64))>,
    i: int,
    now: u64,
)
    requires
        0 <= i < waiting.len(),
        closing_of(waiting[i].1.0, st.tcp_seen, st.tcp_owners, st.flow_owners) is Waiting,
    ensures
        now - waiting[i].1.1 < 5_000 ==> after_waiting(
            st,
            waiting,
            waiting.len() as int,
            now,
        ).pending.contains(waiting[i]),
        forall|e: (FlowKey, (SockInfo, u64))| #[trigger]
            after_waiting(st, waiting, waiting.len() as int, now).pending.contains(e) ==> now
                - e.1.1 < 5_000,
{
    lemma_waiting_kept(st, waiting, waiting.len() as int, i, now);
}

proof fn lemma_waiting_kept(
    st: AcctState,
    waiting: Seq<(FlowKey, (SockInfo, u64))>,
    n: int,
    i: int,
    now: u64,
)
    requires
        0 <= i < waiting.len(),
        0 <= n <= waiting.len(),
        closing_of(waiting[i].1.0, st.tcp_seen, st.tcp_owners, st.flow_owners) is Waiting,
    ensures
        i < n && now - waiting[i].1.1 < 5_000 ==> after_waiting(
            st,
            waiting,
            n,
            now,
        ).pending.contains(waiting[i]),
        forall|e: (FlowKey, (SockInfo, u64))| #[trigger]
            after_waiting(st, waiting, n, now).pending.contains(e) ==> now - e.1.1 < 5_000,
    decreases n,
{
    if n > 0 {
        lemma_waiting_kept(st, waiting, n - 1, i, now);
        let before = after_waiting(st, waiting, n - 1, now).pending;
        let after = after_waiting(st, waiting, n, now).pending;
        if after != before {
            let x = waiting[n - 1];
            assert(after == before.push(x));
            assert(after[before.len() as int] == x);
            assert forall|e: (FlowKey, (SockInfo, u64))| before.contains(e) implies
                #[trigger] after.contains(e) by {
                let j = choose|j: int| 0 <= j < before.len() && before[j] == e;
                assert(after[j] == e);
            }
            assert forall|e: (FlowKey, (SockInfo, u64))| #[trigger] after.contains(e) implies now
                - e.1.1 < 5_000 by {
                let j = choose|j: int| 0 <= j < after.len() && after[j] == e;
                if j < before.len() {
                    assert(before[j] == e);
                    assert(before.contains(e));
                }
            }
        }
    }
}

/// Only sockets that listen are left out of what is polled.
pub proof fn law_listeners_are_left_out(socks: Seq<SockInfo>, s: SockInfo)
    ensures
        socks.filter(|s: SockInfo| !s.listens()).contains(s) == (socks.contains(s) && !(s.protocol
            == crate::model::Protocol::Tcp && s.state == 10)),
{
    let p = |s: SockInfo| !s.listens();
    if socks.contains(s) && !s.listens() {
        let i = choose|i: int| 0 <= i < socks.len() && socks[i] == s;
        socks.lemma_filter_contains(p, i);
    }
    if socks.filter(p).contains(s) {
        let i = choose|i: int| 0 <= i < socks.filter(p).len() && socks.filter(p)[i] == s;
        socks.lemma_filter_pred(p, i);
        socks.lemma_filter_contains_rev(p, s);
    }
}

} // verus!
