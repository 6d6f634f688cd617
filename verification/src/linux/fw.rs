//! Per-application enforcement: the first packet of every new flow waits for a
//! verdict.

use crate::assoc::{has_key, lookup, put, without, Assoc, Key};
use crate::ip::IpAddr;
use crate::linux::packet::{parse_tuple, tuple_of, PacketTuple};
use crate::model::{AppId, Direction, Endpoint};
use crate::rule::RuleAction;
use crate::text::trimmed;
use vstd::prelude::*;

verus! {

/// The queue of packets that go out.
pub const QUEUE_OUT: u16 = 17410;

/// The queue of packets that come in.
pub const QUEUE_IN: u16 = 17411;

/// How many workers give verdicts.
pub const WORKER_COUNT: u8 = 2;

/// How long a packet waits for a decision.
pub const HOLD_MS: u64 = 120_000;

/// How many packets may wait.
pub const MAX_HELD: usize = 512;

/// How long a listing of sockets is good for.
pub const SOCKETS_FRESH_MS: u64 = 200;

/// Rules by application for each direction, and the rule that each id stands for.
pub struct RuleMap {
    out: Assoc<String, RuleAction>,
    inbound: Assoc<String, RuleAction>,
    by_id: Assoc<u64, (String, Direction, RuleAction)>,
    trusted: Assoc<String, bool>,
}

/// An application and a direction.
pub ghost struct Subject {
    pub app: Seq<char>,
    pub direction: Direction,
}

/// A rule: what is done about an application in a direction.
pub ghost struct Entry {
    pub subject: Subject,
    pub action: RuleAction,
}

/// Rules as contracts see them.
#[verifier::ext_equal]
pub ghost struct Rules {
    pub out: Seq<(Seq<char>, RuleAction)>,
    pub inbound: Seq<(Seq<char>, RuleAction)>,
    pub by_id: Seq<(u64, Entry)>,
    /// Applications that are let through where no rule says otherwise.
    pub trusted: Seq<(Seq<char>, bool)>,
}

/// No rule.
pub open spec fn no_rules() -> Rules {
    Rules {
        out: Seq::empty(),
        inbound: Seq::empty(),
        by_id: Seq::empty(),
        trusted: Seq::empty(),
    }
}

/// What the rules say of an application: its rule, or else that it is trusted.
pub open spec fn verdict_of(r: Rules, direction: Direction, app: Seq<char>) -> Option<RuleAction> {
    let rule = match direction {
        Direction::Outbound => lookup(r.out, app),
        Direction::Inbound => lookup(r.inbound, app),
    };
    if rule is Some {
        rule
    } else if has_key(r.trusted, app) {
        Some(RuleAction::Allow)
    } else {
        None
    }
}

/// Rules with an action set for an application and a direction, or with none.
pub open spec fn enforcing(r: Rules, s: Subject, action: Option<RuleAction>) -> Rules {
    match (s.direction, action) {
        (Direction::Outbound, Some(a)) => Rules { out: put(r.out, s.app, a), ..r },
        (Direction::Outbound, None) => Rules { out: without(r.out, s.app), ..r },
        (Direction::Inbound, Some(a)) => Rules { inbound: put(r.inbound, s.app, a), ..r },
        (Direction::Inbound, None) => Rules { inbound: without(r.inbound, s.app), ..r },
    }
}

/// Rules with one more.
pub open spec fn with_rule(r: Rules, id: u64, s: Subject, action: RuleAction) -> Rules {
    Rules {
        by_id: put(r.by_id, id, Entry { subject: s, action }),
        ..enforcing(r, s, Some(action))
    }
}

/// The action of the newest rule for an application and a direction.
pub open spec fn newest_action(by_id: Seq<(u64, Entry)>, s: Subject) -> Option<RuleAction>
    decreases by_id.len(),
{
    if by_id.len() == 0 {
        None
    } else if by_id.last().1.subject == s {
        Some(by_id.last().1.action)
    } else {
        newest_action(by_id.drop_last(), s)
    }
}

/// Rules without the one of an id. Of the rules that are left for the application
/// and the direction, the newest is in force.
pub open spec fn without_id(r: Rules, id: u64) -> Rules {
    match lookup(r.by_id, id) {
        None => r,
        Some(e) => {
            let by_id = without(r.by_id, id);
            enforcing(Rules { by_id, ..r }, e.subject, newest_action(by_id, e.subject))
        },
    }
}

/// Rules with applications trusted.
pub open spec fn trusting(r: Rules, paths: Seq<Seq<char>>) -> Rules
    decreases paths.len(),
{
    if paths.len() == 0 {
        r
    } else {
        let before = trusting(r, paths.drop_last());
        Rules { trusted: put(before.trusted, trimmed(paths.last()), true), ..before }
    }
}

/// Rules with a program no longer trusted.
pub open spec fn forgetting(r: Rules, path: Seq<char>) -> Rules {
    Rules { trusted: without(r.trusted, trimmed(path)), ..r }
}

/// The rule of an id.
pub open spec fn entry_of(v: (String, Direction, RuleAction)) -> Entry {
    Entry { subject: Subject { app: v.0@, direction: v.1 }, action: v.2 }
}

impl RuleMap {
    /// The rules as contracts see them.
    pub closed spec fn rules(&self) -> Rules {
        Rules {
            out: self.out@,
            inbound: self.inbound@,
            by_id: crate::assoc::mapped(
                self.by_id@,
                |v: (String, Direction, RuleAction)| entry_of(v),
            ),
            trusted: self.trusted@,
        }
    }

    /// No rule.
    pub fn new() -> (r: RuleMap)
        ensures
            r.rules() == no_rules(),
    {
        let r = RuleMap {
            out: Assoc::new(),
            inbound: Assoc::new(),
            by_id: Assoc::new(),
            trusted: Assoc::new(),
        };
        assert(r.rules() =~= no_rules());
        r
    }

    /// What the rules say of an application.
    pub fn lookup(&self, direction: Direction, key: &String) -> (r: Option<RuleAction>)
        ensures
            r == verdict_of(self.rules(), direction, key@),
    {
        let explicit = match direction {
            Direction::Outbound => self.out.get(key),
            Direction::Inbound => self.inbound.get(key),
        };
        match explicit {
            Some(a) => Some(*a),
            None => if self.trusted.contains(key) {
                Some(RuleAction::Allow)
            } else {
                None
            },
        }
    }

    /// Adds a rule under an id.
    pub fn insert(&mut self, id: u64, key: String, direction: Direction, action: RuleAction)
        ensures
            final(self).rules() == with_rule(
                old(self).rules(),
                id,
                (Subject { app: key@, direction }),
                action,
            ),
    {
        proof {
            crate::assoc::lemma_mapped(
                self.by_id@,
                |v: (String, Direction, RuleAction)| entry_of(v),
                id,
                (key, direction, action),
            );
        }
        match direction {
            Direction::Outbound => {
                self.out.put(key.clone(), action);
            },
            Direction::Inbound => {
                self.inbound.put(key.clone(), action);
            },
        }
        self.by_id.put(id, (key, direction, action));
        assert(self.rules() =~= with_rule(
            old(self).rules(),
            id,
            Subject { app: key@, direction },
            action,
        ));
    }

    /// The action of the newest rule for an application and a direction.
    fn newest(&self, key: &String, direction: Direction) -> (r: Option<RuleAction>)
        ensures
            r == newest_action(self.rules().by_id, (Subject { app: key@, direction })),
    {
        let ghost s = Subject { app: key@, direction };
        let ghost by_id = self.rules().by_id;
        let mut n: usize = self.by_id.len();
        assert(by_id.take(n as int) =~= by_id);
        while n > 0
            invariant
                n <= self.by_id@.len(),
                by_id == self.rules().by_id,
                by_id.len() == self.by_id@.len(),
                s == (Subject { app: key@, direction }),
                newest_action(by_id.take(n as int), s) == newest_action(by_id, s),
            decreases n,
        {
            let v = self.by_id.value_at(n - 1);
            assert(by_id[n - 1].1 == entry_of(*v));
            assert(by_id.take(n as int).drop_last() =~= by_id.take(n - 1));
            if v.0 == *key && v.1 == direction {
                return Some(v.2);
            }
            n -= 1;
        }
        None
    }

    /// Removes the rule of an id. Another rule for the same application and
    /// direction is then in force again.
    pub fn remove_id(&mut self, id: u64)
        ensures
            final(self).rules() == without_id(old(self).rules(), id),
    {
        let ghost g = |v: (String, Direction, RuleAction)| entry_of(v);
        let ghost was = self.by_id@;
        let ghost before = self.rules();
        proof {
            crate::assoc::lemma_mapped(was, g, id, arbitrary());
        }
        let removed = self.by_id.remove(&id);
        if let Some((key, direction, _)) = removed {
            assert(self.rules().by_id == without(before.by_id, id));
            match (direction, self.newest(&key, direction)) {
                (Direction::Outbound, Some(a)) => {
                    self.out.put(key, a);
                },
                (Direction::Outbound, None) => {
                    self.out.remove(&key);
                },
                (Direction::Inbound, Some(a)) => {
                    self.inbound.put(key, a);
                },
                (Direction::Inbound, None) => {
                    self.inbound.remove(&key);
                },
            }
            assert(self.rules() =~= without_id(before, id));
        } else {
            assert(self.by_id@ =~= was);
        }
    }

    /// Trusts applications.
    pub fn trust(&mut self, paths: &Vec<String>)
        ensures
            final(self).rules() == trusting(
                old(self).rules(),
                paths@.map_values(|s: String| s@),
            ),
    {
        let ghost all = paths@.map_values(|s: String| s@);
        let mut i: usize = 0;
        assert(all.take(0) =~= Seq::empty());
        while i < paths.len()
            invariant
                i <= paths@.len(),
                all == paths@.map_values(|s: String| s@),
                self.rules() == trusting(old(self).rules(), all.take(i as int)),
            decreases paths@.len() - i,
        {
            assert(all.take(i + 1).drop_last() =~= all.take(i as int));
            assert(all.take(i + 1).last() == paths@[i as int]@);
            let ghost before = self.rules();
            let id = AppId::from_path(paths[i].as_str());
            self.trusted.put(id.0, true);
            assert(self.rules() =~= Rules {
                trusted: put(before.trusted, id@, true),
                ..before
            });
            i += 1;
        }
        assert(all.take(i as int) =~= all);
    }

    /// Stops trusting an application.
    pub fn forget(&mut self, path: &str)
        ensures
            final(self).rules() == forgetting(old(self).rules(), path@),
    {
        let id = AppId::from_path(path);
        self.trusted.remove(&id.0);
        assert(self.rules() =~= Rules {
            trusted: without(old(self).rules().trusted, trimmed(path@)),
            ..old(self).rules()
        });
    }
}

/// A rule decides for its application and direction, whatever is trusted, and for
/// no other.
pub proof fn law_a_rule_decides(
    r: Rules,
    id: u64,
    s: Subject,
    action: RuleAction,
    direction: Direction,
    app: Seq<char>,
)
    requires
        crate::assoc::distinct(r.out),
        crate::assoc::distinct(r.inbound),
    ensures
        verdict_of(with_rule(r, id, s, action), s.direction, s.app) == Some(action),
        direction != s.direction || app != s.app ==> verdict_of(
            with_rule(r, id, s, action),
            direction,
            app,
        ) == verdict_of(r, direction, app),
{
    crate::assoc::law_put(r.out, s.app, action, app);
    crate::assoc::law_put(r.inbound, s.app, action, app);
}

/// Whether what is in force for each application and direction is the action of
/// the newest rule for them, and no key occurs twice.
pub open spec fn consistent(r: Rules) -> bool {
    &&& crate::assoc::distinct(r.out)
    &&& crate::assoc::distinct(r.inbound)
    &&& crate::assoc::distinct(r.by_id)
    &&& forall|app: Seq<char>| #[trigger]
        lookup(r.out, app) == newest_action(
            r.by_id,
            Subject { app, direction: Direction::Outbound },
        )
    &&& forall|app: Seq<char>| #[trigger]
        lookup(r.inbound, app) == newest_action(
            r.by_id,
            Subject { app, direction: Direction::Inbound },
        )
}

proof fn lemma_newest_push(by_id: Seq<(u64, Entry)>, id: u64, e: Entry, s: Subject)
    ensures
        newest_action(by_id.push((id, e)), s) == (if e.subject == s {
            Some(e.action)
        } else {
            newest_action(by_id, s)
        }),
{
    assert(by_id.push((id, e)).drop_last() =~= by_id);
}

proof fn lemma_newest_remove(by_id: Seq<(u64, Entry)>, p: int, s: Subject)
    requires
        0 <= p < by_id.len(),
        by_id[p].1.subject != s,
    ensures
        newest_action(by_id.remove(p), s) == newest_action(by_id, s),
    decreases by_id.len(),
{
    let t = by_id.remove(p);
    if p == by_id.len() - 1 {
        assert(t =~= by_id.drop_last());
    } else {
        assert(t.last() == by_id.last());
        assert(t.drop_last() =~= by_id.drop_last().remove(p));
        lemma_newest_remove(by_id.drop_last(), p, s);
    }
}

/// Without rules, what is in force is consistent.
pub proof fn law_no_rules_are_consistent()
    ensures
        consistent(no_rules()),
{
}

/// Adding a rule under a new id keeps the rules consistent.
pub proof fn law_adding_keeps_rules_consistent(r: Rules, id: u64, s: Subject, action: RuleAction)
    requires
        consistent(r),
        !has_key(r.by_id, id),
    ensures
        consistent(with_rule(r, id, s, action)),
{
    let w = with_rule(r, id, s, action);
    let e = Entry { subject: s, action };
    crate::assoc::law_put(r.by_id, id, e, id);
    crate::assoc::law_put(r.out, s.app, action, s.app);
    crate::assoc::law_put(r.inbound, s.app, action, s.app);
    assert forall|app: Seq<char>| #[trigger]
        lookup(w.out, app) == newest_action(
            w.by_id,
            Subject { app, direction: Direction::Outbound },
        ) by {
        lemma_newest_push(r.by_id, id, e, Subject { app, direction: Direction::Outbound });
        crate::assoc::law_put(r.out, s.app, action, app);
        assert(lookup(r.out, app) == newest_action(
            r.by_id,
            Subject { app, direction: Direction::Outbound },
        ));
    }
    assert forall|app: Seq<char>| #[trigger]
        lookup(w.inbound, app) == newest_action(
            w.by_id,
            Subject { app, direction: Direction::Inbound },
        ) by {
        lemma_newest_push(r.by_id, id, e, Subject { app, direction: Direction::Inbound });
        crate::assoc::law_put(r.inbound, s.app, action, app);
        assert(lookup(r.inbound, app) == newest_action(
            r.by_id,
            Subject { app, direction: Direction::Inbound },
        ));
    }
}

/// Removing a rule keeps the rules consistent.
pub proof fn law_removing_keeps_rules_consistent(r: Rules, id: u64)
    requires
        consistent(r),
    ensures
        consistent(without_id(r, id)),
{
    if has_key(r.by_id, id) {
        let s = lookup(r.by_id, id)->0.subject;
        let w = without_id(r, id);
        let p = crate::assoc::position(r.by_id, id) as int;
        let left = newest_action(w.by_id, s);
        crate::assoc::law_without(r.by_id, id, id);
        crate::assoc::law_without(r.out, s.app, s.app);
        crate::assoc::law_without(r.inbound, s.app, s.app);
        crate::assoc::law_put(r.out, s.app, left->0, s.app);
        crate::assoc::law_put(r.inbound, s.app, left->0, s.app);
        assert forall|app: Seq<char>| #[trigger]
            lookup(w.out, app) == newest_action(
                w.by_id,
                Subject { app, direction: Direction::Outbound },
            ) by {
            let o = Subject { app, direction: Direction::Outbound };
            assert(lookup(r.out, app) == newest_action(r.by_id, o));
            crate::assoc::law_without(r.out, s.app, app);
            crate::assoc::law_put(r.out, s.app, left->0, app);
            if o != s {
                lemma_newest_remove(r.by_id, p, o);
            }
        }
        assert forall|app: Seq<char>| #[trigger]
            lookup(w.inbound, app) == newest_action(
                w.by_id,
                Subject { app, direction: Direction::Inbound },
            ) by {
            let o = Subject { app, direction: Direction::Inbound };
            assert(lookup(r.inbound, app) == newest_action(r.by_id, o));
            crate::assoc::law_without(r.inbound, s.app, app);
            crate::assoc::law_put(r.inbound, s.app, left->0, app);
            if o != s {
                lemma_newest_remove(r.by_id, p, o);
            }
        }
    }
}

/// Removing a rule leaves every other rule in force: the newest that is left for
/// an application and a direction decides.
pub proof fn law_a_rule_that_is_left_decides(r: Rules, id: u64, s: Subject)
    requires
        consistent(r),
    ensures
        newest_action(without(r.by_id, id), s) is Some ==> verdict_of(
            without_id(r, id),
            s.direction,
            s.app,
        ) == newest_action(without(r.by_id, id), s),
{
    law_removing_keeps_rules_consistent(r, id);
    let w = without_id(r, id);
    assert(w.by_id == without(r.by_id, id));
    assert(lookup(w.out, s.app) == newest_action(
        w.by_id,
        Subject { app: s.app, direction: Direction::Outbound },
    ));
    assert(lookup(w.inbound, s.app) == newest_action(
        w.by_id,
        Subject { app: s.app, direction: Direction::Inbound },
    ));
}

/// Removing a rule undoes adding it: its application counts as it did before, and
/// so does every other application.
pub proof fn law_removing_undoes_adding(
    r: Rules,
    id: u64,
    s: Subject,
    action: RuleAction,
    direction: Direction,
    app: Seq<char>,
)
    requires
        consistent(r),
        !has_key(r.by_id, id),
    ensures
        verdict_of(without_id(with_rule(r, id, s, action), id), direction, app) == verdict_of(
            r,
            direction,
            app,
        ),
{
    let w = with_rule(r, id, s, action);
    let e = Entry { subject: s, action };
    let u = without_id(w, id);
    crate::assoc::law_put(r.by_id, id, e, id);
    crate::assoc::lemma_position(r.by_id, id);
    assert(w.by_id == r.by_id.push((id, e)));
    crate::assoc::lemma_position(w.by_id, id);
    assert(without(w.by_id, id) =~= r.by_id);
    law_adding_keeps_rules_consistent(r, id, s, action);
    law_removing_keeps_rules_consistent(w, id);
    assert(u.by_id == r.by_id);
    assert(lookup(u.out, app) == newest_action(
        r.by_id,
        Subject { app, direction: Direction::Outbound },
    ));
    assert(lookup(r.out, app) == newest_action(
        r.by_id,
        Subject { app, direction: Direction::Outbound },
    ));
    assert(lookup(u.inbound, app) == newest_action(
        r.by_id,
        Subject { app, direction: Direction::Inbound },
    ));
    assert(lookup(r.inbound, app) == newest_action(
        r.by_id,
        Subject { app, direction: Direction::Inbound },
    ));
}

/// A connection that waits for a decision.
#[derive(Debug, PartialEq, Eq)]
pub struct PendingConnection {
    pub app: AppId,
    pub remote: Endpoint,
    pub direction: Direction,
}

/// What is done with a packet.
#[derive(Debug, Clone, Copy, PartialEq, Eq, Structural)]
pub enum Verdict {
    Accept,
    Drop,
}

/// What is decided of a packet.
#[derive(Debug, PartialEq, Eq)]
pub enum PacketDecision {
    Verdict(Verdict),
    Pending(PendingConnection),
}

/// The end of a packet's flow that is this host's.
pub open spec fn local_end(t: PacketTuple, direction: Direction) -> (IpAddr, u16) {
    match direction {
        Direction::Outbound => (t.source, t.source_port),
        Direction::Inbound => (t.destination, t.destination_port),
    }
}

/// The end of a packet's flow that is the other host's.
pub open spec fn remote_end(t: PacketTuple, direction: Direction) -> Endpoint {
    match direction {
        Direction::Outbound => Endpoint {
            addr: t.destination,
            port: t.destination_port,
            protocol: t.protocol,
        },
        Direction::Inbound => Endpoint {
            addr: t.source,
            port: t.source_port,
            protocol: t.protocol,
        },
    }
}

/// This host's end of a packet's flow, by which its process is found.
pub fn local_endpoint(packet: &[u8], direction: Direction) -> (r: Option<(IpAddr, u16)>)
    ensures
        r == (match tuple_of(packet@) {
            Some(t) => Some(local_end(t, direction)),
            None => None,
        }),
{
    match parse_tuple(packet) {
        Some(t) => Some(
            match direction {
                Direction::Outbound => (t.source, t.source_port),
                Direction::Inbound => (t.destination, t.destination_port),
            },
        ),
        None => None,
    }
}

/// What the verdict on a rule's action is.
pub open spec fn verdict_on(a: RuleAction) -> Verdict {
    match a {
        RuleAction::Allow => Verdict::Accept,
        RuleAction::Block => Verdict::Drop,
    }
}

fn verdict_for(a: RuleAction) -> (v: Verdict)
    ensures
        v == verdict_on(a),
{
    match a {
        RuleAction::Allow => Verdict::Accept,
        RuleAction::Block => Verdict::Drop,
    }
}

/// What is decided of a packet, as contracts see it.
pub ghost enum Decided {
    Verdict(Verdict),
    Waits { app: Seq<char>, remote: Endpoint, direction: Direction },
}

/// What is decided of a packet, as contracts see it.
pub open spec fn decision_view(d: PacketDecision) -> Decided {
    match d {
        PacketDecision::Verdict(v) => Decided::Verdict(v),
        PacketDecision::Pending(p) => Decided::Waits {
            app: p.app@,
            remote: p.remote,
            direction: p.direction,
        },
    }
}

/// What is decided of a packet with the ends `t` of the program `exe`.
pub open spec fn decided(
    t: Option<PacketTuple>,
    direction: Direction,
    r: Rules,
    exe: Option<Seq<char>>,
) -> Decided {
    match (t, exe) {
        (Some(t), Some(e)) => match verdict_of(r, direction, trimmed(e)) {
            Some(a) => Decided::Verdict(verdict_on(a)),
            None => Decided::Waits {
                app: trimmed(e),
                remote: remote_end(t, direction),
                direction,
            },
        },
        _ => Decided::Verdict(Verdict::Accept),
    }
}

/// A rule for a program decides about each of its packets in that direction: one
/// that blocks drops them and one that allows lets them through.
pub proof fn law_packets_follow_the_rule(
    r: Rules,
    id: u64,
    t: PacketTuple,
    direction: Direction,
    exe: Seq<char>,
)
    requires
        crate::assoc::distinct(r.out),
        crate::assoc::distinct(r.inbound),
    ensures
        ({
            let s = Subject { app: trimmed(exe), direction };
            &&& decided(Some(t), direction, with_rule(r, id, s, RuleAction::Block), Some(exe))
                == Decided::Verdict(Verdict::Drop)
            &&& decided(Some(t), direction, with_rule(r, id, s, RuleAction::Allow), Some(exe))
                == Decided::Verdict(Verdict::Accept)
        }),
{
    let s = Subject { app: trimmed(exe), direction };
    law_a_rule_decides(r, id, s, RuleAction::Block, direction, trimmed(exe));
    law_a_rule_decides(r, id, s, RuleAction::Allow, direction, trimmed(exe));
}

/// A packet of a program that no rule names and that is not trusted waits, and is
/// reported with the program and the other host: the destination of what goes out,
/// and the source of what comes in.
pub proof fn law_undecided_programs_wait(r: Rules, t: PacketTuple, exe: Seq<char>)
    requires
        forall|i: int| 0 <= i < r.out.len() ==> (#[trigger] r.out[i]).0 != trimmed(exe),
        forall|i: int| 0 <= i < r.inbound.len() ==> (#[trigger] r.inbound[i]).0 != trimmed(exe),
        forall|i: int| 0 <= i < r.trusted.len() ==> (#[trigger] r.trusted[i]).0 != trimmed(exe),
    ensures
        decided(Some(t), Direction::Outbound, r, Some(exe)) == (Decided::Waits {
            app: trimmed(exe),
            remote: Endpoint {
                addr: t.destination,
                port: t.destination_port,
                protocol: t.protocol,
            },
            direction: Direction::Outbound,
        }),
        decided(Some(t), Direction::Inbound, r, Some(exe)) == (Decided::Waits {
            app: trimmed(exe),
            remote: Endpoint { addr: t.source, port: t.source_port, protocol: t.protocol },
            direction: Direction::Inbound,
        }),
{
    crate::assoc::lemma_position_none(r.out, trimmed(exe));
    crate::assoc::lemma_position_none(r.inbound, trimmed(exe));
    crate::assoc::lemma_position_none(r.trusted, trimmed(exe));
}

/// A packet without ends, or of a program that could not be found, is let through
/// whatever the rules are, so that a lookup that fails cuts nothing.
pub proof fn law_unknown_programs_pass(
    t: Option<PacketTuple>,
    direction: Direction,
    r: Rules,
    exe: Option<Seq<char>>,
)
    requires
        t is None || exe is None,
    ensures
        decided(t, direction, r, exe) == Decided::Verdict(Verdict::Accept),
{
}

/// A packet's program is looked for at this host's end: where what goes out came
/// from, and where what comes in goes to.
pub proof fn law_the_local_end_is_this_hosts(t: PacketTuple)
    ensures
        local_end(t, Direction::Outbound) == (t.source, t.source_port),
        local_end(t, Direction::Inbound) == (t.destination, t.destination_port),
{
}

proof fn lemma_trusting(r: Rules, paths: Seq<Seq<char>>, app: Seq<char>)
    requires
        crate::assoc::distinct(r.trusted),
    ensures
        crate::assoc::distinct(trusting(r, paths).trusted),
        trusting(r, paths).out == r.out,
        trusting(r, paths).inbound == r.inbound,
        trusting(r, paths).by_id == r.by_id,
        has_key(trusting(r, paths).trusted, app) == (has_key(r.trusted, app) || exists|i: int|
            0 <= i < paths.len() && trimmed(#[trigger] paths[i]) == app),
    decreases paths.len(),
{
    if paths.len() > 0 {
        let front = paths.drop_last();
        let before = trusting(r, front);
        let k = trimmed(paths.last());
        lemma_trusting(r, front, app);
        crate::assoc::law_put(before.trusted, k, true, app);
        crate::assoc::lemma_position(put(before.trusted, k, true), k);
        assert(has_key(put(before.trusted, k, true), app) == (app == k || has_key(
            before.trusted,
            app,
        )));
        if exists|i: int| 0 <= i < paths.len() && trimmed(#[trigger] paths[i]) == app {
            let i = choose|i: int| 0 <= i < paths.len() && trimmed(#[trigger] paths[i]) == app;
            if i < front.len() {
                assert(trimmed(front[i]) == app);
            }
        }
        if exists|i: int| 0 <= i < front.len() && trimmed(#[trigger] front[i]) == app {
            let i = choose|i: int| 0 <= i < front.len() && trimmed(#[trigger] front[i]) == app;
            assert(trimmed(paths[i]) == app);
        }
        assert(trimmed(paths[paths.len() - 1]) == k);
    }
}

/// Trusting programs lets exactly those through that no rule names: a rule decides
/// as it did before, and so does everything for a program that is not among them.
pub proof fn law_trust_lets_through_what_no_rule_names(
    r: Rules,
    paths: Seq<Seq<char>>,
    direction: Direction,
    app: Seq<char>,
)
    requires
        crate::assoc::distinct(r.trusted),
    ensures
        ({
            let after = trusting(r, paths);
            let named = exists|i: int| 0 <= i < paths.len() && trimmed(#[trigger] paths[i]) == app;
            verdict_of(after, direction, app) == (if verdict_of(r, direction, app) is Some {
                verdict_of(r, direction, app)
            } else if named {
                Some(RuleAction::Allow)
            } else {
                None
            })
        }),
{
    lemma_trusting(r, paths, app);
}

/// A program that is no longer trusted is undecided where no rule names it; rules
/// and the other programs stay as they are.
pub proof fn law_forgotten_programs_are_undecided(
    r: Rules,
    path: Seq<char>,
    direction: Direction,
    app: Seq<char>,
)
    requires
        crate::assoc::distinct(r.trusted),
    ensures
        ({
            let after = forgetting(r, path);
            &&& app != trimmed(path) ==> verdict_of(after, direction, app) == verdict_of(
                r,
                direction,
                app,
            )
            &&& verdict_of(after, direction, trimmed(path)) == (match direction {
                Direction::Outbound => lookup(r.out, trimmed(path)),
                Direction::Inbound => lookup(r.inbound, trimmed(path)),
            })
        }),
{
    crate::assoc::law_without(r.trusted, trimmed(path), app);
}

/// Decides about a packet of the program `exe`. A packet without endpoints or
/// without a known program passes; an application without a rule waits.
pub fn decide(packet: &[u8], direction: Direction, rules: &RuleMap, exe: Option<String>) -> (r:
    PacketDecision)
    ensures
        decision_view(r) == decided(
            tuple_of(packet@),
            direction,
            rules.rules(),
            crate::text::text_view(exe),
        ),
{
    let t = match parse_tuple(packet) {
        Some(t) => t,
        None => {
            return PacketDecision::Verdict(Verdict::Accept);
        },
    };
    let exe = match exe {
        Some(e) => e,
        None => {
            return PacketDecision::Verdict(Verdict::Accept);
        },
    };
    let app = AppId::from_path(exe.as_str());
    match rules.lookup(direction, &app.0) {
        Some(a) => PacketDecision::Verdict(verdict_for(a)),
        None => {
            let remote = match direction {
                Direction::Outbound => Endpoint {
                    addr: t.destination,
                    port: t.destination_port,
                    protocol: t.protocol,
                },
                Direction::Inbound => Endpoint {
                    addr: t.source,
                    port: t.source_port,
                    protocol: t.protocol,
                },
            };
            PacketDecision::Pending(PendingConnection { app, remote, direction })
        },
    }
}

} // verus!
