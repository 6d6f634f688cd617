//! What the plugins' table lets through: its rules one by one, and what they do to
//! a packet.

use crate::ip::IpAddr;
use crate::linux::egress::{
    chain_text, grant_text, grants_text, permit, permits, resolver_permit, resolver_permits,
    rule_to, scope_of, server_of, Cgroup, Grant,
};
use crate::model::Protocol;
use crate::text::{dec_text, lines};
use vstd::prelude::*;

verus! {

/// A rule of the table's chain.
pub ghost enum ChainRule {
    /// Packets of other accounts pass.
    Others(u32),
    /// Packets of a control group to one port of one address pass, those of one
    /// transport or of either.
    To { cgroup: Cgroup, address: IpAddr, port: u16, transport: Option<Protocol> },
    /// The account's other packets are dropped.
    Rest(u32),
}

/// A packet that leaves the host: the account and the control groups of its socket,
/// the groups by how deep they lie, and where it goes.
pub ghost struct Packet {
    pub uid: u32,
    pub groups: spec_fn(nat) -> Seq<char>,
    pub address: IpAddr,
    pub port: u16,
    pub transport: Protocol,
}

/// A rule as it is written.
pub open spec fn rule_text(r: ChainRule) -> Seq<char> {
    match r {
        ChainRule::Others(uid) => "add rule inet iris_plugins out meta skuid != "@ + dec_text(
            uid as nat,
        ) + " accept\n"@,
        ChainRule::To { cgroup, address, port, transport } => match transport {
            None => permit(scope_of(cgroup), (address, port)),
            Some(Protocol::Udp) => rule_to(scope_of(cgroup), address) + " udp dport "@ + dec_text(
                port as nat,
            ) + " accept\n"@,
            Some(Protocol::Tcp) => rule_to(scope_of(cgroup), address) + " tcp dport "@ + dec_text(
                port as nat,
            ) + " accept\n"@,
        },
        ChainRule::Rest(uid) => "add rule inet iris_plugins out meta skuid "@ + dec_text(uid as nat)
            + " drop\n"@,
    }
}

/// Rules as they are written.
pub open spec fn written(rules: Seq<ChainRule>) -> Seq<char>
    decreases rules.len(),
{
    if rules.len() == 0 {
        Seq::empty()
    } else {
        written(rules.drop_last()) + rule_text(rules.last())
    }
}

/// The rules for the endpoints of a grant.
pub open spec fn end_rules(cgroup: Cgroup, ends: Seq<(IpAddr, u16)>) -> Seq<ChainRule> {
    ends.map_values(
        |e: (IpAddr, u16)| ChainRule::To { cgroup, address: e.0, port: e.1, transport: None },
    )
}

/// The rule for asking a name server over one transport.
pub open spec fn ask_rule(cgroup: Cgroup, server: IpAddr, transport: Protocol) -> ChainRule {
    ChainRule::To { cgroup, address: server, port: 53, transport: Some(transport) }
}

/// The rules for asking the name servers of the lines.
pub open spec fn ask_rules(cgroup: Cgroup, ls: Seq<Seq<char>>) -> Seq<ChainRule>
    decreases ls.len(),
{
    if ls.len() == 0 {
        Seq::empty()
    } else {
        let before = ask_rules(cgroup, ls.drop_last());
        match server_of(ls.last()) {
            Some(a) => before.push(ask_rule(cgroup, a, Protocol::Udp)).push(
                ask_rule(cgroup, a, Protocol::Tcp),
            ),
            None => before,
        }
    }
}

/// The rules of one grant.
pub open spec fn grant_rules(g: Grant, config: Option<Seq<char>>) -> Seq<ChainRule> {
    let dns = match config {
        Some(c) if g.allow_dns => ask_rules(g.cgroup, lines(c)),
        _ => Seq::empty(),
    };
    dns + end_rules(g.cgroup, g.allowed@)
}

/// The rules of the grants.
pub open spec fn grants_rules(
    pins: Seq<(Seq<Seq<char>>, Grant)>,
    config: Option<Seq<char>>,
) -> Seq<ChainRule>
    decreases pins.len(),
{
    if pins.len() == 0 {
        Seq::empty()
    } else {
        grants_rules(pins.drop_last(), config) + grant_rules(pins.last().1, config)
    }
}

/// The chain's rules.
pub open spec fn chain(
    uid: u32,
    pins: Seq<(Seq<Seq<char>>, Grant)>,
    config: Option<Seq<char>>,
) -> Seq<ChainRule> {
    seq![ChainRule::Others(uid)] + grants_rules(pins, config) + seq![ChainRule::Rest(uid)]
}

/// Whether a rule is about a packet.
pub open spec fn about(r: ChainRule, p: Packet) -> bool {
    match r {
        ChainRule::Others(uid) => p.uid != uid,
        ChainRule::To { cgroup, address, port, transport } => within(p, cgroup) && p.address
            == address && p.port == port && (transport is None || transport == Some(p.transport)),
        ChainRule::Rest(uid) => p.uid == uid,
    }
}

/// Whether a packet's socket is in a control group, or in one below it.
pub open spec fn within(p: Packet, cgroup: Cgroup) -> bool {
    (p.groups)(cgroup.level as nat) == cgroup.nft_path@
}

/// Whether the rules let a packet pass: the first rule about it decides, and where
/// there is none it passes.
pub open spec fn passes(rules: Seq<ChainRule>, p: Packet) -> bool
    decreases rules.len(),
{
    if rules.len() == 0 {
        true
    } else if about(rules[0], p) {
        !(rules[0] is Rest)
    } else {
        passes(rules.drop_first(), p)
    }
}

/// Whether a line of the resolver's configuration names the server.
pub open spec fn is_server(config: Seq<char>, a: IpAddr) -> bool {
    exists|i: int|
        0 <= i < lines(config).len() && server_of(#[trigger] lines(config)[i]) == Some(a)
}

/// Whether a grant is for a packet: it comes from the grant's control group, and
/// goes to one of its endpoints or, where names may be looked up, asks a name
/// server.
pub open spec fn granted(g: Grant, config: Option<Seq<char>>, p: Packet) -> bool {
    &&& within(p, g.cgroup)
    &&& {
        ||| g.allowed@.contains((p.address, p.port))
        ||| g.allow_dns && config is Some && p.port == 53 && is_server(config->Some_0, p.address)
    }
}

proof fn lemma_written_adds(a: Seq<ChainRule>, b: Seq<ChainRule>)
    ensures
        written(a + b) == written(a) + written(b),
    decreases b.len(),
{
    if b.len() == 0 {
        assert(a + b =~= a);
        assert(written(a) + written(b) =~= written(a));
    } else {
        assert((a + b).drop_last() =~= a + b.drop_last());
        lemma_written_adds(a, b.drop_last());
        assert(written(a) + (written(b.drop_last()) + rule_text(b.last())) =~= (written(a)
            + written(b.drop_last())) + rule_text(b.last()));
    }
}

proof fn lemma_ends_written(cgroup: Cgroup, ends: Seq<(IpAddr, u16)>)
    ensures
        written(end_rules(cgroup, ends)) == permits(scope_of(cgroup), ends),
    decreases ends.len(),
{
    if ends.len() > 0 {
        assert(end_rules(cgroup, ends).drop_last() =~= end_rules(cgroup, ends.drop_last()));
        lemma_ends_written(cgroup, ends.drop_last());
    }
}

proof fn lemma_asks_written(cgroup: Cgroup, ls: Seq<Seq<char>>)
    ensures
        written(ask_rules(cgroup, ls)) == resolver_permits(scope_of(cgroup), ls),
    decreases ls.len(),
{
    if ls.len() > 0 {
        lemma_asks_written(cgroup, ls.drop_last());
        let before = ask_rules(cgroup, ls.drop_last());
        if let Some(a) = server_of(ls.last()) {
            let udp = ask_rule(cgroup, a, Protocol::Udp);
            let tcp = ask_rule(cgroup, a, Protocol::Tcp);
            assert(before.push(udp).push(tcp).drop_last() =~= before.push(udp));
            assert(before.push(udp).drop_last() =~= before);
            lemma_ask_texts(cgroup, a);
            let to = rule_to(scope_of(cgroup), a);
            let w = written(before);
            let (u, t) = (to + " udp dport 53 accept\n"@, to + " tcp dport 53 accept\n"@);
            assert(written(before.push(udp)) == w + u);
            assert(written(before.push(udp).push(tcp)) == (w + u) + t);
            assert((w + u) + t =~= w + (u + t));
            assert(u + t =~= resolver_permit(scope_of(cgroup), a));
        }
    }
}

proof fn lemma_port_53()
    ensures
        dec_text(53) == "53"@,
{
    reveal_with_fuel(dec_text, 3);
    reveal_strlit("53");
    assert(dec_text(53) =~= "53"@);
}

proof fn lemma_ask_texts(cgroup: Cgroup, server: IpAddr)
    ensures
        rule_text(ask_rule(cgroup, server, Protocol::Udp)) == rule_to(scope_of(cgroup), server)
            + " udp dport 53 accept\n"@,
        rule_text(ask_rule(cgroup, server, Protocol::Tcp)) == rule_to(scope_of(cgroup), server)
            + " tcp dport 53 accept\n"@,
{
    lemma_port_53();
    let to = rule_to(scope_of(cgroup), server);
    assert(" udp dport "@ + "53"@ + " accept\n"@ =~= " udp dport 53 accept\n"@) by {
        reveal_strlit(" udp dport ");
        reveal_strlit("53");
        reveal_strlit(" accept\n");
        reveal_strlit(" udp dport 53 accept\n");
    }
    assert(" tcp dport "@ + "53"@ + " accept\n"@ =~= " tcp dport 53 accept\n"@) by {
        reveal_strlit(" tcp dport ");
        reveal_strlit("53");
        reveal_strlit(" accept\n");
        reveal_strlit(" tcp dport 53 accept\n");
    }
    assert(to + " udp dport "@ + "53"@ + " accept\n"@ =~= to + (" udp dport "@ + "53"@
        + " accept\n"@));
    assert(to + " tcp dport "@ + "53"@ + " accept\n"@ =~= to + (" tcp dport "@ + "53"@
        + " accept\n"@));
}

proof fn lemma_grants_written(pins: Seq<(Seq<Seq<char>>, Grant)>, config: Option<Seq<char>>)
    ensures
        written(grants_rules(pins, config)) == grants_text(pins, config),
    decreases pins.len(),
{
    if pins.len() > 0 {
        lemma_grants_written(pins.drop_last(), config);
        let g = pins.last().1;
        lemma_written_adds(grants_rules(pins.drop_last(), config), grant_rules(g, config));
        let ends = end_rules(g.cgroup, g.allowed@);
        lemma_ends_written(g.cgroup, g.allowed@);
        match config {
            Some(c) if g.allow_dns => {
                lemma_asks_written(g.cgroup, lines(c));
                lemma_written_adds(ask_rules(g.cgroup, lines(c)), ends);
            },
            _ => {
                lemma_written_adds(Seq::empty(), ends);
            },
        }
        assert(written(grant_rules(g, config)) =~= grant_text(g, config));
    }
}

/// The table's text is the line that makes the chain and then its rules.
pub proof fn law_the_chain_is_written_rule_by_rule(
    uid: u32,
    pins: Seq<(Seq<Seq<char>>, Grant)>,
    config: Option<Seq<char>>,
)
    ensures
        chain_text(uid, pins, config)
            == "add chain inet iris_plugins out { type filter hook output priority -5; policy accept; }\n"@
            + written(chain(uid, pins, config)),
{
    let first = seq![ChainRule::Others(uid)];
    let last = seq![ChainRule::Rest(uid)];
    lemma_written_adds(first + grants_rules(pins, config), last);
    lemma_written_adds(first, grants_rules(pins, config));
    lemma_grants_written(pins, config);
    assert(first.drop_last() =~= Seq::empty());
    assert(last.drop_last() =~= Seq::empty());
    assert(written(Seq::<ChainRule>::empty()) =~= Seq::<char>::empty());
    assert(written(first) =~= rule_text(ChainRule::Others(uid)));
    assert(written(last) =~= rule_text(ChainRule::Rest(uid)));
    reveal_strlit(
        "add chain inet iris_plugins out { type filter hook output priority -5; policy accept; }\n",
    );
    reveal_strlit("add rule inet iris_plugins out meta skuid != ");
    reveal_strlit(
        "add chain inet iris_plugins out { type filter hook output priority -5; policy accept; }\nadd rule inet iris_plugins out meta skuid != ",
    );
    assert("add chain inet iris_plugins out { type filter hook output priority -5; policy accept; }\n"@
        + "add rule inet iris_plugins out meta skuid != "@
        =~= "add chain inet iris_plugins out { type filter hook output priority -5; policy accept; }\nadd rule inet iris_plugins out meta skuid != "@);
    assert(chain_text(uid, pins, config)
        =~= "add chain inet iris_plugins out { type filter hook output priority -5; policy accept; }\n"@
        + written(chain(uid, pins, config)));
}

proof fn lemma_asks_about(cgroup: Cgroup, ls: Seq<Seq<char>>, p: Packet)
    ensures
        forall|i: int|
            0 <= i < ask_rules(cgroup, ls).len() ==> (#[trigger] ask_rules(cgroup, ls)[i]) is To,
        (exists|i: int|
            0 <= i < ask_rules(cgroup, ls).len() && about(#[trigger] ask_rules(cgroup, ls)[i], p))
            == (within(p, cgroup) && p.port == 53 && exists|i: int|
            0 <= i < ls.len() && server_of(#[trigger] ls[i]) == Some(p.address)),
    decreases ls.len(),
{
    if ls.len() > 0 {
        let front = ls.drop_last();
        let before = ask_rules(cgroup, front);
        let all = ask_rules(cgroup, ls);
        lemma_asks_about(cgroup, front, p);
        let named = exists|i: int| 0 <= i < ls.len() && server_of(#[trigger] ls[i]) == Some(p.address);
        let named_before = exists|i: int|
            0 <= i < front.len() && server_of(#[trigger] front[i]) == Some(p.address);
        if named {
            let i = choose|i: int| 0 <= i < ls.len() && server_of(#[trigger] ls[i]) == Some(p.address);
            if i < front.len() {
                assert(front[i] == ls[i]);
            }
        }
        if named_before {
            let i = choose|i: int|
                0 <= i < front.len() && server_of(#[trigger] front[i]) == Some(p.address);
            assert(ls[i] == front[i]);
        }
        assert(named == (named_before || server_of(ls.last()) == Some(p.address)));
        assert forall|i: int| 0 <= i < before.len() implies all[i] == before[i] by {}
        let hit = exists|i: int| 0 <= i < all.len() && about(#[trigger] all[i], p);
        let hit_before = exists|i: int| 0 <= i < before.len() && about(#[trigger] before[i], p);
        if hit_before {
            let i = choose|i: int| 0 <= i < before.len() && about(#[trigger] before[i], p);
            assert(about(all[i], p));
        }
        match server_of(ls.last()) {
            Some(a) => {
                let n = before.len() as int;
                assert(all[n] == ask_rule(cgroup, a, Protocol::Udp));
                assert(all[n + 1] == ask_rule(cgroup, a, Protocol::Tcp));
                let own = within(p, cgroup) && p.port == 53 && p.address == a;
                if own {
                    match p.transport {
                        Protocol::Udp => {
                            assert(about(all[n], p));
                        },
                        Protocol::Tcp => {
                            assert(about(all[n + 1], p));
                        },
                    }
                }
                if hit {
                    let i = choose|i: int| 0 <= i < all.len() && about(#[trigger] all[i], p);
                    if i < n {
                        assert(about(before[i], p));
                    }
                }
                assert(hit == (hit_before || own));
            },
            None => {},
        }
    }
}

proof fn lemma_grant_about(g: Grant, config: Option<Seq<char>>, p: Packet)
    ensures
        forall|i: int|
            0 <= i < grant_rules(g, config).len() ==> (#[trigger] grant_rules(g, config)[i]) is To,
        (exists|i: int|
            0 <= i < grant_rules(g, config).len() && about(
                #[trigger] grant_rules(g, config)[i],
                p,
            )) == granted(g, config, p),
{
    let dns = match config {
        Some(c) if g.allow_dns => ask_rules(g.cgroup, lines(c)),
        _ => Seq::<ChainRule>::empty(),
    };
    let ends = end_rules(g.cgroup, g.allowed@);
    let all = grant_rules(g, config);
    assert(all == dns + ends);
    if let Some(c) = config {
        lemma_asks_about(g.cgroup, lines(c), p);
    }
    let n = dns.len() as int;
    assert forall|i: int| 0 <= i < all.len() implies (#[trigger] all[i]) is To by {
        if i >= n {
            assert(all[i] == ends[i - n]);
        }
    }
    let hit = exists|i: int| 0 <= i < all.len() && about(#[trigger] all[i], p);
    if hit {
        let i = choose|i: int| 0 <= i < all.len() && about(#[trigger] all[i], p);
        if i < n {
            assert(about(dns[i], p));
        } else {
            assert(all[i] == ends[i - n]);
            assert(g.allowed@[i - n] == (p.address, p.port));
        }
    }
    if granted(g, config, p) {
        if g.allowed@.contains((p.address, p.port)) {
            let k = choose|k: int| 0 <= k < g.allowed@.len() && g.allowed@[k] == (p.address, p.port);
            assert(all[n + k] == ends[k]);
            assert(about(all[n + k], p));
        } else {
            let i = choose|i: int| 0 <= i < dns.len() && about(#[trigger] dns[i], p);
            assert(about(all[i], p));
        }
    }
}

proof fn lemma_grants_about(
    pins: Seq<(Seq<Seq<char>>, Grant)>,
    config: Option<Seq<char>>,
    p: Packet,
)
    ensures
        forall|i: int|
            0 <= i < grants_rules(pins, config).len() ==> (#[trigger] grants_rules(
                pins,
                config,
            )[i]) is To,
        (exists|i: int|
            0 <= i < grants_rules(pins, config).len() && about(
                #[trigger] grants_rules(pins, config)[i],
                p,
            )) == (exists|k: int|
            0 <= k < pins.len() && granted((#[trigger] pins[k]).1, config, p)),
    decreases pins.len(),
{
    if pins.len() > 0 {
        let front = pins.drop_last();
        let before = grants_rules(front, config);
        let own = grant_rules(pins.last().1, config);
        let all = grants_rules(pins, config);
        let n = before.len() as int;
        lemma_grants_about(front, config, p);
        lemma_grant_about(pins.last().1, config, p);
        assert forall|i: int| 0 <= i < all.len() implies (#[trigger] all[i]) is To by {
            if i < n {
                assert(all[i] == before[i]);
            } else {
                assert(all[i] == own[i - n]);
            }
        }
        let hit = exists|i: int| 0 <= i < all.len() && about(#[trigger] all[i], p);
        let has = exists|k: int| 0 <= k < pins.len() && granted((#[trigger] pins[k]).1, config, p);
        if hit {
            let i = choose|i: int| 0 <= i < all.len() && about(#[trigger] all[i], p);
            if i < n {
                assert(about(before[i], p));
                let k = choose|k: int|
                    0 <= k < front.len() && granted((#[trigger] front[k]).1, config, p);
                assert(granted(pins[k].1, config, p));
            } else {
                assert(about(own[i - n], p));
                assert(granted(pins[pins.len() - 1].1, config, p));
            }
        }
        if has {
            let k = choose|k: int|
                0 <= k < pins.len() && granted((#[trigger] pins[k]).1, config, p);
            if k < front.len() {
                assert(granted(front[k].1, config, p));
                let i = choose|i: int| 0 <= i < before.len() && about(#[trigger] before[i], p);
                assert(about(all[i], p));
            } else {
                let i = choose|i: int| 0 <= i < own.len() && about(#[trigger] own[i], p);
                assert(about(all[n + i], p));
            }
        }
    }
}

/// Rules that let through, and then one that drops the account's packets.
proof fn lemma_passing(rules: Seq<ChainRule>, uid: u32, p: Packet)
    requires
        forall|i: int| 0 <= i < rules.len() ==> (#[trigger] rules[i]) is To,
        p.uid == uid,
    ensures
        passes(rules + seq![ChainRule::Rest(uid)], p) == (exists|i: int|
            0 <= i < rules.len() && about(#[trigger] rules[i], p)),
    decreases rules.len(),
{
    let all = rules + seq![ChainRule::Rest(uid)];
    if rules.len() == 0 {
        assert(all[0] == ChainRule::Rest(uid));
    } else {
        assert(all[0] == rules[0]);
        let rest = rules.drop_first();
        assert(all.drop_first() =~= rest + seq![ChainRule::Rest(uid)]);
        assert forall|i: int| 0 <= i < rest.len() implies (#[trigger] rest[i]) is To by {
            assert(rest[i] == rules[i + 1]);
        }
        lemma_passing(rest, uid, p);
        if exists|i: int| 0 <= i < rules.len() && about(#[trigger] rules[i], p) {
            let i = choose|i: int| 0 <= i < rules.len() && about(#[trigger] rules[i], p);
            if i > 0 {
                assert(about(rest[i - 1], p));
            }
        }
        if exists|i: int| 0 <= i < rest.len() && about(#[trigger] rest[i], p) {
            let i = choose|i: int| 0 <= i < rest.len() && about(#[trigger] rest[i], p);
            assert(about(rules[i + 1], p));
        }
    }
}

/// The table is about the plugins' account alone: packets of other accounts pass.
pub proof fn law_others_are_left_alone(
    uid: u32,
    pins: Seq<(Seq<Seq<char>>, Grant)>,
    config: Option<Seq<char>>,
    p: Packet,
)
    requires
        p.uid != uid,
    ensures
        passes(chain(uid, pins, config), p),
{
    assert(chain(uid, pins, config)[0] == ChainRule::Others(uid));
}

/// A packet of the plugins' account passes if and only if a grant is for it: what
/// one plugin was granted opens nothing for another, and where nothing was granted
/// nothing passes.
pub proof fn law_plugins_reach_what_was_granted(
    uid: u32,
    pins: Seq<(Seq<Seq<char>>, Grant)>,
    config: Option<Seq<char>>,
    p: Packet,
)
    requires
        p.uid == uid,
    ensures
        passes(chain(uid, pins, config), p) == (exists|k: int|
            0 <= k < pins.len() && granted((#[trigger] pins[k]).1, config, p)),
        (forall|k: int|
            0 <= k < pins.len() && within(p, (#[trigger] pins[k]).1.cgroup) ==> !pins[k].1.allow_dns
                && pins[k].1.allowed@.len() == 0) ==> !passes(chain(uid, pins, config), p),
{
    let rules = grants_rules(pins, config);
    lemma_grants_about(pins, config, p);
    lemma_passing(rules, uid, p);
    assert(chain(uid, pins, config).drop_first() =~= rules + seq![ChainRule::Rest(uid)]);
    assert(chain(uid, pins, config)[0] == ChainRule::Others(uid));
}

} // verus!
