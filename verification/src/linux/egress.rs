//! What a plugin may reach: one control group for each plugin, and a table that
//! permits its endpoints and drops the rest.

use crate::assoc::{lookup, put, without, Assoc, Key};
use crate::error::EngineError;
use crate::ip::IpAddr;
use crate::ip_show::ip_text;
use crate::ip_text::ip_of_text;
use crate::path::{
    components, components_of, join, joined, leads_through, path_text, same_path, within,
};
use crate::text::{
    after_prefix, chars_of, copy_chars, dec_text, lines, lines_of, owned, push_dec, same_chars,
    strip_prefix, text_of, views, words, words_of,
};
use vstd::prelude::*;

verus! {

/// Where control groups are.
pub open spec fn cgroup_root() -> Seq<char> {
    "/sys/fs/cgroup"@
}

/// A plugin's control group: where it is, its name in the table, and how deep it
/// lies.
#[derive(Debug, PartialEq, Eq)]
pub struct Cgroup {
    pub path: String,
    pub nft_path: String,
    pub level: usize,
}

impl Clone for Cgroup {
    fn clone(&self) -> (r: Cgroup)
        ensures
            r == *self,
    {
        Cgroup { path: self.path.clone(), nft_path: self.nft_path.clone(), level: self.level }
    }
}

/// What a plugin may reach.
#[derive(Debug, PartialEq, Eq)]
pub struct Grant {
    pub allowed: Vec<(IpAddr, u16)>,
    pub allow_dns: bool,
    pub cgroup: Cgroup,
}

/// A path, as a key.
#[derive(Debug)]
pub struct PathKey(pub String);

impl Key for PathKey {
    type Id = Seq<Seq<char>>;

    open spec fn id(&self) -> Seq<Seq<char>> {
        components(self.0@)
    }

    fn same(&self, other: &Self) -> (r: bool) {
        let a = chars_of(self.0.as_str());
        let b = chars_of(other.0.as_str());
        let x = components_of(a.as_slice());
        let y = components_of(b.as_slice());
        same_path(&x, &y)
    }
}

/// A control group as the table names it.
pub open spec fn scope_of(c: Cgroup) -> Seq<char> {
    "socket cgroupv2 level "@ + dec_text(c.level as nat) + " \""@ + c.nft_path@ + "\""@
}

/// The table's word for an address's family.
pub open spec fn family_word(a: IpAddr) -> Seq<char> {
    match a {
        IpAddr::V4(_) => "ip"@,
        IpAddr::V6(_) => "ip6"@,
    }
}

/// The start of a rule about an address: whom it is for and where to.
pub open spec fn rule_to(scope: Seq<char>, a: IpAddr) -> Seq<char> {
    "add rule inet iris_plugins out "@ + scope + " "@ + family_word(a) + " daddr "@ + ip_text(a)
}

/// The rule that permits one endpoint.
pub open spec fn permit(scope: Seq<char>, end: (IpAddr, u16)) -> Seq<char> {
    rule_to(scope, end.0) + " th dport "@ + dec_text(end.1 as nat) + " accept\n"@
}

/// The rules that permit endpoints.
pub open spec fn permits(scope: Seq<char>, ends: Seq<(IpAddr, u16)>) -> Seq<char>
    decreases ends.len(),
{
    if ends.len() == 0 {
        Seq::empty()
    } else {
        permits(scope, ends.drop_last()) + permit(scope, ends.last())
    }
}

/// The name server that a line of the resolver's configuration names.
pub open spec fn server_of(line: Seq<char>) -> Option<IpAddr> {
    let w = words(line);
    if w.len() > 1 && w[0] == "nameserver"@ {
        ip_of_text(w[1])
    } else {
        None
    }
}

/// The rules that permit asking a name server.
pub open spec fn resolver_permit(scope: Seq<char>, a: IpAddr) -> Seq<char> {
    rule_to(scope, a) + " udp dport 53 accept\n"@ + rule_to(scope, a) + " tcp dport 53 accept\n"@
}

/// The rules that permit asking the name servers of the lines.
pub open spec fn resolver_permits(scope: Seq<char>, ls: Seq<Seq<char>>) -> Seq<char>
    decreases ls.len(),
{
    if ls.len() == 0 {
        Seq::empty()
    } else {
        let before = resolver_permits(scope, ls.drop_last());
        match server_of(ls.last()) {
            Some(a) => before + resolver_permit(scope, a),
            None => before,
        }
    }
}

/// The rules of one grant. `config` is the resolver's configuration, where it
/// could be read.
pub open spec fn grant_text(g: Grant, config: Option<Seq<char>>) -> Seq<char> {
    let scope = scope_of(g.cgroup);
    let dns = match config {
        Some(c) if g.allow_dns => resolver_permits(scope, lines(c)),
        _ => Seq::empty(),
    };
    dns + permits(scope, g.allowed@)
}

/// The rules of the grants.
pub open spec fn grants_text(
    pins: Seq<(Seq<Seq<char>>, Grant)>,
    config: Option<Seq<char>>,
) -> Seq<char>
    decreases pins.len(),
{
    if pins.len() == 0 {
        Seq::empty()
    } else {
        grants_text(pins.drop_last(), config) + grant_text(pins.last().1, config)
    }
}

/// The chain: everyone but the plugins' account passes, the grants pass, and the
/// rest of that account is dropped.
pub open spec fn chain_text(
    uid: u32,
    pins: Seq<(Seq<Seq<char>>, Grant)>,
    config: Option<Seq<char>>,
) -> Seq<char> {
    "add chain inet iris_plugins out { type filter hook output priority -5; policy accept; }\nadd rule inet iris_plugins out meta skuid != "@
        + dec_text(uid as nat) + " accept\n"@ + grants_text(pins, config)
        + "add rule inet iris_plugins out meta skuid "@ + dec_text(uid as nat) + " drop\n"@
}

fn push_scope(out: &mut String, c: &Cgroup)
    ensures
        final(out)@ == old(out)@ + scope_of(*c),
{
    let ghost start = out@;
    out.push_str("socket cgroupv2 level ");
    push_dec(out, c.level as u64);
    out.push_str(" \"");
    out.push_str(c.nft_path.as_str());
    out.push_str("\"");
    assert(out@ =~= start + scope_of(*c));
}

fn push_rule_to(out: &mut String, scope: &str, a: IpAddr)
    ensures
        final(out)@ == old(out)@ + rule_to(scope@, a),
{
    let ghost start = out@;
    out.push_str("add rule inet iris_plugins out ");
    out.push_str(scope);
    out.push_str(" ");
    if a.is_ipv4() {
        out.push_str("ip");
    } else {
        out.push_str("ip6");
    }
    out.push_str(" daddr ");
    a.push_text(out);
    assert(out@ =~= start + rule_to(scope@, a));
}

fn name_server(line: &[char]) -> (r: Option<IpAddr>)
    ensures
        r == server_of(line@),
{
    let w = words_of(line);
    let ghost all = words(line@);
    assert(all.len() == w@.len());
    if w.len() <= 1 {
        return None;
    }
    assert(all[0] == w@[0]@ && all[1] == w@[1]@);
    let keyword = chars_of("nameserver");
    if same_chars(w[0].as_slice(), keyword.as_slice()) {
        IpAddr::parse_chars(w[1].as_slice())
    } else {
        None
    }
}

/// The rules that permit asking the name servers of a configuration.
pub fn resolver_rules(config: &str, scope: &str) -> (out: String)
    ensures
        out@ == resolver_permits(scope@, lines(config@)),
{
    let c = chars_of(config);
    let ls = lines_of(c.as_slice());
    let ghost all = lines(config@);
    let mut out = String::new();
    let mut i: usize = 0;
    assert(all.take(0) =~= Seq::empty());
    while i < ls.len()
        invariant
            i <= ls@.len(),
            all == views(ls@),
            out@ == resolver_permits(scope@, all.take(i as int)),
        decreases ls@.len() - i,
    {
        assert(all.take(i + 1).drop_last() =~= all.take(i as int));
        assert(all.take(i + 1).last() == ls@[i as int]@);
        let ghost before = out@;
        if let Some(a) = name_server(ls[i].as_slice()) {
            push_rule_to(&mut out, scope, a);
            out.push_str(" udp dport 53 accept\n");
            push_rule_to(&mut out, scope, a);
            out.push_str(" tcp dport 53 accept\n");
            assert(out@ =~= before + resolver_permit(scope@, a));
        }
        i += 1;
    }
    assert(all.take(i as int) =~= all);
    out
}

fn push_grant(out: &mut String, g: &Grant, config: Option<&str>)
    ensures
        final(out)@ == old(out)@ + grant_text(*g, crate::text::str_view(config)),
{
    let ghost start = out@;
    let mut scope = String::new();
    push_scope(&mut scope, &g.cgroup);
    assert(scope@ =~= scope_of(g.cgroup));
    if g.allow_dns {
        if let Some(c) = config {
            let r = resolver_rules(c, scope.as_str());
            out.push_str(r.as_str());
        }
    }
    let ghost dns = out@;
    let mut i: usize = 0;
    assert(g.allowed@.take(0) =~= Seq::empty());
    assert(out@ =~= dns + permits(scope@, g.allowed@.take(0)));
    while i < g.allowed.len()
        invariant
            i <= g.allowed@.len(),
            out@ == dns + permits(scope@, g.allowed@.take(i as int)),
        decreases g.allowed@.len() - i,
    {
        assert(g.allowed@.take(i + 1).drop_last() =~= g.allowed@.take(i as int));
        let (a, port) = g.allowed[i];
        let ghost before = permits(scope@, g.allowed@.take(i as int));
        push_rule_to(out, scope.as_str(), a);
        out.push_str(" th dport ");
        push_dec(out, port as u64);
        out.push_str(" accept\n");
        assert(out@ =~= dns + (before + permit(scope@, (a, port))));
        i += 1;
    }
    assert(g.allowed@.take(i as int) =~= g.allowed@);
    assert(out@ =~= start + grant_text(*g, crate::text::str_view(config)));
}

/// The table that pins every plugin.
pub struct PluginNet {
    uid: u32,
    pins: Assoc<PathKey, Grant>,
}

/// One plugin's pin.
pub struct AppPin {
    pub exe: String,
}

/// A pin that has begun: what it replaced.
pub struct PinBegun {
    pub previous: Option<Grant>,
}

/// Whether another program's grant has the same control group.
pub open spec fn collides(
    pins: Seq<(Seq<Seq<char>>, Grant)>,
    exe: Seq<Seq<char>>,
    cgroup: Cgroup,
) -> bool {
    exists|i: int|
        0 <= i < pins.len() && (#[trigger] pins[i]).0 != exe && components(pins[i].1.cgroup.path@)
            == components(cgroup.path@)
}

/// Grants after a pin was taken back.
pub open spec fn restored(
    pins: Seq<(Seq<Seq<char>>, Grant)>,
    exe: Seq<Seq<char>>,
    previous: Option<Grant>,
) -> Seq<(Seq<Seq<char>>, Grant)> {
    match previous {
        Some(g) => put(pins, exe, g),
        None => without(pins, exe),
    }
}

impl PluginNet {
    /// The plugins' account.
    pub closed spec fn uid(&self) -> u32 {
        self.uid
    }

    /// The grants by program.
    pub closed spec fn pins(&self) -> Seq<(Seq<Seq<char>>, Grant)> {
        self.pins@
    }

    /// No grant.
    pub fn open(uid: u32) -> (n: PluginNet)
        ensures
            n.uid() == uid,
            n.pins() == Seq::<(Seq<Seq<char>>, Grant)>::empty(),
    {
        PluginNet { uid, pins: Assoc::new() }
    }

    /// The chain for the grants.
    pub fn chain_rules(&self, config: Option<&str>) -> (out: String)
        ensures
            out@ == chain_text(self.uid(), self.pins(), crate::text::str_view(config)),
    {
        let ghost c = crate::text::str_view(config);
        let mut out = owned(
            "add chain inet iris_plugins out { type filter hook output priority -5; policy accept; }\nadd rule inet iris_plugins out meta skuid != ",
        );
        push_dec(&mut out, self.uid as u64);
        out.push_str(" accept\n");
        let ghost head = out@;
        let mut i: usize = 0;
        assert(self.pins@.take(0) =~= Seq::empty());
        assert(out@ =~= head + grants_text(self.pins@.take(0), c));
        while i < self.pins.len()
            invariant
                i <= self.pins@.len(),
                c == crate::text::str_view(config),
                out@ == head + grants_text(self.pins@.take(i as int), c),
            decreases self.pins@.len() - i,
        {
            assert(self.pins@.take(i + 1).drop_last() =~= self.pins@.take(i as int));
            let ghost before = grants_text(self.pins@.take(i as int), c);
            let g = self.pins.value_at(i);
            push_grant(&mut out, g, config);
            assert(out@ =~= head + (before + grant_text(*g, c)));
            i += 1;
        }
        assert(self.pins@.take(i as int) =~= self.pins@);
        out.push_str("add rule inet iris_plugins out meta skuid ");
        push_dec(&mut out, self.uid as u64);
        out.push_str(" drop\n");
        assert(out@ =~= chain_text(self.uid, self.pins@, c));
        out
    }

    /// The rule set that makes the table.
    pub fn install(&self, config: Option<&str>) -> (out: String)
        ensures
            out@ == "add table inet iris_plugins\n"@ + chain_text(
                self.uid(),
                self.pins(),
                crate::text::str_view(config),
            ),
    {
        let mut out = owned("add table inet iris_plugins\n");
        let chain = self.chain_rules(config);
        out.push_str(chain.as_str());
        out
    }

    /// The rule set that makes the table anew.
    pub fn rebuild(&self, config: Option<&str>) -> (out: String)
        ensures
            out@ == "flush table inet iris_plugins\n"@ + chain_text(
                self.uid(),
                self.pins(),
                crate::text::str_view(config),
            ),
    {
        let mut out = owned("flush table inet iris_plugins\n");
        let chain = self.chain_rules(config);
        out.push_str(chain.as_str());
        out
    }

    fn is_taken(&self, exe: &PathKey, cgroup: &Cgroup) -> (r: bool)
        ensures
            r == collides(self.pins(), exe.id(), *cgroup),
    {
        let c = chars_of(cgroup.path.as_str());
        let cs = components_of(c.as_slice());
        let mut i: usize = 0;
        while i < self.pins.len()
            invariant
                i <= self.pins@.len(),
                views(cs@) == components(cgroup.path@),
                forall|j: int|
                    0 <= j < i ==> (#[trigger] self.pins@[j]).0 == exe.id() || components(
                        self.pins@[j].1.cgroup.path@,
                    ) != components(cgroup.path@),
            decreases self.pins@.len() - i,
        {
            let g = self.pins.value_at(i);
            let p = chars_of(g.cgroup.path.as_str());
            let ps = components_of(p.as_slice());
            let own: bool = self.pins.key_at(i).same(exe);
            if !own && same_path(&ps, &cs) {
                assert(self.pins@[i as int].0 != exe.id());
                return true;
            }
            i += 1;
        }
        false
    }

    /// Begins to pin a program: its grant counts from now on. A control group that
    /// another program has is refused.
    pub fn begin_pin(
        &mut self,
        exe: &str,
        allowed: Vec<(IpAddr, u16)>,
        allow_dns: bool,
        cgroup: Cgroup,
    ) -> (r: Result<PinBegun, EngineError>)
        ensures
            final(self).uid() == old(self).uid(),
            if collides(old(self).pins(), components(exe@), cgroup) {
                &&& final(self).pins() == old(self).pins()
                &&& r matches Err(EngineError::Os(m)) && m@
                    == "plugin cgroup identity collision for "@ + exe@
            } else {
                &&& r matches Ok(b) && b.previous == lookup(old(self).pins(), components(exe@))
                &&& final(self).pins() == put(
                    old(self).pins(),
                    components(exe@),
                    (Grant { allowed, allow_dns, cgroup }),
                )
            },
    {
        let key = PathKey(owned(exe));
        if self.is_taken(&key, &cgroup) {
            let mut m = owned("plugin cgroup identity collision for ");
            m.push_str(exe);
            return Err(EngineError::Os(m));
        }
        let previous = self.pins.replace(key, Grant { allowed, allow_dns, cgroup });
        Ok(PinBegun { previous })
    }

    /// Ends what [`PluginNet::begin_pin`] began, with what came of rebuilding the
    /// table. Where that failed, the grant that was there before counts again.
    pub fn finish_pin(
        &mut self,
        exe: &str,
        begun: PinBegun,
        rebuilt: Result<(), EngineError>,
    ) -> (r: Result<AppPin, EngineError>)
        ensures
            final(self).uid() == old(self).uid(),
            match rebuilt {
                Ok(_) => r matches Ok(p) && p.exe@ == exe@ && final(self).pins() == old(
                    self,
                ).pins(),
                Err(e) => r == Err::<AppPin, EngineError>(e) && final(self).pins() == restored(
                    old(self).pins(),
                    components(exe@),
                    begun.previous,
                ),
            },
    {
        let key = PathKey(owned(exe));
        match rebuilt {
            Ok(()) => Ok(AppPin { exe: owned(exe) }),
            Err(e) => {
                match begun.previous {
                    Some(g) => {
                        self.pins.put(key, g);
                    },
                    None => {
                        self.pins.remove(&key);
                    },
                }
                Err(e)
            },
        }
    }
}

/// A pin whose table could not be rebuilt changes nothing: the grants are those
/// from before it.
pub proof fn law_failed_pins_change_nothing(
    pins: Seq<(Seq<Seq<char>>, Grant)>,
    exe: Seq<Seq<char>>,
    g: Grant,
)
    ensures
        restored(put(pins, exe, g), exe, lookup(pins, exe)) == pins,
{
    let after = put(pins, exe, g);
    crate::assoc::lemma_position(pins, exe);
    let p = crate::assoc::position(pins, exe) as int;
    assert forall|j: int| 0 <= j < p implies (#[trigger] after[j]).0 != exe by {
        assert(after[j] == pins[j]);
    }
    assert(after[p].0 == exe);
    crate::assoc::lemma_position_is(after, exe, p);
    assert(restored(after, exe, lookup(pins, exe)) =~= pins);
}

/// `s` without the slashes that it starts with.
pub open spec fn no_slashes(s: Seq<char>) -> Seq<char>
    decreases s.len(),
{
    if s.len() > 0 && s[0] == '/' {
        no_slashes(s.drop_first())
    } else {
        s
    }
}

/// The control group that the first line of the unified hierarchy names.
pub open spec fn own_group(ls: Seq<Seq<char>>) -> Option<Seq<char>>
    decreases ls.len(),
{
    if ls.len() == 0 {
        None
    } else {
        match after_prefix(ls[0], "0::"@) {
            Some(p) => Some(p),
            None => own_group(ls.drop_first()),
        }
    }
}

/// A number in sixteen hexadecimal digits.
pub open spec fn hex16(n: nat) -> Seq<char> {
    padded_hex(n, 16)
}

/// A number in `k` hexadecimal digits.
pub open spec fn padded_hex(n: nat, k: nat) -> Seq<char>
    decreases k,
{
    if k == 0 {
        Seq::empty()
    } else {
        padded_hex(n / 16, (k - 1) as nat).push(crate::ip_show::hex_char(n % 16))
    }
}

/// Appends a number in `k` hexadecimal digits.
pub fn push_padded_hex(out: &mut String, n: u64, k: usize)
    ensures
        final(out)@ == old(out)@ + padded_hex(n as nat, k as nat),
    decreases k,
{
    let ghost start = out@;
    if k > 0 {
        push_padded_hex(out, n / 16, k - 1);
        out.push(hex_char_of((n % 16) as u8));
    }
    assert(out@ =~= start + padded_hex(n as nat, k as nat));
}

fn hex_char_of(d: u8) -> (c: char)
    requires
        d < 16,
    ensures
        c == crate::ip_show::hex_char(d as nat),
{
    if d < 10 {
        (48 + d) as char
    } else {
        (87 + d) as char
    }
}

/// Where a plugin's control group is: below this process's own, under the hash of
/// the program's path.
pub open spec fn group_path(own: Seq<char>, hash: u64) -> Seq<char> {
    joined(
        joined(joined(cgroup_root(), no_slashes(own)), "iris-plugins"@),
        hex16(hash as nat),
    )
}

/// Where a plugin's control group is, from this process's membership.
pub fn cgroup_for(membership: &str, hash: u64) -> (r: Result<String, EngineError>)
    ensures
        match own_group(lines(membership@)) {
            Some(own) => r matches Ok(p) && p@ == group_path(own, hash),
            None => r matches Err(EngineError::Os(m)) && m@
                == "cgroup v2 is required for plugin isolation"@,
        },
{
    let c = chars_of(membership);
    let ls = lines_of(c.as_slice());
    let ghost all = lines(membership@);
    let mut i: usize = 0;
    assert(all.skip(0) =~= all);
    while i < ls.len()
        invariant
            i <= ls@.len(),
            all == views(ls@),
            all == lines(membership@),
            own_group(all.skip(i as int)) == own_group(all),
        decreases ls@.len() - i,
    {
        assert(all.skip(i as int)[0] == ls@[i as int]@);
        assert(all.skip(i as int).drop_first() =~= all.skip(i + 1));
        if let Some(own) = strip_prefix(ls[i].as_slice(), "0::") {
            let mut k: usize = 0;
            assert(own@.skip(0) =~= own@);
            while k < own.len() && own[k] == '/'
                invariant
                    k <= own@.len(),
                    no_slashes(own@.skip(k as int)) == no_slashes(own@),
                decreases own@.len() - k,
            {
                assert(own@.skip(k as int).drop_first() =~= own@.skip(k + 1));
                k += 1;
            }
            let rest = text_of(vstd::slice::slice_subrange(own, k, own.len()));
            assert(rest@ =~= own@.skip(k as int));
            let base = join("/sys/fs/cgroup", rest.as_str());
            let plugins = join(base.as_str(), "iris-plugins");
            let mut leaf = String::new();
            push_padded_hex(&mut leaf, hash, 16);
            assert(leaf@ =~= hex16(hash as nat));
            return Ok(join(plugins.as_str(), leaf.as_str()));
        }
        i += 1;
    }
    Err(EngineError::Os(owned("cgroup v2 is required for plugin isolation")))
}

/// The control group at a path: its components below the root of control groups
/// are its name, and as many as there are is its level.
pub fn create_cgroup(path: &str) -> (r: Result<Cgroup, EngineError>)
    ensures
        ({
            let c = components(path@);
            let root = components(cgroup_root());
            if within(c, root) {
                r matches Ok(g) && g.path@ == path@ && g.nft_path@ == path_text(
                    c.skip(root.len() as int),
                ) && g.level == c.len() - root.len()
            } else {
                r matches Err(EngineError::Os(m)) && m@ == "plugin cgroup is outside cgroup v2"@
            }
        }),
{
    let p = chars_of(path);
    let cs = components_of(p.as_slice());
    let r = chars_of("/sys/fs/cgroup");
    let root = components_of(r.as_slice());
    if !leads_through(&cs, &root) {
        return Err(EngineError::Os(owned("plugin cgroup is outside cgroup v2")));
    }
    let ghost all = components(path@);
    let mut rest: Vec<Vec<char>> = Vec::new();
    let mut i: usize = root.len();
    assert(all.len() == cs@.len());
    assert(components(cgroup_root()).len() == root@.len());
    assert(views(rest@) =~= all.subrange(root@.len() as int, root@.len() as int));
    while i < cs.len()
        invariant
            root@.len() <= i <= cs@.len(),
            all == views(cs@),
            views(rest@) == all.subrange(root@.len() as int, i as int),
        decreases cs@.len() - i,
    {
        let ghost was = views(rest@);
        let piece = copy_chars(cs[i].as_slice(), 0, cs[i].len());
        assert(piece@ =~= cs@[i as int]@);
        rest.push(piece);
        assert(views(rest@) =~= was.push(piece@));
        assert(all.subrange(root@.len() as int, i + 1) =~= was.push(all[i as int]));
        i += 1;
    }
    assert(all.subrange(root@.len() as int, cs@.len() as int) =~= all.skip(root@.len() as int));
    assert(views(rest@).take(rest@.len() as int) =~= views(rest@));
    let nft_path = crate::path::text_of_components(&rest, rest.len());
    Ok(Cgroup { path: owned(path), nft_path, level: rest.len() })
}

/// A line of the resolver's configuration names the server whose address stands
/// behind `nameserver`; a line that begins with another word names none.
pub proof fn law_name_servers_are_read(a: IpAddr, rest: Seq<char>, w: Seq<char>, more: Seq<char>)
    requires
        rest.len() > 0 ==> crate::text::is_white(rest[0]),
        w.len() > 0,
        forall|i: int| 0 <= i < w.len() ==> !crate::text::is_white(#[trigger] w[i]),
        more.len() > 0 ==> crate::text::is_white(more[0]),
        w != "nameserver"@,
    ensures
        server_of("nameserver"@ + (seq![' '] + ip_text(a) + rest)) == Some(a),
        server_of(w + more) is None,
{
    reveal_strlit("nameserver");
    let n = "nameserver"@;
    let t = ip_text(a);
    let tail = seq![' '] + t + rest;
    let e = Seq::<char>::empty();
    crate::ip_law::law_addresses_are_written_plainly(a);
    crate::ip_law::law_addresses_read_back(a);
    assert forall|i: int| 0 <= i < t.len() implies !crate::text::is_white(#[trigger] t[i]) by {
        assert(crate::ip_text::hex_digit(t[i]) is Some || t[i] == '.' || t[i] == ':');
    }
    assert forall|i: int| 0 <= i < n.len() implies !crate::text::is_white(#[trigger] n[i]) by {}
    crate::text::law_words_stand_between_white_space(e, n, tail);
    crate::text::law_words_stand_between_white_space(seq![' '], t, rest);
    assert(e + n + tail =~= n + tail);
    assert(words(n + tail)[1] == t);
    crate::text::law_words_stand_between_white_space(e, w, more);
    assert(e + w + more =~= w + more);
}

/// The control group of a process is what follows `0::` on the first line that begins
/// so.
pub proof fn law_the_own_group_is_read(before: Seq<Seq<char>>, p: Seq<char>, after: Seq<Seq<char>>)
    requires
        forall|i: int|
            0 <= i < before.len() ==> !crate::text::has_prefix(#[trigger] before[i], "0::"@),
    ensures
        own_group(before + seq!["0::"@ + p] + after) == Some(p),
        own_group(before) is None,
    decreases before.len(),
{
    let z = "0::"@;
    let all = before + seq![z + p] + after;
    if before.len() > 0 {
        let b = before.drop_first();
        assert forall|i: int| 0 <= i < b.len() implies !crate::text::has_prefix(
            #[trigger] b[i],
            "0::"@,
        ) by {
            assert(b[i] == before[i + 1]);
        }
        assert(!crate::text::has_prefix(before[0], "0::"@));
        assert(all[0] == before[0]);
        assert(all.drop_first() =~= b + seq![z + p] + after);
        law_the_own_group_is_read(b, p, after);
    } else {
        assert(all[0] == z + p);
        assert((z + p).take(z.len() as int) =~= z);
        assert((z + p).skip(z.len() as int) =~= p);
    }
}

/// A plugin's group has sixteen hexadecimal digits for its name, the most significant
/// first, so that different plugins have different names.
pub proof fn law_group_names_identify(a: u64, b: u64)
    ensures
        hex16(a as nat).len() == 16,
        hex16(a as nat) == hex16(b as nat) ==> a == b,
{
    vstd::arithmetic::power2::lemma2_to64();
    lemma_hex_len(a as nat, 16);
    lemma_hex_identifies(a as nat, b as nat, 16);
    assert(sixteens(16) == 0x1_0000_0000_0000_0000) by {
        reveal_with_fuel(sixteens, 17);
    }
}

/// Powers of sixteen.
spec fn sixteens(k: nat) -> nat
    decreases k,
{
    if k == 0 {
        1
    } else {
        16 * sixteens((k - 1) as nat)
    }
}

proof fn lemma_hex_len(n: nat, k: nat)
    ensures
        padded_hex(n, k).len() == k,
    decreases k,
{
    if k > 0 {
        lemma_hex_len(n / 16, (k - 1) as nat);
    }
}

proof fn lemma_hex_identifies(a: nat, b: nat, k: nat)
    ensures
        padded_hex(a, k) == padded_hex(b, k) && a < sixteens(k) && b < sixteens(k) ==> a == b,
    decreases k,
{
    if k > 0 && padded_hex(a, k) == padded_hex(b, k) {
        let (x, y) = (padded_hex(a, k), padded_hex(b, k));
        let j = (k - 1) as nat;
        assert(x.drop_last() =~= padded_hex(a / 16, j));
        assert(y.drop_last() =~= padded_hex(b / 16, j));
        assert(x.last() == y.last());
        lemma_hex_identifies(a / 16, b / 16, j);
        let (c, d) = (crate::ip_show::hex_char(a % 16), crate::ip_show::hex_char(b % 16));
        assert(c as u32 == d as u32);
    }
}

} // verus!
