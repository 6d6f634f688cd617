//! The host names that addresses were resolved from.

use crate::assoc::{distinct, lookup, mapped, put, Assoc};
use crate::ip::IpAddr;
use crate::text::owned;
use vstd::prelude::*;

verus! {

/// More names than this are cut down to [`KEPT_NAMES`].
pub const MAX_NAMES: usize = 8192;

/// How many names are kept when there are too many.
pub const KEPT_NAMES: usize = 4096;

/// The names that were learned, by address.
pub struct DnsMap {
    names: Assoc<IpAddr, String>,
}

/// Names after one more. When there are too many, the ones learned longest ago
/// go.
pub open spec fn learned(
    names: Seq<(IpAddr, Seq<char>)>,
    host: Seq<char>,
    ip: IpAddr,
) -> Seq<(IpAddr, Seq<char>)> {
    if host.len() == 0 {
        names
    } else {
        let all = put(names, ip.unmapped(), host);
        if all.len() > MAX_NAMES {
            all.skip(all.len() - KEPT_NAMES)
        } else {
            all
        }
    }
}

impl DnsMap {
    /// The names by address, in the order in which the addresses came.
    pub closed spec fn names(&self) -> Seq<(IpAddr, Seq<char>)> {
        mapped(self.names@, |s: String| s@)
    }

    /// Whether no address has two names and there are not too many.
    pub open spec fn wf(&self) -> bool {
        distinct(self.names()) && self.names().len() <= MAX_NAMES
    }

    /// The name of an address.
    pub open spec fn name_of(&self, ip: IpAddr) -> Option<Seq<char>> {
        lookup(self.names(), ip)
    }

    /// No name learned.
    pub fn new() -> (m: DnsMap)
        ensures
            m.wf(),
            m.names() == Seq::<(IpAddr, Seq<char>)>::empty(),
    {
        let m = DnsMap { names: Assoc::new() };
        assert(m.names() =~= Seq::<(IpAddr, Seq<char>)>::empty());
        m
    }

    /// Learns that an address was resolved from a host name.
    pub fn record(&mut self, host: &str, ip: IpAddr)
        requires
            old(self).wf(),
        ensures
            final(self).wf(),
            final(self).names() == learned(old(self).names(), host@, ip),
    {
        if host.is_empty() {
            return;
        }
        let key = ip.normalize();
        let name = owned(host);
        let ghost g = |s: String| s@;
        proof {
            crate::assoc::lemma_mapped(self.names@, g, key, name);
            crate::assoc::law_put(self.names(), key, host@, key);
        }
        self.names.put(key, name);
        if self.names.len() > MAX_NAMES {
            let ghost raw = self.names@;
            let from: usize = self.names.len() - KEPT_NAMES;
            let mut kept: Assoc<IpAddr, String> = Assoc::new();
            let mut i: usize = from;
            assert(kept@ =~= raw.subrange(from as int, from as int));
            while i < self.names.len()
                invariant
                    from <= i <= raw.len(),
                    self.names@ == raw,
                    distinct(mapped(raw, g)),
                    kept@ == raw.subrange(from as int, i as int),
                decreases raw.len() - i,
            {
                let k: IpAddr = *self.names.key_at(i);
                let v = self.names.value_at(i).clone();
                proof {
                    assert forall|j: int| 0 <= j < kept@.len() implies (#[trigger] kept@[j]).0 != k by {
                        let m = mapped(raw, g);
                        assert(kept@[j] == raw[from + j]);
                        assert(m[from + j].0 == raw[from + j].0);
                        assert(m[i as int].0 == raw[i as int].0);
                        assert(m[from + j].0 != m[i as int].0);
                    }
                    crate::assoc::lemma_position_none(kept@, k);
                    assert(raw.subrange(from as int, i + 1) =~= raw.subrange(
                        from as int,
                        i as int,
                    ).push(raw[i as int]));
                }
                kept.put(k, v);
                i += 1;
            }
            assert(mapped(kept@, g) =~= mapped(raw, g).skip(from as int));
            self.names = kept;
        }
    }

    /// The name of an address, where one was learned.
    pub fn lookup(&self, ip: &IpAddr) -> (r: Option<String>)
        ensures
            crate::text::text_view(r) == self.name_of(*ip),
    {
        let ghost none: String = arbitrary();
        proof {
            crate::assoc::lemma_mapped(self.names@, |s: String| s@, *ip, none);
        }
        match self.names.get(ip) {
            Some(s) => Some(s.clone()),
            None => None,
        }
    }
}

/// A name that was just learned for an address is found under the address, in
/// IPv4 form where it has one, and no other address's name changes while there is
/// room.
pub proof fn law_learned_names_are_found(
    names: Seq<(IpAddr, Seq<char>)>,
    host: Seq<char>,
    ip: IpAddr,
    other: IpAddr,
)
    requires
        distinct(names),
        names.len() < MAX_NAMES,
        host.len() > 0,
    ensures
        lookup(learned(names, host, ip), ip.unmapped()) == Some(host),
        other != ip.unmapped() ==> lookup(learned(names, host, ip), other) == lookup(names, other),
        learned(names, host, ip).len() <= MAX_NAMES,
{
    crate::assoc::law_put(names, ip.unmapped(), host, other);
}

/// However many names are learned, at most so many are kept.
pub proof fn law_names_are_bounded(
    names: Seq<(IpAddr, Seq<char>)>,
    host: Seq<char>,
    ip: IpAddr,
)
    requires
        names.len() <= MAX_NAMES,
    ensures
        learned(names, host, ip).len() <= MAX_NAMES,
{
}

/// The name that was learned last is found, and the later half of all of them,
/// however many were learned before it. An empty name is not learned.
pub proof fn law_the_newest_names_stay(
    names: Seq<(IpAddr, Seq<char>)>,
    host: Seq<char>,
    ip: IpAddr,
)
    requires
        distinct(names),
        names.len() <= 8192,
        host.len() > 0,
    ensures
        lookup(learned(names, host, ip), ip.unmapped()) == Some(host),
        learned(names, Seq::empty(), ip) == names,
        distinct(learned(names, host, ip)),
        names.len() == 8192 && lookup(names, ip.unmapped()) is None ==> learned(names, host, ip)
            == names.skip(4097).push((ip.unmapped(), host)),
{
    let k = ip.unmapped();
    let all = put(names, k, host);
    crate::assoc::law_put(names, k, host, k);
    if all.len() > MAX_NAMES {
        let kept = all.skip(all.len() - KEPT_NAMES);
        assert(kept =~= names.skip(4097).push((k, host)));
        let n = kept.len() - 1;
        assert forall|j: int| 0 <= j < n implies (#[trigger] kept[j]).0 != k by {
            assert(kept[j] == all[j + 4097]);
            assert(all[8192].0 == k);
        }
        crate::assoc::lemma_position_is(kept, k, n);
    }
}

} // verus!
