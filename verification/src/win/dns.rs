//! The host names that the platform's resolver reports.

use crate::assoc::{lookup, mapped, put, Assoc};
use crate::ip::IpAddr;
use crate::ip_text::ip_of_text;
use crate::text::{
    chars_of, has_prefix, owned, split, split_chars, starts_with, trim_chars, trimmed, views,
};
use vstd::prelude::*;

verus! {

/// More names than this are forgotten all at once.
pub const MAX_NAMES: usize = 8192;

/// The names that were learned, by address.
pub struct DnsMap {
    names: Assoc<IpAddr, String>,
}

/// The address in a part of a result: what is no address, such as the mark of an
/// alias, counts for nothing.
pub open spec fn address_in(part: Seq<char>) -> Option<IpAddr> {
    let t = trimmed(part);
    if t.len() == 0 || has_prefix(t, "type:"@) {
        None
    } else {
        ip_of_text(t)
    }
}

/// Names after the parts of a result, each address under its IPv4 form where it
/// has one.
pub open spec fn with_parts(
    names: Seq<(IpAddr, Seq<char>)>,
    host: Seq<char>,
    parts: Seq<Seq<char>>,
) -> Seq<(IpAddr, Seq<char>)>
    decreases parts.len(),
{
    if parts.len() == 0 {
        names
    } else {
        let before = with_parts(names, host, parts.drop_last());
        match address_in(parts.last()) {
            Some(a) => put(before, a.unmapped(), host),
            None => before,
        }
    }
}

/// Names after a result.
pub open spec fn learned(
    names: Seq<(IpAddr, Seq<char>)>,
    host: Seq<char>,
    results: Seq<char>,
) -> Seq<(IpAddr, Seq<char>)> {
    if host.len() == 0 {
        names
    } else {
        let all = with_parts(names, host, split(results, ';'));
        if all.len() > MAX_NAMES {
            Seq::empty()
        } else {
            all
        }
    }
}

impl DnsMap {
    /// The names by address.
    pub closed spec fn names(&self) -> Seq<(IpAddr, Seq<char>)> {
        mapped(self.names@, |s: String| s@)
    }

    /// No name learned.
    pub fn new_map() -> (m: DnsMap)
        ensures
            m.names() == Seq::<(IpAddr, Seq<char>)>::empty(),
    {
        let m = DnsMap { names: Assoc::new() };
        assert(m.names() =~= Seq::<(IpAddr, Seq<char>)>::empty());
        m
    }

    /// Learns the addresses that a host name was resolved to, from the resolver's
    /// text: parts between semicolons, such as `type: 5 alias;::ffff:1.2.3.4;`.
    pub fn record_results(&mut self, host: &str, results: &str)
        ensures
            final(self).names() == learned(old(self).names(), host@, results@),
    {
        if host.is_empty() {
            return;
        }
        let chars = chars_of(results);
        let parts = split_chars(chars.as_slice(), ';');
        let mark = chars_of("type:");
        let ghost all = split(results@, ';');
        let ghost start = self.names();
        let ghost g = |s: String| s@;
        let mut i: usize = 0;
        assert(all.take(0) =~= Seq::empty());
        while i < parts.len()
            invariant
                i <= parts@.len(),
                views(parts@) == all,
                mark@ == "type:"@,
                g == (|s: String| s@),
                self.names() == with_parts(start, host@, all.take(i as int)),
            decreases parts@.len() - i,
        {
            assert(all.len() == parts@.len());
            assert(all.take(i + 1).drop_last() =~= all.take(i as int));
            assert(all.take(i + 1).last() == parts@[i as int]@);
            let t = trim_chars(parts[i].as_slice());
            if t.len() > 0 && !starts_with(t, mark.as_slice()) {
                if let Some(a) = IpAddr::parse_chars(t) {
                    let key = a.normalize();
                    let name = owned(host);
                    proof {
                        crate::assoc::lemma_mapped(self.names@, g, key, name);
                    }
                    self.names.put(key, name);
                }
            }
            i += 1;
        }
        assert(all.len() == parts@.len());
        assert(all.take(i as int) =~= all);
        assert(self.names().len() == self.names@.len());
        if self.names.len() > MAX_NAMES {
            self.names.clear();
            assert(self.names() =~= Seq::<(IpAddr, Seq<char>)>::empty());
        }
    }

    /// The name of an address, where one was learned.
    pub fn lookup(&self, ip: &IpAddr) -> (r: Option<String>)
        ensures
            crate::text::text_view(r) == lookup(self.names(), *ip),
    {
        let ghost none: String = arbitrary();
        proof {
            crate::assoc::lemma_mapped(self.names@, |s: String| s@, *ip, none);
        }
        match self.names.get(ip) {
            Some(s) => Some(s.clone()),
            None => None,
        }
    }
}

/// However many results come, at most so many names are kept.
pub proof fn law_names_are_bounded(
    names: Seq<(IpAddr, Seq<char>)>,
    host: Seq<char>,
    results: Seq<char>,
)
    requires
        names.len() <= MAX_NAMES,
    ensures
        learned(names, host, results).len() <= MAX_NAMES,
{
}

/// Every part of a result that is an address is known by the host afterwards, and the
/// names of other addresses stay.
pub proof fn law_every_address_gets_the_name(
    names: Seq<(IpAddr, Seq<char>)>,
    host: Seq<char>,
    parts: Seq<Seq<char>>,
    a: IpAddr,
)
    requires
        crate::assoc::distinct(names),
    ensures
        crate::assoc::distinct(with_parts(names, host, parts)),
        lookup(with_parts(names, host, parts), a) == (if exists|i: int|
            0 <= i < parts.len() && address_in(#[trigger] parts[i]) is Some && address_in(
                parts[i],
            )->0.unmapped() == a {
            Some(host)
        } else {
            lookup(names, a)
        }),
    decreases parts.len(),
{
    if parts.len() > 0 {
        let front = parts.drop_last();
        let before = with_parts(names, host, front);
        law_every_address_gets_the_name(names, host, front, a);
        match address_in(parts.last()) {
            Some(b) => {
                crate::assoc::law_put(before, b.unmapped(), host, a);
            },
            None => {},
        }
        assert(parts[parts.len() - 1] == parts.last());
        if exists|i: int|
            0 <= i < front.len() && address_in(#[trigger] front[i]) is Some && address_in(
                front[i],
            )->0.unmapped() == a {
            let i = choose|i: int|
                0 <= i < front.len() && address_in(#[trigger] front[i]) is Some && address_in(
                    front[i],
                )->0.unmapped() == a;
            assert(parts[i] == front[i]);
        }
        if exists|i: int|
            0 <= i < parts.len() && address_in(#[trigger] parts[i]) is Some && address_in(
                parts[i],
            )->0.unmapped() == a {
            let i = choose|i: int|
                0 <= i < parts.len() && address_in(#[trigger] parts[i]) is Some && address_in(
                    parts[i],
                )->0.unmapped() == a;
            if i < front.len() {
                assert(front[i] == parts[i]);
            }
        }
    }
}

/// The results of a lookup stand between semicolons. An address is one of them; a
/// note of another type is none. A host without a name gets nothing, and more than
/// 8192 names are forgotten.
pub proof fn law_results_stand_between_semicolons(
    names: Seq<(IpAddr, Seq<char>)>,
    host: Seq<char>,
    results: Seq<char>,
    a: IpAddr,
    note: Seq<char>,
)
    requires
        host.len() > 0,
    ensures
        address_in(crate::ip_show::ip_text(a)) == Some(a),
        has_prefix(trimmed(note), "type:"@) ==> address_in(note) is None,
        learned(names, Seq::empty(), results) == names,
        with_parts(names, host, split(results, ';')).len() <= 8192 ==> learned(
            names,
            host,
            results,
        ) == with_parts(names, host, split(results, ';')),
        with_parts(names, host, split(results, ';')).len() > 8192 ==> learned(
            names,
            host,
            results,
        ).len() == 0,
{
    let t = crate::ip_show::ip_text(a);
    crate::ip_law::law_addresses_are_written_plainly(a);
    crate::ip_law::law_addresses_read_back(a);
    assert(crate::ip_text::hex_digit(t[0]) is Some || t[0] == '.' || t[0] == ':');
    assert(crate::ip_text::hex_digit(t[t.len() - 1]) is Some || t[t.len() - 1] == '.' || t[t.len()
        - 1] == ':');
    crate::text::law_trimmed_texts_stay(t);
    reveal_strlit("type:");
    if has_prefix(t, "type:"@) {
        assert(t.take(5)[0] == "type:"@[0]);
        assert(t[0] == 't');
    }
}

} // verus!
