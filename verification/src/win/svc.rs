//! The services that processes host.

use crate::assoc::{lookup, mapped, put, Assoc};
use crate::text::{copy_texts, texts};
use vstd::prelude::*;

verus! {

/// The services of each process, from a list of processes and services. A
/// service without a process or without a name is left out.
pub open spec fn hosted(l: Seq<(u32, Seq<char>)>) -> Seq<(u32, Seq<Seq<char>>)>
    decreases l.len(),
{
    if l.len() == 0 {
        Seq::empty()
    } else {
        let m = hosted(l.drop_last());
        let (pid, name) = l.last();
        if pid == 0 || name.len() == 0 {
            m
        } else {
            put(
                m,
                pid,
                match lookup(m, pid) {
                    Some(names) => names.push(name),
                    None => seq![name],
                },
            )
        }
    }
}

/// Processes and the services that they host.
pub struct ServiceMap {
    by_pid: Assoc<u32, Vec<String>>,
}

impl Default for ServiceMap {
    fn default() -> (m: ServiceMap)
        ensures
            m.services() == Seq::<(u32, Vec<String>)>::empty(),
    {
        ServiceMap::new()
    }
}

impl ServiceMap {
    /// The services of each process.
    pub closed spec fn services(&self) -> Seq<(u32, Vec<String>)> {
        self.by_pid@
    }

    /// No process yet.
    pub fn new() -> (m: ServiceMap)
        ensures
            m.services() == Seq::<(u32, Vec<String>)>::empty(),
    {
        ServiceMap { by_pid: Assoc::new() }
    }

    /// The services that a process hosts.
    pub fn get(&self, pid: u32) -> (r: Option<&Vec<String>>)
        ensures
            match r {
                Some(v) => lookup(self.services(), pid) == Some(*v),
                None => lookup(self.services(), pid) is None,
            },
    {
        self.by_pid.get(&pid)
    }

    /// Takes a list of the running services, each with its process, where they
    /// could be listed. Without a list the map stays as it is.
    pub fn refresh(&mut self, listing: Option<Vec<(u32, String)>>)
        ensures
            listing is None ==> final(self).services() == old(self).services(),
            listing matches Some(l) ==> mapped(
                final(self).services(),
                |v: Vec<String>| texts(v@),
            ) == hosted(l@.map_values(|e: (u32, String)| (e.0, e.1@))),
    {
        if let Some(list) = listing {
            let ghost g = |v: Vec<String>| texts(v@);
            let ghost all = list@.map_values(|e: (u32, String)| (e.0, e.1@));
            let mut map: Assoc<u32, Vec<String>> = Assoc::new();
            assert(mapped(map@, g) =~= hosted(all.take(0)));
            let mut i: usize = 0;
            while i < list.len()
                invariant
                    i <= list@.len(),
                    g == (|v: Vec<String>| texts(v@)),
                    all == list@.map_values(|e: (u32, String)| (e.0, e.1@)),
                    mapped(map@, g) == hosted(all.take(i as int)),
                decreases list@.len() - i,
            {
                let pid: u32 = list[i].0;
                let ghost was = map@;
                proof {
                    assert(all.take(i + 1).drop_last() =~= all.take(i as int));
                    assert(all.take(i + 1).last() == (pid, list@[i as int].1@));
                }
                if pid != 0 && !list[i].1.as_str().is_empty() {
                    let mut names: Vec<String> = match map.get(&pid) {
                        Some(v) => copy_texts(v),
                        None => Vec::new(),
                    };
                    let ghost before = texts(names@);
                    let name = list[i].1.clone();
                    names.push(name);
                    proof {
                        assert(texts(names@) =~= before.push(name@));
                        assert(Seq::<Seq<char>>::empty().push(name@) =~= seq![name@]);
                        crate::assoc::lemma_mapped(was, g, pid, names);
                        if lookup(was, pid) is None {
                            assert(before =~= Seq::empty());
                        }
                    }
                    map.put(pid, names);
                }
                i += 1;
            }
            assert(all.take(i as int) =~= all);
            self.by_pid = map;
        }
    }
}

/// A process is listed with the names of its services, in their order; process zero
/// and services without a name are left out.
pub proof fn law_processes_are_listed_with_their_services(l: Seq<(u32, Seq<char>)>, pid: u32)
    ensures
        crate::assoc::distinct(hosted(l)),
        ({
            let own = l.filter(|e: (u32, Seq<char>)| e.0 == pid && pid != 0 && e.1.len() > 0);
            lookup(hosted(l), pid) == (if own.len() > 0 {
                Some(own.map_values(|e: (u32, Seq<char>)| e.1))
            } else {
                None
            })
        }),
    decreases l.len(),
{
    reveal(Seq::filter);
    if l.len() > 0 {
        let keep = |e: (u32, Seq<char>)| e.0 == pid && pid != 0 && e.1.len() > 0;
        let name_of = |e: (u32, Seq<char>)| e.1;
        let front = l.drop_last();
        let before = hosted(front);
        let (p, name) = l.last();
        law_processes_are_listed_with_their_services(front, pid);
        if p != 0 && name.len() > 0 {
            law_processes_are_listed_with_their_services(front, p);
            let v = match lookup(before, p) {
                Some(names) => names.push(name),
                None => seq![name],
            };
            crate::assoc::law_put(before, p, v, pid);
            if p == pid {
                assert(l.filter(keep) =~= front.filter(keep).push(l.last()));
                assert(l.filter(keep).map_values(name_of) =~= front.filter(keep).map_values(
                    name_of,
                ).push(name));
            }
        }
    }
}

} // verus!
