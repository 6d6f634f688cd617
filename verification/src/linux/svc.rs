//! The service units that processes run under.

use crate::assoc::{lookup, mapped, put, Assoc};
use crate::text::{
    chars_of, contains_text, copy_chars, copy_texts, ends_with, find, find_char, has_part,
    has_suffix, lines, lines_of, split, split_chars, text_of, texts, views,
};
use vstd::prelude::*;

verus! {

/// Whether a component of a control group's path names a unit: a service, a
/// socket or a scope.
pub open spec fn is_unit(part: Seq<char>) -> bool {
    has_suffix(part, ".service"@) || has_suffix(part, ".socket"@) || has_suffix(part, ".scope"@)
}

/// The last of `parts` that names a unit.
pub open spec fn last_unit(parts: Seq<Seq<char>>) -> Option<Seq<char>>
    decreases parts.len(),
{
    if parts.len() == 0 {
        None
    } else if is_unit(parts.last()) {
        Some(parts.last())
    } else {
        last_unit(parts.drop_last())
    }
}

/// The innermost of `parts` that names a unit, where that is a service. What runs
/// in a scope of its own, as a user's applications do, belongs to no service,
/// whatever service the scope is under.
pub open spec fn last_service(parts: Seq<Seq<char>>) -> Option<Seq<char>> {
    match last_unit(parts) {
        Some(u) if has_suffix(u, ".service"@) => Some(u),
        _ => None,
    }
}

/// What runs in a scope is labelled with no service, whatever the scope is under.
pub proof fn law_scopes_have_no_service(parts: Seq<Seq<char>>, scope: Seq<char>)
    requires
        has_suffix(scope, ".scope"@),
    ensures
        last_service(parts.push(scope)) is None,
{
    reveal_strlit(".scope");
    reveal_strlit(".service");
    let all = parts.push(scope);
    assert(last_unit(all) == Some(scope));
    let n = scope.len() as int;
    if has_suffix(scope, ".service"@) {
        assert(scope.skip(n - 6)[1] == 's' && scope.skip(n - 8)[3] == 'r');
        assert(scope[n - 5] == 's');
        assert(scope.skip(n - 8)[3] == scope[n - 5]);
    }
}

/// The service that a control group's path belongs to: its innermost unit, where
/// that is a service.
pub fn service_component(path: &str) -> (r: Option<String>)
    ensures
        match r {
            Some(u) => last_service(split(path@, '/')) == Some(u@),
            None => last_service(split(path@, '/')) is None,
        },
{
    let c = chars_of(path);
    component(c.as_slice())
}

fn component(path: &[char]) -> (r: Option<String>)
    ensures
        match r {
            Some(u) => last_service(split(path@, '/')) == Some(u@),
            None => last_service(split(path@, '/')) is None,
        },
{
    let parts = split_chars(path, '/');
    let service = chars_of(".service");
    let socket = chars_of(".socket");
    let scope = chars_of(".scope");
    let ghost all = split(path@, '/');
    let mut n: usize = parts.len();
    assert(all.take(n as int) =~= all);
    while n > 0
        invariant
            n <= parts@.len(),
            all == views(parts@),
            service@ == ".service"@,
            socket@ == ".socket"@,
            scope@ == ".scope"@,
            last_unit(all.take(n as int)) == last_unit(all),
            all == split(path@, '/'),
        decreases n,
    {
        assert(all.take(n as int).last() == parts@[n - 1]@);
        assert(all.take(n as int).drop_last() =~= all.take(n - 1));
        let part = parts[n - 1].as_slice();
        if ends_with(part, service.as_slice()) {
            return Some(text_of(part));
        }
        if ends_with(part, socket.as_slice()) || ends_with(part, scope.as_slice()) {
            return None;
        }
        n -= 1;
    }
    None
}

/// The position of the last double colon, or the length.
pub open spec fn last_gap(s: Seq<char>) -> nat
    decreases s.len(),
{
    if s.len() < 2 {
        s.len()
    } else if s[s.len() - 2] == ':' && s.last() == ':' {
        (s.len() - 2) as nat
    } else if last_gap(s.drop_last()) == s.len() - 1 {
        s.len()
    } else {
        last_gap(s.drop_last())
    }
}

/// The path in a line of a process's control groups: what follows the last
/// double colon, or the third field where the second is empty or names the
/// service manager.
pub open spec fn cgroup_path(line: Seq<char>) -> Option<Seq<char>> {
    let g = last_gap(line) as int;
    if g < line.len() {
        Some(line.skip(g + 2))
    } else {
        let a = find(line, ':') as int;
        let rest = line.skip(a + 1);
        let b = find(rest, ':') as int;
        let controllers = rest.take(b);
        if a < line.len() && (controllers.len() == 0 || has_part(controllers, "name=systemd"@))
            && b < rest.len() {
            Some(rest.skip(b + 1))
        } else {
            None
        }
    }
}

/// The service that lines of control groups name first.
pub open spec fn first_unit(ls: Seq<Seq<char>>) -> Option<Seq<char>>
    decreases ls.len(),
{
    if ls.len() == 0 {
        None
    } else {
        let unit = match cgroup_path(ls[0]) {
            Some(p) => last_service(split(p, '/')),
            None => None,
        };
        if unit is Some {
            unit
        } else {
            first_unit(ls.drop_first())
        }
    }
}

fn gap(s: &[char]) -> (g: usize)
    ensures
        g == last_gap(s@),
        g < s@.len() ==> g + 2 <= s@.len(),
        g <= s@.len(),
{
    let mut n: usize = s.len();
    assert(s@.take(n as int) =~= s@);
    while n >= 2
        invariant
            n <= s@.len(),
            last_gap(s@) == (if last_gap(s@.take(n as int)) == n {
                s@.len()
            } else {
                last_gap(s@.take(n as int))
            }),
        decreases n,
    {
        assert(s@.take(n as int).drop_last() =~= s@.take(n - 1));
        proof {
            lemma_last_gap(s@.take(n - 1));
        }
        if s[n - 2] == ':' && s[n - 1] == ':' {
            return n - 2;
        }
        n -= 1;
    }
    s.len()
}

proof fn lemma_last_gap(s: Seq<char>)
    ensures
        last_gap(s) <= s.len(),
    decreases s.len(),
{
    if s.len() >= 2 {
        lemma_last_gap(s.drop_last());
    }
}

fn line_path(line: &[char]) -> (r: Option<Vec<char>>)
    ensures
        match r {
            Some(p) => cgroup_path(line@) == Some(p@),
            None => cgroup_path(line@) is None,
        },
{
    let g: usize = gap(line);
    if g < line.len() {
        let p = copy_chars(line, g + 2, line.len());
        assert(p@ =~= line@.skip(g as int + 2));
        return Some(p);
    }
    let a: usize = find_char(line, ':');
    if a == line.len() {
        return None;
    }
    let rest = vstd::slice::slice_subrange(line, a + 1, line.len());
    assert(rest@ =~= line@.skip(a + 1));
    let b: usize = find_char(rest, ':');
    let controllers = vstd::slice::slice_subrange(rest, 0, b);
    assert(controllers@ =~= rest@.take(b as int));
    let manager = chars_of("name=systemd");
    if b < rest.len() && (controllers.len() == 0 || contains_text(controllers, manager.as_slice())) {
        let p = copy_chars(rest, b + 1, rest.len());
        assert(p@ =~= rest@.skip(b + 1));
        Some(p)
    } else {
        None
    }
}

/// The service unit of a process, from the text of its control groups.
pub fn unit_of(cgroup: &str) -> (r: Option<String>)
    ensures
        match r {
            Some(u) => first_unit(lines(cgroup@)) == Some(u@),
            None => first_unit(lines(cgroup@)) is None,
        },
{
    let c = chars_of(cgroup);
    let ls = lines_of(c.as_slice());
    let ghost all = lines(cgroup@);
    let mut i: usize = 0;
    assert(all.skip(0) =~= all);
    while i < ls.len()
        invariant
            i <= ls@.len(),
            all == views(ls@),
            all == lines(cgroup@),
            first_unit(all.skip(i as int)) == first_unit(all),
        decreases ls@.len() - i,
    {
        assert(all.skip(i as int)[0] == ls@[i as int]@);
        assert(all.skip(i as int).drop_first() =~= all.skip(i + 1));
        if let Some(p) = line_path(ls[i].as_slice()) {
            if let Some(u) = component(p.as_slice()) {
                return Some(u);
            }
        }
        i += 1;
    }
    None
}

/// The names of the services of each process.
pub open spec fn service_names(m: Seq<(u32, Vec<String>)>) -> Seq<(u32, Seq<Seq<char>>)> {
    mapped(m, |v: Vec<String>| texts(v@))
}

/// The services of the listed processes, each with the text of its control
/// groups.
pub open spec fn units_listed(l: Seq<(u32, Seq<char>)>) -> Seq<(u32, Seq<Seq<char>>)>
    decreases l.len(),
{
    if l.len() == 0 {
        Seq::empty()
    } else {
        let m = units_listed(l.drop_last());
        match first_unit(lines(l.last().1)) {
            Some(u) => put(
                m,
                l.last().0,
                match lookup(m, l.last().0) {
                    Some(names) => names.push(u),
                    None => seq![u],
                },
            ),
            None => m,
        }
    }
}

/// Processes and the services that they host.
pub struct ServiceMap {
    by_pid: Assoc<u32, Vec<String>>,
}

impl ServiceMap {
    /// The services of each process.
    pub closed spec fn services(&self) -> Seq<(u32, Vec<String>)> {
        self.by_pid@
    }

    /// No process yet.
    pub fn new() -> (m: ServiceMap)
        ensures
            m.services() == Seq::<(u32, Vec<String>)>::empty(),
    {
        ServiceMap { by_pid: Assoc::new() }
    }

    /// The services that a process hosts.
    pub fn get(&self, pid: u32) -> (r: Option<&Vec<String>>)
        ensures
            match r {
                Some(v) => lookup(self.services(), pid) == Some(*v),
                None => lookup(self.services(), pid) is None,
            },
    {
        self.by_pid.get(&pid)
    }

    /// Takes the control groups of the running processes, where they could be
    /// listed: each process that runs under a service hosts that service. Without
    /// a listing the map stays as it is.
    pub fn refresh(&mut self, listing: Option<Vec<(u32, String)>>)
        ensures
            listing is None ==> final(self).services() == old(self).services(),
            listing matches Some(l) ==> service_names(final(self).services()) == units_listed(
                l@.map_values(|e: (u32, String)| (e.0, e.1@)),
            ),
    {
        if let Some(list) = listing {
            let ghost all = list@.map_values(|e: (u32, String)| (e.0, e.1@));
            let mut map: Assoc<u32, Vec<String>> = Assoc::new();
            assert(service_names(map@) =~= units_listed(all.take(0)));
            let mut i: usize = 0;
            while i < list.len()
                invariant
                    i <= list@.len(),
                    all == list@.map_values(|e: (u32, String)| (e.0, e.1@)),
                    service_names(map@) == units_listed(all.take(i as int)),
                decreases list@.len() - i,
            {
                let pid: u32 = list[i].0;
                let unit = unit_of(list[i].1.as_str());
                let ghost was = map@;
                proof {
                    assert(all.take(i + 1).drop_last() =~= all.take(i as int));
                    assert(all.take(i + 1).last() == (pid, list@[i as int].1@));
                }
                if let Some(u) = unit {
                    let mut names: Vec<String> = match map.get(&pid) {
                        Some(v) => copy_texts(v),
                        None => Vec::new(),
                    };
                    let ghost before = texts(names@);
                    names.push(u);
                    proof {
                        assert(texts(names@) =~= before.push(u@));
                        assert(Seq::<Seq<char>>::empty().push(u@) =~= seq![u@]);
                        crate::assoc::lemma_mapped(was, |v: Vec<String>| texts(v@), pid, names);
                        if lookup(was, pid) is None {
                            assert(before =~= Seq::empty());
                        }
                    }
                    map.put(pid, names);
                }
                i += 1;
            }
            assert(all.take(i as int) =~= all);
            self.by_pid = map;
        }
    }
}

/// The service of a control group is the last unit in its path, where that is a
/// service; parts that name no unit do not matter, and sockets and scopes hide the
/// services above them.
pub proof fn law_the_last_unit_counts(parts: Seq<Seq<char>>, part: Seq<char>)
    ensures
        has_suffix(part, ".service"@) ==> last_service(parts.push(part)) == Some(part),
        has_suffix(part, ".socket"@) && !has_suffix(part, ".service"@) ==> last_service(
            parts.push(part),
        ) is None,
        !has_suffix(part, ".service"@) && !has_suffix(part, ".socket"@) && !has_suffix(
            part,
            ".scope"@,
        ) ==> last_service(parts.push(part)) == last_service(parts),
        last_service(Seq::empty()) is None,
{
    assert(parts.push(part).drop_last() =~= parts);
    assert(parts.push(part).last() == part);
}

/// The path of a control group stands behind the two colons of its line. Where the
/// line names controllers between them, it counts only for those of the service
/// manager.
pub proof fn law_paths_stand_behind_the_colons(
    number: Seq<char>,
    controllers: Seq<char>,
    path: Seq<char>,
)
    requires
        number.len() > 0,
        !number.contains(':'),
        !controllers.contains(':'),
        !path.contains(':'),
        path.len() > 0,
    ensures
        cgroup_path(number + seq![':', ':'] + path) == Some(path),
        controllers.len() > 0 ==> cgroup_path(
            number + seq![':'] + controllers + seq![':'] + path,
        ) == (if has_part(controllers, "name=systemd"@) {
            Some(path)
        } else {
            None
        }),
{
    let s = number + seq![':', ':'] + path;
    let k = number.len() as int;
    assert(s[k] == ':' && s[k + 1] == ':');
    assert forall|i: int| k + 1 < i < s.len() implies s[i] != ':' by {
        assert(s[i] == path[i - k - 2]);
        assert(path.contains(path[i - k - 2]));
    }
    lemma_gap_at(s, k);
    assert(s.skip(k + 2) =~= path);
    if controllers.len() > 0 {
        let t = number + seq![':'] + controllers + seq![':'] + path;
        let m = controllers.len() as int;
        assert forall|i: int| 0 <= i < t.len() - 1 implies !(t[i] == ':' && #[trigger] t[i + 1]
            == ':') by {
            if i < k {
                assert(t[i] == number[i]);
                assert(number.contains(number[i]));
            } else if k < i < k + 1 + m {
                assert(t[i] == controllers[i - k - 1]);
                assert(controllers.contains(controllers[i - k - 1]));
            } else if i == k {
                assert(t[i + 1] == controllers[0]);
                assert(controllers.contains(controllers[0]));
            } else {
                assert(t[i + 1] == path[i + 1 - k - m - 2]);
                assert(path.contains(path[i + 1 - k - m - 2]));
            }
        }
        lemma_no_gap(t);
        let rest = controllers + seq![':'] + path;
        crate::text::lemma_find(t, ':');
        assert(t[k] == ':');
        assert forall|i: int| 0 <= i < k implies t[i] != ':' by {
            assert(t[i] == number[i]);
            assert(number.contains(number[i]));
        }
        assert(find(t, ':') == k);
        assert(t.skip(k + 1) =~= rest);
        crate::text::lemma_find(rest, ':');
        assert(rest[m] == ':');
        assert forall|i: int| 0 <= i < m implies rest[i] != ':' by {
            assert(rest[i] == controllers[i]);
            assert(controllers.contains(controllers[i]));
        }
        assert(find(rest, ':') == m);
        assert(rest.take(m) =~= controllers);
        assert(rest.skip(m + 1) =~= path);
    }
}

proof fn lemma_gap_at(s: Seq<char>, k: int)
    requires
        0 <= k,
        k + 2 <= s.len(),
        s[k] == ':',
        s[k + 1] == ':',
        forall|i: int| k + 1 < i < s.len() ==> s[i] != ':',
    ensures
        last_gap(s) == k,
    decreases s.len(),
{
    if s.len() > k + 2 {
        assert(s.last() != ':');
        lemma_gap_at(s.drop_last(), k);
    }
}

proof fn lemma_no_gap(s: Seq<char>)
    requires
        forall|i: int| 0 <= i < s.len() - 1 ==> !(s[i] == ':' && #[trigger] s[i + 1] == ':'),
    ensures
        last_gap(s) == s.len(),
    decreases s.len(),
{
    if s.len() >= 2 {
        let t = s.drop_last();
        assert forall|i: int| 0 <= i < t.len() - 1 implies !(t[i] == ':' && #[trigger] t[i + 1]
            == ':') by {
            assert(t[i + 1] == s[i + 1]);
        }
        assert(!(s[s.len() - 2] == ':' && s[(s.len() - 2) + 1] == ':'));
        lemma_no_gap(t);
    }
}

/// A process runs under the service of the first line of its control groups that
/// names one.
pub proof fn law_the_first_service_counts(line: Seq<char>, rest: Seq<Seq<char>>, path: Seq<char>)
    requires
        cgroup_path(line) == Some(path),
    ensures
        first_unit(seq![line] + rest) == (match last_service(split(path, '/')) {
            Some(u) => Some(u),
            None => first_unit(rest),
        }),
        first_unit(Seq::empty()) is None,
{
    assert((seq![line] + rest).drop_first() =~= rest);
}

/// A process is listed with the services of its entries, in their order, and one
/// without any is not listed.
pub proof fn law_processes_are_listed_with_their_services(l: Seq<(u32, Seq<char>)>, pid: u32)
    ensures
        crate::assoc::distinct(units_listed(l)),
        ({
            let own = l.filter_map(
                |e: (u32, Seq<char>)|
                    if e.0 == pid {
                        first_unit(lines(e.1))
                    } else {
                        None
                    },
            );
            lookup(units_listed(l), pid) == (if own.len() > 0 {
                Some(own)
            } else {
                None
            })
        }),
    decreases l.len(),
{
    reveal(Seq::filter_map);
    if l.len() > 0 {
        let front = l.drop_last();
        let before = units_listed(front);
        let (p, text) = l.last();
        law_processes_are_listed_with_their_services(front, pid);
        match first_unit(lines(text)) {
            Some(u) => {
                law_processes_are_listed_with_their_services(front, p);
                let v = match lookup(before, p) {
                    Some(names) => names.push(u),
                    None => seq![u],
                };
                crate::assoc::law_put(before, p, v, pid);
                assert(Seq::<Seq<char>>::empty().push(u) =~= seq![u]);
            },
            None => {},
        }
    }
}

} // verus!
