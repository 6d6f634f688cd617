//! The images of processes.

use crate::assoc::{has_key, lookup, put, Assoc};
use crate::utf16::{decoded, lossy};
use vstd::prelude::*;

verus! {

/// The rooms that are tried for an image's path, in units.
pub const FIRST_ROOM: usize = 512;

pub const LAST_ROOM: usize = 32768;

/// The images of processes, as they were found; a process whose image could not
/// be found is remembered too.
pub struct PidCache {
    map: Assoc<u32, Option<String>>,
}

impl View for PidCache {
    type V = Seq<(u32, Option<String>)>;

    closed spec fn view(&self) -> Seq<(u32, Option<String>)> {
        self.map@
    }
}

impl Default for PidCache {
    fn default() -> (c: PidCache)
        ensures
            c@ == Seq::<(u32, Option<String>)>::empty(),
    {
        PidCache::new()
    }
}

impl PidCache {
    /// No process.
    pub fn new() -> (c: PidCache)
        ensures
            c@ == Seq::<(u32, Option<String>)>::empty(),
    {
        PidCache { map: Assoc::new() }
    }

    /// Whether a process is remembered.
    pub fn cached(&self, pid: u32) -> (r: bool)
        ensures
            r == has_key(self@, pid),
    {
        self.map.contains(&pid)
    }

    /// A process's image: what is remembered, or else what was found, which is
    /// remembered from now on.
    pub fn resolve(&mut self, pid: u32, found: Option<String>) -> (r: Option<String>)
        ensures
            match lookup(old(self)@, pid) {
                Some(hit) => r == hit && final(self)@ == old(self)@,
                None => r == found && final(self)@ == put(old(self)@, pid, found),
            },
    {
        if let Some(hit) = self.map.get(&pid) {
            return crate::rule::clone_label(hit);
        }
        let copy = crate::rule::clone_label(&found);
        self.map.put(pid, copy);
        found
    }

    /// Forgets every process, since numbers are used again.
    pub fn clear(&mut self)
        ensures
            final(self)@ == Seq::<(u32, Option<String>)>::empty(),
    {
        self.map.clear();
    }
}

/// What came of asking for an image's path with some room: the units that were
/// written, where it succeeded.
pub open spec fn image_in(answers: Seq<Option<Vec<u16>>>) -> Option<Seq<char>>
    decreases answers.len(),
{
    if answers.len() == 0 {
        None
    } else if answers[0] is Some && answers[0]->Some_0@.len() > 0 {
        Some(decoded(answers[0]->Some_0@))
    } else {
        image_in(answers.drop_first())
    }
}

/// An image's path: the first answer that is one, of those with little room and
/// with as much as a path can take.
pub fn image_path_of(answers: &Vec<Option<Vec<u16>>>) -> (r: Option<String>)
    ensures
        match r {
            Some(p) => image_in(answers@) == Some(p@),
            None => image_in(answers@) is None,
        },
{
    let mut i: usize = 0;
    assert(answers@.skip(0) =~= answers@);
    while i < answers.len()
        invariant
            i <= answers@.len(),
            image_in(answers@.skip(i as int)) == image_in(answers@),
        decreases answers@.len() - i,
    {
        assert(answers@.skip(i as int).drop_first() =~= answers@.skip(i + 1));
        if let Some(units) = &answers[i] {
            if units.len() > 0 {
                return Some(lossy(units.as_slice()));
            }
        }
        i += 1;
    }
    None
}

/// The image of a process is the first answer that is not empty.
pub proof fn law_the_first_answer_counts(
    before: Seq<Option<Vec<u16>>>,
    one: Vec<u16>,
    after: Seq<Option<Vec<u16>>>,
)
    requires
        forall|i: int|
            0 <= i < before.len() ==> (#[trigger] before[i] is None || before[i]->0@.len() == 0),
        one@.len() > 0,
    ensures
        image_in(before + seq![Some(one)] + after) == Some(decoded(one@)),
        image_in(before) is None,
    decreases before.len(),
{
    let all = before + seq![Some(one)] + after;
    if before.len() > 0 {
        let b = before.drop_first();
        assert forall|i: int| 0 <= i < b.len() implies (#[trigger] b[i] is None || b[i]->0@.len()
            == 0) by {
            assert(b[i] == before[i + 1]);
        }
        assert(before[0] is None || before[0]->0@.len() == 0);
        assert(all[0] == before[0]);
        assert(all.drop_first() =~= b + seq![Some(one)] + after);
        law_the_first_answer_counts(b, one, after);
    } else {
        assert(all[0] == Some(one));
    }
}

} // verus!
