//! Filters of the platform's firewall: what they match, which one decides, and
//! how several are put in place together.

use crate::error::EngineError;
use crate::ip::IpAddr;
use crate::ip_show::{hex_text, push_hex};
use crate::rule::RuleAction;
use crate::text::owned;
use vstd::prelude::*;

verus! {

/// Where a filter stands: outgoing connections and incoming ones, for each
/// version of the internet protocol.
#[derive(Debug, Clone, Copy, PartialEq, Eq, Structural)]
pub enum Layer {
    ConnectV4,
    ConnectV6,
    AcceptV4,
    AcceptV6,
}

/// What a filter asks of a connection.
#[derive(Debug, Clone, Copy, PartialEq, Eq, Structural)]
pub enum Condition {
    /// It is the filter's application's.
    App,
    /// It does not stay on this host.
    NotLoopback,
    RemoteV4(u32),
    RemoteV6(u128),
    RemotePort(u16),
}

/// A filter for one application, or for all of them where it asks for none.
#[derive(Debug)]
pub struct Filter {
    pub layer: Layer,
    pub conditions: Vec<Condition>,
    pub action: RuleAction,
    pub weight: u64,
    /// Whether it survives the engine.
    pub persistent: bool,
}

/// A filter, with the application that it was made for.
#[verifier::ext_equal]
pub ghost struct FilterView {
    pub app: Seq<char>,
    pub layer: Layer,
    pub conditions: Seq<Condition>,
    pub action: RuleAction,
    pub weight: nat,
}

/// A connection that is about to be made.
pub ghost struct Attempt {
    pub app: Seq<char>,
    pub layer: Layer,
    pub loopback: bool,
    pub remote: IpAddr,
    pub port: u16,
}

/// A filter made for an application: what it does to connections, whether or not
/// it survives the engine.
pub open spec fn made_for(f: Filter, app: Seq<char>) -> FilterView {
    FilterView {
        app,
        layer: f.layer,
        conditions: f.conditions@,
        action: f.action,
        weight: f.weight as nat,
    }
}

/// Whether a connection meets a condition.
pub open spec fn meets(c: Condition, app: Seq<char>, a: Attempt) -> bool {
    match c {
        Condition::App => a.app == app,
        Condition::NotLoopback => !a.loopback,
        Condition::RemoteV4(v) => a.remote == IpAddr::V4(v),
        Condition::RemoteV6(v) => a.remote == IpAddr::V6(v),
        Condition::RemotePort(p) => a.port == p,
    }
}

/// Whether a filter matches a connection.
pub open spec fn applies(f: FilterView, a: Attempt) -> bool {
    &&& f.layer == a.layer
    &&& forall|i: int|
        0 <= i < f.conditions.len() ==> meets(#[trigger] f.conditions[i], f.app, a)
}

/// Whether a filter matches a connection, and no heavier one does.
pub open spec fn foremost(fs: Seq<FilterView>, a: Attempt, i: int) -> bool {
    &&& 0 <= i < fs.len()
    &&& applies(fs[i], a)
    &&& forall|j: int|
        0 <= j < fs.len() && applies(#[trigger] fs[j], a) ==> fs[j].weight <= fs[i].weight
}

/// Whether the filters do `action` to a connection: the heaviest that match it
/// are for it.
pub open spec fn decides(fs: Seq<FilterView>, a: Attempt, action: RuleAction) -> bool {
    &&& exists|i: int| foremost(fs, a, i)
    &&& forall|i: int| #[trigger] foremost(fs, a, i) ==> fs[i].action == action
}

/// Filters that weigh more than all the others that match decide.
pub proof fn law_the_heaviest_decide(fs: Seq<FilterView>, a: Attempt, weight: nat, action: RuleAction)
    requires
        exists|i: int| 0 <= i < fs.len() && applies(#[trigger] fs[i], a) && fs[i].weight == weight,
        forall|i: int|
            0 <= i < fs.len() && applies(#[trigger] fs[i], a) ==> fs[i].weight < weight || (
            fs[i].weight == weight && fs[i].action == action),
    ensures
        decides(fs, a, action),
{
    let k = choose|i: int|
        0 <= i < fs.len() && applies(#[trigger] fs[i], a) && fs[i].weight == weight;
    assert(foremost(fs, a, k));
    assert forall|i: int| #[trigger] foremost(fs, a, i) implies fs[i].action == action by {
        assert(applies(fs[k], a));
        assert(fs[k].weight <= fs[i].weight);
    }
}

/// An error's code as text.
pub open spec fn code_text(code: nat) -> Seq<char> {
    "0x"@ + hex_text(code)
}

/// Appends an error's code.
pub fn push_code(out: &mut String, code: u32)
    ensures
        final(out)@ == old(out)@ + code_text(code as nat),
{
    out.push_str("0x");
    push_hex(out, code as u64);
    assert(out@ =~= old(out)@ + code_text(code as nat));
}

/// The error of a call that gave a code.
pub fn os_error(what: &str, code: u32) -> (e: EngineError)
    ensures
        e matches EngineError::Os(m) && m@ == what@ + code_text(code as nat),
{
    let mut m = owned(what);
    push_code(&mut m, code);
    EngineError::Os(m)
}

/// Filters that are being put in place: all of them, or none.
#[derive(Debug)]
pub struct Install {
    /// The filters that stand, in order.
    pub added: Vec<u64>,
    pub total: usize,
}

/// What comes of an attempt to put one filter in place.
#[derive(Debug)]
pub enum InstallStep {
    /// The next one is to be put in place.
    More(Install),
    /// All of them stand.
    Finished(Vec<u64>),
    /// These are to be taken away again, since one failed with a code.
    Undo(Vec<u64>, u32),
}

impl Install {
    /// Whether there is one more to put in place.
    pub open spec fn wf(self) -> bool {
        self.added@.len() < self.total
    }

    /// Starts with `total` filters.
    pub fn begin(total: usize) -> (s: InstallStep)
        ensures
            if total == 0 {
                s matches InstallStep::Finished(ids) && ids@.len() == 0
            } else {
                s matches InstallStep::More(i) && i.wf() && i.added@.len() == 0 && i.total == total
            },
    {
        if total == 0 {
            InstallStep::Finished(Vec::new())
        } else {
            InstallStep::More(Install { added: Vec::new(), total })
        }
    }

    /// Which filter is next.
    pub fn next(&self) -> (i: usize)
        requires
            self.wf(),
        ensures
            i == self.added@.len(),
            i < self.total,
    {
        self.added.len()
    }

    /// Takes what came of putting the next filter in place: its number, or the
    /// code that it failed with.
    pub fn step(self, outcome: Result<u64, u32>) -> (s: InstallStep)
        requires
            self.wf(),
        ensures
            match outcome {
                Ok(id) => if self.added@.len() + 1 == self.total {
                    s matches InstallStep::Finished(ids) && ids@ == self.added@.push(id)
                } else {
                    s matches InstallStep::More(i) && i.wf() && i.added@ == self.added@.push(id)
                        && i.total == self.total
                },
                Err(code) => s == InstallStep::Undo(self.added, code),
            },
    {
        match outcome {
            Err(code) => InstallStep::Undo(self.added, code),
            Ok(id) => {
                let total: usize = self.total;
                let mut added = self.added;
                added.push(id);
                if added.len() == total {
                    InstallStep::Finished(added)
                } else {
                    InstallStep::More(Install { added, total })
                }
            },
        }
    }
}

/// The filters that stand after a run of outcomes. A failure takes all of them
/// away, and what follows it is not tried.
pub open spec fn standing(outcomes: Seq<Result<u64, u32>>) -> Seq<u64>
    decreases outcomes.len(),
{
    if outcomes.len() == 0 {
        Seq::empty()
    } else if failed(outcomes.drop_last()) || outcomes.last() is Err {
        Seq::empty()
    } else {
        standing(outcomes.drop_last()).push(outcomes.last()->Ok_0)
    }
}

/// Whether one of the outcomes is a failure.
pub open spec fn failed(outcomes: Seq<Result<u64, u32>>) -> bool {
    exists|i: int| 0 <= i < outcomes.len() && (#[trigger] outcomes[i]) is Err
}

/// Filters stand together or not at all.
pub proof fn law_filters_stand_together(outcomes: Seq<Result<u64, u32>>)
    ensures
        standing(outcomes).len() == (if failed(outcomes) {
            0
        } else {
            outcomes.len()
        }),
    decreases outcomes.len(),
{
    if outcomes.len() > 0 {
        law_filters_stand_together(outcomes.drop_last());
        let front = outcomes.drop_last();
        if outcomes.last() is Err {
            assert(outcomes[outcomes.len() - 1] is Err);
        } else if failed(front) {
            let i = choose|i: int| 0 <= i < front.len() && (#[trigger] front[i]) is Err;
            assert(outcomes[i] is Err);
        } else if failed(outcomes) {
            let i = choose|i: int| 0 <= i < outcomes.len() && (#[trigger] outcomes[i]) is Err;
            assert(front[i] is Err);
        }
    }
}

} // verus!
