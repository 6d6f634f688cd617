//! The rules that plugins propose: one of a kind at a time, so many at most, and
//! each settled once.

use crate::rule::{ProposalState, Rule, RuleProposal};
use crate::store::statement::{load_u64, loaded, store_u64, stored, Statement};
use vstd::prelude::*;

verus! {

/// How many proposals of one plugin may wait for the user.
pub const MAX_PENDING_PER_SOURCE: i64 = 50;

/// A rule that a plugin proposes, before it is written down.
#[derive(Debug)]
pub struct Draft {
    pub source: String,
    pub rule: Rule,
    /// The rule's column.
    pub rule_json: String,
    pub reason: String,
    /// Milliseconds since the Unix epoch.
    pub at_ms: u64,
}

/// Where writing a proposal down stands: what the database was asked last.
#[derive(Debug, Clone, Copy, PartialEq, Eq, Structural)]
pub enum Stage {
    /// Whether the same proposal waits already.
    Finding,
    /// How many of the plugin's proposals wait.
    Counting,
    /// To write it down.
    Inserting,
}

/// The database's answer. One that failed is `None`.
#[derive(Debug)]
pub enum Answer {
    /// The number, reason and time of the same proposal.
    Found(Option<(i64, String, i64)>),
    Pending(Option<i64>),
    /// How many rows were written, and the last one's number.
    Written(Option<usize>, i64),
}

/// What comes next.
#[derive(Debug)]
pub enum Step {
    Run(Stage, Statement),
    /// The proposal as it stands in the database, if it does.
    Done(Option<RuleProposal>),
}

/// What an answer decides.
#[derive(Debug, Clone, Copy, PartialEq, Eq, Structural)]
pub enum Decision {
    /// The proposal waits already.
    Known,
    Count,
    /// The plugin has as many proposals as it may.
    Full,
    Insert,
    Fresh,
    Failed,
}

/// Whether a plugin with so many proposals may have no more.
pub open spec fn full(pending: Option<i64>) -> bool {
    (match pending {
        Some(n) => n as int,
        None => 0,
    }) >= MAX_PENDING_PER_SOURCE
}

/// What an answer decides.
pub open spec fn decided(stage: Stage, answer: Answer) -> Decision {
    match (stage, answer) {
        (Stage::Finding, Answer::Found(Some(_))) => Decision::Known,
        (Stage::Finding, Answer::Found(None)) => Decision::Count,
        (Stage::Counting, Answer::Pending(n)) => if full(n) {
            Decision::Full
        } else {
            Decision::Insert
        },
        (Stage::Inserting, Answer::Written(Some(n), _)) => if n > 0 {
            Decision::Fresh
        } else {
            Decision::Failed
        },
        _ => Decision::Failed,
    }
}

/// The proposal that a draft becomes.
pub open spec fn proposed(d: Draft, id: i64, reason: Seq<char>, at_ms: u64, p: RuleProposal) -> bool {
    &&& p.id == id
    &&& p.source@ == d.source@
    &&& p.rule == d.rule
    &&& p.reason@ == reason
    &&& p.at_ms == at_ms
    &&& p.state == ProposalState::Pending
}

impl Draft {
    /// Asks whether the same proposal waits already.
    pub fn insert_proposal(&self) -> (s: Step)
        ensures
            s == Step::Run(
                Stage::Finding,
                Statement::FindProposal { source: self.source, rule: self.rule_json },
            ),
    {
        Step::Run(
            Stage::Finding,
            Statement::FindProposal { source: self.source.clone(), rule: self.rule_json.clone() },
        )
    }

    /// Takes the database's answer. A proposal that waits already is given back
    /// as it was made, one more than the plugin may have is refused, and any other
    /// is written down.
    pub fn next(&self, stage: Stage, answer: Answer) -> (s: Step)
        ensures
            match decided(stage, answer) {
                Decision::Known => {
                    let found = answer->Found_0->Some_0;
                    s matches Step::Done(Some(p)) && proposed(
                        *self,
                        found.0,
                        found.1@,
                        loaded(found.2),
                        p,
                    )
                },
                Decision::Count => s == Step::Run(
                    Stage::Counting,
                    Statement::CountPending { source: self.source },
                ),
                Decision::Full => s == Step::Done(None),
                Decision::Insert => s == Step::Run(
                    Stage::Inserting,
                    Statement::InsertProposal {
                        source: self.source,
                        rule: self.rule_json,
                        reason: self.reason,
                        at_ms: stored(self.at_ms),
                    },
                ),
                Decision::Fresh => s matches Step::Done(Some(p)) && proposed(
                    *self,
                    answer->Written_1,
                    self.reason@,
                    self.at_ms,
                    p,
                ),
                Decision::Failed => s == Step::Done(None),
            },
    {
        match (stage, answer) {
            (Stage::Finding, Answer::Found(Some((id, reason, at_ms)))) => Step::Done(
                Some(
                    RuleProposal {
                        id,
                        source: self.source.clone(),
                        rule: self.rule.clone(),
                        reason,
                        at_ms: load_u64(at_ms),
                        state: ProposalState::Pending,
                    },
                ),
            ),
            (Stage::Finding, Answer::Found(None)) => Step::Run(
                Stage::Counting,
                Statement::CountPending { source: self.source.clone() },
            ),
            (Stage::Counting, Answer::Pending(pending)) => {
                let n: i64 = match pending {
                    Some(n) => n,
                    None => 0,
                };
                if n >= MAX_PENDING_PER_SOURCE {
                    Step::Done(None)
                } else {
                    Step::Run(
                        Stage::Inserting,
                        Statement::InsertProposal {
                            source: self.source.clone(),
                            rule: self.rule_json.clone(),
                            reason: self.reason.clone(),
                            at_ms: store_u64(self.at_ms),
                        },
                    )
                }
            },
            (Stage::Inserting, Answer::Written(Some(n), id)) => {
                if n > 0 {
                    Step::Done(
                        Some(
                            RuleProposal {
                                id,
                                source: self.source.clone(),
                                rule: self.rule.clone(),
                                reason: self.reason.clone(),
                                at_ms: self.at_ms,
                                state: ProposalState::Pending,
                            },
                        ),
                    )
                } else {
                    Step::Done(None)
                }
            },
            _ => Step::Done(None),
        }
    }
}

/// The state that a verdict leaves a proposal in.
pub open spec fn verdict(accept: bool) -> ProposalState {
    if accept {
        ProposalState::Accepted
    } else {
        ProposalState::Rejected
    }
}

/// Settles a proposal, where it still waits.
pub fn resolve_proposal(id: i64, accept: bool) -> (s: Statement)
    ensures
        s == (Statement::SettleProposal { id, state: verdict(accept) }),
{
    Statement::SettleProposal {
        id,
        state: if accept {
            ProposalState::Accepted
        } else {
            ProposalState::Rejected
        },
    }
}

/// Asks for a proposal that was settled just now; nothing where it was not, since
/// it does not exist or was settled before.
pub fn after_settling(id: i64, rows: Option<usize>) -> (s: Option<Statement>)
    ensures
        s == (if rows is Some && rows->Some_0 > 0 {
            Some(Statement::ProposalOf { id })
        } else {
            None
        }),
{
    match rows {
        Some(n) => {
            if n > 0 {
                Some(Statement::ProposalOf { id })
            } else {
                None
            }
        },
        None => None,
    }
}

/// The proposal that was settled, from its row; nothing where the row or its rule
/// could not be read.
pub fn settled_proposal(
    id: i64,
    accept: bool,
    row: Option<(String, Option<Rule>, String, i64)>,
) -> (r: Option<RuleProposal>)
    ensures
        r == match row {
            Some((source, Some(rule), reason, at_ms)) => Some(
                RuleProposal {
                    id,
                    source,
                    rule,
                    reason,
                    at_ms: loaded(at_ms),
                    state: verdict(accept),
                },
            ),
            _ => None,
        },
{
    match row {
        Some((source, Some(rule), reason, at_ms)) => Some(
            RuleProposal {
                id,
                source,
                rule,
                reason,
                at_ms: load_u64(at_ms),
                state: if accept {
                    ProposalState::Accepted
                } else {
                    ProposalState::Rejected
                },
            },
        ),
        _ => None,
    }
}

/// A proposal that waits already is not put down again. One more is put down while
/// fewer than fifty of its source wait; without a count none is taken to wait.
pub proof fn law_fifty_proposals_wait_at_most(found: Option<(i64, String, i64)>, n: i64, id: i64, rows: usize)
    ensures
        decided(Stage::Finding, Answer::Found(found)) == (if found is Some {
            Decision::Known
        } else {
            Decision::Count
        }),
        decided(Stage::Counting, Answer::Pending(Some(n))) == (if n >= 50 {
            Decision::Full
        } else {
            Decision::Insert
        }),
        decided(Stage::Counting, Answer::Pending(None)) == Decision::Insert,
        decided(Stage::Inserting, Answer::Written(Some(rows), id)) == (if rows > 0 {
            Decision::Fresh
        } else {
            Decision::Failed
        }),
        verdict(true) == ProposalState::Accepted,
        verdict(false) == ProposalState::Rejected,
{
}

} // verus!
