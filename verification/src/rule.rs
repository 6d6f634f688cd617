//! Firewall rules.

use crate::model::{AppId, Direction};
use crate::text::same;
use vstd::prelude::*;

verus! {

/// What a rule does to the traffic that it matches.
#[derive(Debug, Clone, Copy, PartialEq, Eq, Structural)]
pub enum RuleAction {
    Allow,
    Block,
}

/// Pins one application's traffic in one direction to allow or block.
#[derive(Debug, PartialEq, Eq)]
pub struct Rule {
    pub app: AppId,
    pub direction: Direction,
    pub action: RuleAction,
    /// What is shown for the rule; the application's file name where not given.
    pub label: Option<String>,
}

/// A copy of an optional text.
pub fn clone_label(label: &Option<String>) -> (r: Option<String>)
    ensures
        r == *label,
{
    match label {
        Some(l) => Some(l.clone()),
        None => None,
    }
}

impl Clone for Rule {
    fn clone(&self) -> (r: Rule)
        ensures
            r == *self,
    {
        Rule {
            app: self.app.clone(),
            direction: self.direction,
            action: self.action,
            label: clone_label(&self.label),
        }
    }
}

impl Rule {
    /// The rule that blocks what an application sends out.
    pub fn block_outbound(app: AppId) -> (r: Rule)
        ensures
            r == (Rule {
                app,
                direction: Direction::Outbound,
                action: RuleAction::Block,
                label: None,
            }),
    {
        Rule { app, direction: Direction::Outbound, action: RuleAction::Block, label: None }
    }
}

/// A rule with the identity of the filter that enforces it.
#[derive(Debug, PartialEq, Eq)]
pub struct StoredRule {
    pub id: i64,
    pub rule: Rule,
    /// The platform's filter, where the rule has been applied.
    pub filter_id: Option<u64>,
    /// Whether the rule is enforced now.
    pub enabled: bool,
}

impl Clone for StoredRule {
    fn clone(&self) -> (r: StoredRule)
        ensures
            r == *self,
    {
        StoredRule {
            id: self.id,
            rule: self.rule.clone(),
            filter_id: self.filter_id,
            enabled: self.enabled,
        }
    }
}

/// Where a proposal stands.
#[derive(Debug, Clone, Copy, PartialEq, Eq, Structural)]
pub enum ProposalState {
    Pending,
    Accepted,
    Rejected,
}

impl ProposalState {
    /// The name that a state is stored under.
    pub open spec fn name(self) -> Seq<char> {
        match self {
            ProposalState::Pending => "pending"@,
            ProposalState::Accepted => "accepted"@,
            ProposalState::Rejected => "rejected"@,
        }
    }

    /// The name that a state is stored under.
    pub fn as_str(self) -> (s: &'static str)
        ensures
            s@ == self.name(),
    {
        match self {
            ProposalState::Pending => "pending",
            ProposalState::Accepted => "accepted",
            ProposalState::Rejected => "rejected",
        }
    }

    /// The state of a name.
    pub fn parse(s: &str) -> (r: Option<ProposalState>)
        ensures
            forall|k: ProposalState| (r == Some(k)) == (s@ == #[trigger] k.name()),
    {
        proof {
            law_state_names_identify();
        }
        if same(s, "pending") {
            assert(s@ == ProposalState::Pending.name());
            Some(ProposalState::Pending)
        } else if same(s, "accepted") {
            assert(s@ == ProposalState::Accepted.name());
            Some(ProposalState::Accepted)
        } else if same(s, "rejected") {
            assert(s@ == ProposalState::Rejected.name());
            Some(ProposalState::Rejected)
        } else {
            None
        }
    }
}

/// A state's name tells it from the others.
pub proof fn law_state_names_identify()
    ensures
        forall|a: ProposalState, b: ProposalState| #[trigger]
            a.name() == #[trigger] b.name() ==> a == b,
{
    reveal_strlit("pending");
    reveal_strlit("accepted");
    reveal_strlit("rejected");
    assert("pending"@[0] != "accepted"@[0]);
    assert("pending"@[0] != "rejected"@[0]);
    assert("accepted"@[0] != "rejected"@[0]);
}

/// A rule that a plugin proposes, for the user to accept or reject.
#[derive(Debug, PartialEq, Eq)]
pub struct RuleProposal {
    pub id: i64,
    /// The plugin that proposes it.
    pub source: String,
    pub rule: Rule,
    pub reason: String,
    /// Milliseconds since the Unix epoch.
    pub at_ms: u64,
    pub state: ProposalState,
}

} // verus!
