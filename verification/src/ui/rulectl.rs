//! Changes of rules: what the engine is asked, and what its program is run with
//! where more rights are needed.

use crate::model::{lowercase, AppId, Direction};
use crate::rule::{Rule, RuleAction};
use crate::text::{dec_text, owned, push_dec, same, texts, trimmed};
use crate::ui::session::EngineCmd;
use vstd::prelude::*;

verus! {

/// The decimal text of a number.
pub open spec fn int_text(v: int) -> Seq<char> {
    if v < 0 {
        "-"@ + dec_text((-v) as nat)
    } else {
        dec_text(v as nat)
    }
}

fn int_string(v: i64) -> (s: String)
    ensures
        s@ == int_text(v as int),
{
    let mut s = owned("");
    proof {
        reveal_strlit("");
        assert(""@ + dec_text(v as nat) =~= dec_text(v as nat));
    }
    if v < 0 {
        s.push_str("-");
        assert(s@ =~= "-"@);
        push_dec(&mut s, (-(v + 1)) as u64 + 1);
    } else {
        push_dec(&mut s, v as u64);
    }
    s
}

/// The word for a truth value.
pub open spec fn bool_text(b: bool) -> Seq<char> {
    if b {
        "true"@
    } else {
        "false"@
    }
}

fn bool_word(b: bool) -> (s: String)
    ensures
        s@ == bool_text(b),
{
    if b {
        owned("true")
    } else {
        owned("false")
    }
}

fn one(a: &str) -> (r: Vec<String>)
    ensures
        texts(r@) == seq![a@],
{
    let mut r: Vec<String> = Vec::new();
    r.push(owned(a));
    assert(texts(r@) =~= seq![a@]);
    r
}

fn two(a: &str, b: String) -> (r: Vec<String>)
    ensures
        texts(r@) == seq![a@, b@],
{
    let mut r: Vec<String> = Vec::new();
    r.push(owned(a));
    r.push(b);
    assert(texts(r@) =~= seq![a@, b@]);
    r
}

/// The direction of a word: every word but `inbound` means outbound.
pub open spec fn direction_named(word: Seq<char>) -> Direction {
    if word == "inbound"@ {
        Direction::Inbound
    } else {
        Direction::Outbound
    }
}

/// The action of a word: every word but `allow` means block.
pub open spec fn action_named(word: Seq<char>) -> RuleAction {
    if word == "allow"@ {
        RuleAction::Allow
    } else {
        RuleAction::Block
    }
}

/// Whether a change adds the rule for `app` that the words name. Only known words
/// reach the engine's program.
pub open spec fn adds_rule(
    r: (EngineCmd, Vec<String>),
    app: Seq<char>,
    path: Seq<char>,
    direction: Seq<char>,
    action: Seq<char>,
) -> bool {
    &&& r.0 matches EngineCmd::AddRule(rule)
    &&& rule.app@ == app
    &&& rule.direction == direction_named(direction)
    &&& rule.action == action_named(action)
    &&& rule.label is None
    &&& texts(r.1@) == seq![
        "--rule-add"@,
        path,
        if direction_named(direction) == Direction::Inbound {
            "inbound"@
        } else {
            "outbound"@
        },
        if action_named(action) == RuleAction::Allow {
            "allow"@
        } else {
            "block"@
        },
    ]
}

fn add_for(app: AppId, path: String, direction: &str, action: &str) -> (r: (
    EngineCmd,
    Vec<String>,
))
    ensures
        adds_rule(r, app@, path@, direction@, action@),
{
    let inbound: bool = same(direction, "inbound");
    let allow: bool = same(action, "allow");
    let rule = Rule {
        app,
        direction: if inbound {
            Direction::Inbound
        } else {
            Direction::Outbound
        },
        action: if allow {
            RuleAction::Allow
        } else {
            RuleAction::Block
        },
        label: None,
    };
    let ghost p = path@;
    let mut args = two("--rule-add", path);
    let ghost front = texts(args@);
    assert(front.len() == 2 && args@.len() == front.len());
    args.push(
        owned(
            if inbound {
                "inbound"
            } else {
                "outbound"
            },
        ),
    );
    args.push(
        owned(
            if allow {
                "allow"
            } else {
                "block"
            },
        ),
    );
    assert(texts(args@).take(2) =~= front);
    assert(texts(args@)[0] == front[0] && texts(args@)[1] == front[1]);
    assert(texts(args@) =~= seq![
        "--rule-add"@,
        p,
        if inbound {
            "inbound"@
        } else {
            "outbound"@
        },
        if allow {
            "allow"@
        } else {
            "block"@
        },
    ]);
    (EngineCmd::AddRule(rule), args)
}

/// Adds a rule for a program, on a host whose file names keep their case.
pub fn rule_add(path: String, direction: &str, action: &str) -> (r: (EngineCmd, Vec<String>))
    ensures
        adds_rule(r, trimmed(path@), path@, direction@, action@),
{
    let app = AppId::from_path(path.as_str());
    add_for(app, path, direction, action)
}

/// Adds a rule for a program, on a host whose file names ignore case.
pub fn rule_add_caseless(path: String, direction: &str, action: &str) -> (r: (
    EngineCmd,
    Vec<String>,
))
    ensures
        adds_rule(r, lowercase(trimmed(path@)), path@, direction@, action@),
{
    let app = AppId::from_caseless_path(path.as_str());
    add_for(app, path, direction, action)
}

/// Removes a rule.
pub fn rule_remove(id: i64) -> (r: (EngineCmd, Vec<String>))
    ensures
        r.0 == EngineCmd::RemoveRule(id),
        texts(r.1@) == seq!["--rule-remove"@, int_text(id as int)],
{
    (EngineCmd::RemoveRule(id), two("--rule-remove", int_string(id)))
}

/// Switches a rule on or off.
pub fn rule_set_enabled(id: i64, enabled: bool) -> (r: (EngineCmd, Vec<String>))
    ensures
        r.0 == EngineCmd::SetRuleEnabled(id, enabled),
        texts(r.1@) == seq!["--rule-enable"@, int_text(id as int), bool_text(enabled)],
{
    let mut args = two("--rule-enable", int_string(id));
    let ghost front = texts(args@);
    assert(front.len() == 2 && args@.len() == front.len());
    args.push(bool_word(enabled));
    assert(texts(args@).take(2) =~= front);
    assert(texts(args@)[0] == front[0] && texts(args@)[1] == front[1]);
    assert(texts(args@) =~= seq!["--rule-enable"@, int_text(id as int), bool_text(enabled)]);
    (EngineCmd::SetRuleEnabled(id, enabled), args)
}

/// Lets this account change rules without more rights, or takes that back.
pub fn set_rule_grant(granted: bool) -> (args: Vec<String>)
    ensures
        texts(args@) == seq!["--grant-rules"@, bool_text(granted)],
{
    two("--grant-rules", bool_word(granted))
}

/// Accepts a proposal.
pub fn proposal_accept(id: i64) -> (r: (EngineCmd, Vec<String>))
    ensures
        r.0 == EngineCmd::ResolveProposal(id, true),
        texts(r.1@) == seq!["--proposal-accept"@, int_text(id as int)],
{
    (EngineCmd::ResolveProposal(id, true), two("--proposal-accept", int_string(id)))
}

/// Restores the rules in a file, which may have so many bytes at most.
pub fn rule_import(path: String, len: u64, max: u64) -> (r: Result<Vec<String>, String>)
    ensures
        r is Ok == (len <= max),
        r is Ok ==> texts(r->Ok_0@) == seq!["--rule-import"@, path@],
        r is Err ==> r->Err_0@ == "that file is too large to be a rules backup"@,
{
    if len > max {
        return Err(owned("that file is too large to be a rules backup"));
    }
    Ok(two("--rule-import", path))
}

/// Sets the engine up as a service, or takes it down.
pub fn service_args(install: bool) -> (args: Vec<String>)
    ensures
        texts(args@) == seq![
            if install {
                "--install"@
            } else {
                "--uninstall"@
            },
        ],
{
    if install {
        one("--install")
    } else {
        one("--uninstall")
    }
}

/// Whether the engine's program is to be run with more rights, from what came of
/// the change with the rights that there are.
pub fn mutate(unelevated: Result<bool, String>) -> (r: Result<bool, String>)
    ensures
        r == match unelevated {
            Ok(done) => Result::<bool, String>::Ok(!done),
            Err(e) => Result::<bool, String>::Err(e),
        },
{
    match unelevated {
        Ok(done) => Ok(!done),
        Err(e) => Err(e),
    }
}

/// A number is written in decimal, a negative one with a minus before it.
pub proof fn law_numbers_are_signed(n: nat)
    ensures
        int_text(n as int) == dec_text(n),
        n > 0 ==> int_text(-(n as int)) == "-"@ + dec_text(n),
{
}

/// A rule is for outgoing connections unless it is for incoming ones, and blocks
/// unless it allows.
pub proof fn law_rules_block_outgoing_unless_told(word: Seq<char>)
    ensures
        (direction_named(word) is Inbound) == (word == "inbound"@),
        (action_named(word) is Allow) == (word == "allow"@),
        bool_text(true) == "true"@,
        bool_text(false) == "false"@,
{
}

} // verus!
