//! What the window makes of the engine's replies, and how it words what it asks.

use crate::alert::Alert;
use crate::enrich::{Annotation, EnrichTarget};
use crate::ip::IpAddr;
use crate::ip_text::ip_of_text;
use crate::ipc::message::{KnownApp, PluginInfo, Reply};
use crate::model::{AdapterKind, ByteCounts};
use crate::panel::Panel;
use crate::rule::{RuleAction, RuleProposal, StoredRule};
use crate::text::{owned, same, texts};
use crate::usage::{Granularity, UsageBucket, UsageQuery};
use vstd::prelude::*;

verus! {

/// The engine's words for a change of rules that needs more rights.
pub const NEEDS_ELEVATION: &'static str = "rule changes require elevation";

/// What came of waiting for a reply.
#[derive(Debug)]
pub enum Waited<F> {
    Replied(Reply<F>),
    /// The session ended first.
    Dropped,
    TimedOut,
}

/// The reply, or why there is none.
pub fn dispatched<F>(w: Waited<F>) -> (r: Result<Reply<F>, String>)
    ensures
        match w {
            Waited::Replied(reply) => r == Result::<Reply<F>, String>::Ok(reply),
            Waited::Dropped => r is Err && r->Err_0@ == "engine offline"@,
            Waited::TimedOut => r is Err && r->Err_0@ == "engine timed out"@,
        },
{
    match w {
        Waited::Replied(reply) => Ok(reply),
        Waited::Dropped => Err(owned("engine offline")),
        Waited::TimedOut => Err(owned("engine timed out")),
    }
}

/// Whether `r` is what a reply that is not the one that was asked for comes to:
/// the engine's error, or a complaint.
pub open spec fn refused<F, T>(reply: Reply<F>, r: Result<T, String>) -> bool {
    match reply {
        Reply::Error(e) => r == Result::<T, String>::Err(e),
        _ => r is Err && r->Err_0@ == "unexpected reply"@,
    }
}

/// Whether `r` is what a reply to something to be done comes to.
pub open spec fn done<F>(reply: Reply<F>, r: Result<(), String>) -> bool {
    match reply {
        Reply::Done => r is Ok,
        _ => refused(reply, r),
    }
}

fn done_of<F>(reply: Reply<F>) -> (r: Result<(), String>)
    ensures
        done(reply, r),
{
    match reply {
        Reply::Done => Ok(()),
        Reply::Error(e) => Err(e),
        _ => Err(owned("unexpected reply")),
    }
}

/// The rules.
pub fn list_rules<F>(reply: Reply<F>) -> (r: Result<Vec<StoredRule>, String>)
    ensures
        match reply {
            Reply::Rules(x) => r == Result::<Vec<StoredRule>, String>::Ok(x),
            _ => refused(reply, r),
        },
{
    match reply {
        Reply::Rules(x) => Ok(x),
        Reply::Error(e) => Err(e),
        _ => Err(owned("unexpected reply")),
    }
}

/// The applications that are known.
pub fn list_apps<F>(reply: Reply<F>) -> (r: Result<Vec<KnownApp>, String>)
    ensures
        match reply {
            Reply::Apps(x) => r == Result::<Vec<KnownApp>, String>::Ok(x),
            _ => refused(reply, r),
        },
{
    match reply {
        Reply::Apps(x) => Ok(x),
        Reply::Error(e) => Err(e),
        _ => Err(owned("unexpected reply")),
    }
}

/// How many applications were forgotten.
pub fn forget_apps<F>(reply: Reply<F>) -> (r: Result<usize, String>)
    ensures
        match reply {
            Reply::Forgotten(x) => r == Result::<usize, String>::Ok(x),
            _ => refused(reply, r),
        },
{
    match reply {
        Reply::Forgotten(x) => Ok(x),
        Reply::Error(e) => Err(e),
        _ => Err(owned("unexpected reply")),
    }
}

/// Whether this account may change rules without more rights.
pub fn rule_grant<F>(reply: Reply<F>) -> (r: Result<bool, String>)
    ensures
        match reply {
            Reply::RuleGrant(x) => r == Result::<bool, String>::Ok(x),
            _ => refused(reply, r),
        },
{
    match reply {
        Reply::RuleGrant(x) => Ok(x),
        Reply::Error(e) => Err(e),
        _ => Err(owned("unexpected reply")),
    }
}

/// The alerts.
pub fn list_alerts<F>(reply: Reply<F>) -> (r: Result<Vec<Alert>, String>)
    ensures
        match reply {
            Reply::Alerts(x) => r == Result::<Vec<Alert>, String>::Ok(x),
            _ => refused(reply, r),
        },
{
    match reply {
        Reply::Alerts(x) => Ok(x),
        Reply::Error(e) => Err(e),
        _ => Err(owned("unexpected reply")),
    }
}

/// The alerts that ask for a decision.
pub fn list_prompt_alerts<F>(reply: Reply<F>) -> (r: Result<Vec<Alert>, String>)
    ensures
        match reply {
            Reply::Alerts(x) => r == Result::<Vec<Alert>, String>::Ok(x),
            _ => refused(reply, r),
        },
{
    match reply {
        Reply::Alerts(x) => Ok(x),
        Reply::Error(e) => Err(e),
        _ => Err(owned("unexpected reply")),
    }
}

/// The traffic of applications.
pub fn get_usage<F>(reply: Reply<F>) -> (r: Result<Vec<UsageBucket>, String>)
    ensures
        match reply {
            Reply::Usage(x) => r == Result::<Vec<UsageBucket>, String>::Ok(x),
            _ => refused(reply, r),
        },
{
    match reply {
        Reply::Usage(x) => Ok(x),
        Reply::Error(e) => Err(e),
        _ => Err(owned("unexpected reply")),
    }
}

/// The plugins.
pub fn list_plugins<F>(reply: Reply<F>) -> (r: Result<Vec<PluginInfo>, String>)
    ensures
        match reply {
            Reply::Plugins(x) => r == Result::<Vec<PluginInfo>, String>::Ok(x),
            _ => refused(reply, r),
        },
{
    match reply {
        Reply::Plugins(x) => Ok(x),
        Reply::Error(e) => Err(e),
        _ => Err(owned("unexpected reply")),
    }
}

/// The proposals.
pub fn list_proposals<F>(reply: Reply<F>) -> (r: Result<Vec<RuleProposal>, String>)
    ensures
        match reply {
            Reply::Proposals(x) => r == Result::<Vec<RuleProposal>, String>::Ok(x),
            _ => refused(reply, r),
        },
{
    match reply {
        Reply::Proposals(x) => Ok(x),
        Reply::Error(e) => Err(e),
        _ => Err(owned("unexpected reply")),
    }
}

/// A plugin's panel.
pub fn get_plugin_panel<F>(reply: Reply<F>) -> (r: Result<Panel<F>, String>)
    ensures
        match reply {
            Reply::Panel(x) => r == Result::<Panel<F>, String>::Ok(x),
            _ => refused(reply, r),
        },
{
    match reply {
        Reply::Panel(x) => Ok(x),
        Reply::Error(e) => Err(e),
        _ => Err(owned("unexpected reply")),
    }
}

/// Forgets an application.
pub fn forget_app<F>(reply: Reply<F>) -> (r: Result<(), String>)
    ensures
        done(reply, r),
{
    done_of(reply)
}

/// Asks for no more decisions.
pub fn suppress_alert_prompts<F>(reply: Reply<F>) -> (r: Result<(), String>)
    ensures
        done(reply, r),
{
    done_of(reply)
}

/// Acknowledges an alert.
pub fn ack_alert<F>(reply: Reply<F>) -> (r: Result<(), String>)
    ensures
        done(reply, r),
{
    done_of(reply)
}

/// Decides an alert.
pub fn decide_alert<F>(reply: Reply<F>) -> (r: Result<(), String>)
    ensures
        done(reply, r),
{
    done_of(reply)
}

/// Closes a connection.
pub fn kill_connection<F>(reply: Reply<F>) -> (r: Result<(), String>)
    ensures
        done(reply, r),
{
    done_of(reply)
}

/// Agrees to a plugin.
pub fn grant_plugin<F>(reply: Reply<F>) -> (r: Result<(), String>)
    ensures
        done(reply, r),
{
    done_of(reply)
}

/// Switches a plugin on or off.
pub fn set_plugin_enabled<F>(reply: Reply<F>) -> (r: Result<(), String>)
    ensures
        done(reply, r),
{
    done_of(reply)
}

/// Rejects a proposal.
pub fn reject_proposal<F>(reply: Reply<F>) -> (r: Result<(), String>)
    ensures
        done(reply, r),
{
    done_of(reply)
}

/// Whether a change of rules was made with the rights that the window has:
/// `false` where the engine asks for more.
pub fn try_unelevated<F>(reply: Result<Reply<F>, String>) -> (r: Result<bool, String>)
    ensures
        match reply {
            Err(e) => r == Result::<bool, String>::Err(e),
            Ok(Reply::Done) => r == Result::<bool, String>::Ok(true),
            Ok(Reply::RuleAdded(_)) => r == Result::<bool, String>::Ok(true),
            Ok(Reply::Error(e)) => if e@ == "rule changes require elevation"@ {
                r == Result::<bool, String>::Ok(false)
            } else {
                r == Result::<bool, String>::Err(e)
            },
            Ok(_) => r is Err && r->Err_0@ == "unexpected reply"@,
        },
{
    match reply {
        Ok(Reply::Done) => Ok(true),
        Ok(Reply::RuleAdded(_)) => Ok(true),
        Ok(Reply::Error(e)) => {
            if same(e.as_str(), NEEDS_ELEVATION) {
                Ok(false)
            } else {
                Err(e)
            }
        },
        Ok(_) => Err(owned("unexpected reply")),
        Err(e) => Err(e),
    }
}

/// What the window's word for a decision means: everything but `allow` blocks.
pub fn decision(action: &str) -> (r: RuleAction)
    ensures
        r == (if action@ == "allow"@ {
            RuleAction::Allow
        } else {
            RuleAction::Block
        }),
{
    if same(action, "allow") {
        RuleAction::Allow
    } else {
        RuleAction::Block
    }
}

/// The query for the traffic of all applications, in minutes where the window
/// names no other width.
pub fn usage_query(from_ms: u64, to_ms: u64, granularity: &str) -> (r: UsageQuery)
    ensures
        r == (UsageQuery {
            app: None,
            from_ms,
            to_ms,
            granularity: if granularity@ == "hour"@ {
                Granularity::Hour
            } else if granularity@ == "day"@ {
                Granularity::Day
            } else {
                Granularity::Minute
            },
        }),
{
    proof {
        reveal_strlit("hour");
        reveal_strlit("day");
        assert("hour"@.len() != "day"@.len());
    }
    let granularity = if same(granularity, "hour") {
        Granularity::Hour
    } else if same(granularity, "day") {
        Granularity::Day
    } else {
        Granularity::Minute
    };
    UsageQuery { app: None, from_ms, to_ms, granularity }
}

/// The traffic of one kind of adapter.
#[derive(Debug, Clone, Copy, PartialEq, Eq, Structural)]
pub struct AdapterUsageRow {
    pub kind: AdapterKind,
    pub bytes: ByteCounts,
}

/// The rows of pairs.
pub open spec fn rows_of(pairs: Seq<(AdapterKind, ByteCounts)>) -> Seq<AdapterUsageRow> {
    pairs.map_values(|p: (AdapterKind, ByteCounts)| AdapterUsageRow { kind: p.0, bytes: p.1 })
}

/// The traffic of each kind of adapter.
pub fn get_adapter_usage<F>(reply: Reply<F>) -> (r: Result<Vec<AdapterUsageRow>, String>)
    ensures
        match reply {
            Reply::AdapterUsage(rows) => r is Ok && r->Ok_0@ == rows_of(rows@),
            _ => refused(reply, r),
        },
{
    match reply {
        Reply::AdapterUsage(rows) => {
            let mut out: Vec<AdapterUsageRow> = Vec::new();
            let mut i: usize = 0;
            while i < rows.len()
                invariant
                    i <= rows@.len(),
                    out@ == rows_of(rows@.take(i as int)),
                decreases rows@.len() - i,
            {
                out.push(AdapterUsageRow { kind: rows[i].0, bytes: rows[i].1 });
                i += 1;
                assert(out@ =~= rows_of(rows@.take(i as int)));
            }
            assert(rows@.take(rows@.len() as int) =~= rows@);
            Ok(out)
        },
        Reply::Error(e) => Err(e),
        _ => Err(owned("unexpected reply")),
    }
}

/// What is known of a target.
#[derive(Debug, PartialEq, Eq)]
pub struct EnrichmentEvent {
    pub target: EnrichTarget,
    pub annotations: Vec<Annotation>,
}

/// The events of pairs.
pub open spec fn events_of(pairs: Seq<(EnrichTarget, Vec<Annotation>)>) -> Seq<EnrichmentEvent> {
    pairs.map_values(
        |p: (EnrichTarget, Vec<Annotation>)| EnrichmentEvent { target: p.0, annotations: p.1 },
    )
}

/// What is known of the targets that were asked for.
pub fn get_enrichment<F>(reply: Reply<F>) -> (r: Result<Vec<EnrichmentEvent>, String>)
    ensures
        match reply {
            Reply::Enrichment(pairs) => r is Ok && r->Ok_0@ == events_of(pairs@),
            _ => refused(reply, r),
        },
{
    match reply {
        Reply::Enrichment(pairs) => {
            let ghost all = pairs@;
            let mut left = pairs;
            let n: usize = left.len();
            let mut back: Vec<EnrichmentEvent> = Vec::new();
            let mut i: usize = 0;
            // the pairs leave from the back, so they arrive in reverse
            while i < n
                invariant
                    i <= n,
                    n == all.len(),
                    left@ == all.take(n - i),
                    back@.len() == i,
                    forall|j: int|
                        0 <= j < i ==> #[trigger] back@[j] == events_of(all)[n - 1 - j],
                decreases n - i,
            {
                let p = left.pop().unwrap();
                assert(p == all[n - 1 - i]);
                back.push(EnrichmentEvent { target: p.0, annotations: p.1 });
                i += 1;
                assert(left@ =~= all.take(n - i));
            }
            let ghost reversed = back@;
            assert(reversed.take(n as int) =~= reversed);
            let mut out: Vec<EnrichmentEvent> = Vec::new();
            let mut k: usize = 0;
            while k < n
                invariant
                    k <= n,
                    n == all.len(),
                    reversed.len() == n,
                    back@ == reversed.take(n - k),
                    forall|j: int|
                        0 <= j < n ==> #[trigger] reversed[j] == events_of(all)[n - 1 - j],
                    out@ == events_of(all).take(k as int),
                decreases n - k,
            {
                let e = back.pop().unwrap();
                assert(e == reversed[n - 1 - k]);
                out.push(e);
                k += 1;
                assert(back@ =~= reversed.take(n - k));
                assert(out@ =~= events_of(all).take(k as int));
            }
            assert(events_of(all).take(n as int) =~= events_of(all));
            Ok(out)
        },
        Reply::Error(e) => Err(e),
        _ => Err(owned("unexpected reply")),
    }
}

/// The addresses among texts.
pub open spec fn targets_of(ips: Seq<Seq<char>>) -> Seq<EnrichTarget>
    decreases ips.len(),
{
    if ips.len() == 0 {
        Seq::empty()
    } else {
        match ip_of_text(ips.last()) {
            Some(a) => targets_of(ips.drop_last()).push(EnrichTarget::Endpoint(a)),
            None => targets_of(ips.drop_last()),
        }
    }
}

/// The addresses among texts; what is no address is left out.
pub fn enrichment_targets(ips: &Vec<String>) -> (r: Vec<EnrichTarget>)
    ensures
        r@ == targets_of(texts(ips@)),
{
    let mut out: Vec<EnrichTarget> = Vec::new();
    let ghost all = texts(ips@);
    let mut i: usize = 0;
    while i < ips.len()
        invariant
            i <= ips@.len(),
            all == texts(ips@),
            out@ == targets_of(all.take(i as int)),
        decreases ips@.len() - i,
    {
        assert(all.take(i + 1).drop_last() =~= all.take(i as int));
        if let Some(a) = IpAddr::parse(ips[i].as_str()) {
            out.push(EnrichTarget::Endpoint(a));
        }
        i += 1;
    }
    assert(all.take(ips@.len() as int) =~= all);
    out
}

/// Every text that reads as an address is asked about, in its order; others are
/// passed over.
pub proof fn law_addresses_are_asked_about(ips: Seq<Seq<char>>, a: IpAddr, other: Seq<char>)
    requires
        ip_of_text(other) is None,
    ensures
        targets_of(ips.push(crate::ip_show::ip_text(a))) == targets_of(ips).push(
            EnrichTarget::Endpoint(a),
        ),
        targets_of(ips.push(other)) == targets_of(ips),
        targets_of(Seq::empty()).len() == 0,
{
    crate::ip_law::law_addresses_read_back(a);
    assert(ips.push(crate::ip_show::ip_text(a)).drop_last() =~= ips);
    assert(ips.push(other).drop_last() =~= ips);
}

/// A reply that says an error is that error, and any other reply that was not
/// expected is an error too; only `Done` means that a command was carried out.
pub proof fn law_only_done_is_success<F>(reply: Reply<F>, r: Result<(), String>, why: String)
    ensures
        refused(reply, r) ==> r is Err,
        refused(Reply::<F>::Error(why), r) ==> r == Result::<(), String>::Err(why),
        done(reply, r) ==> (r is Ok <==> reply is Done),
        done(Reply::<F>::Error(why), r) ==> r == Result::<(), String>::Err(why),
{
}

/// The rows of a reply are shown as they are, in their order.
pub proof fn law_rows_keep_their_order(pairs: Seq<(AdapterKind, ByteCounts)>, i: int)
    requires
        0 <= i < pairs.len(),
    ensures
        rows_of(pairs).len() == pairs.len(),
        rows_of(pairs)[i].kind == pairs[i].0,
        rows_of(pairs)[i].bytes == pairs[i].1,
{
}

/// What is known of several targets is passed on target by target.
pub proof fn law_annotations_keep_their_target(
    pairs: Seq<(EnrichTarget, Vec<Annotation>)>,
    i: int,
)
    requires
        0 <= i < pairs.len(),
    ensures
        events_of(pairs).len() == pairs.len(),
        events_of(pairs)[i].target == pairs[i].0,
        events_of(pairs)[i].annotations == pairs[i].1,
{
}

} // verus!
