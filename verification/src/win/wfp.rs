//! Rules as filters, and the filter that asks first.

use crate::error::EngineError;
use crate::model::Direction;
use crate::rule::RuleAction;
use crate::text::owned;
use crate::win::filter::{
    applies, code_text, decides, law_the_heaviest_decide, made_for, meets, os_error, push_code,
    Attempt, Condition, Filter, FilterView, Layer,
};
use vstd::prelude::*;

verus! {

/// The weight of a rule of the user's.
pub const WEIGHT_APP_RULE: u64 = 0x2000;

/// The weight of a permit for an application that the user accepted before.
pub const WEIGHT_SEEDED_TRUST: u64 = 0x1000;

/// The weight of the filter that asks first.
pub const WEIGHT_ASK_FALLBACK: u64 = 0x0100;

pub const ERROR_FILE_NOT_FOUND: u32 = 2;

pub const ERROR_PATH_NOT_FOUND: u32 = 3;

/// How many filters are listed at once.
pub const PAGE: u32 = 64;

/// The layers of a direction.
pub open spec fn layers_of(direction: Direction) -> Seq<Layer> {
    match direction {
        Direction::Outbound => seq![Layer::ConnectV4, Layer::ConnectV6],
        Direction::Inbound => seq![Layer::AcceptV4, Layer::AcceptV6],
    }
}

/// The layers of a direction.
pub fn layers(direction: Direction) -> (r: Vec<Layer>)
    ensures
        r@ == layers_of(direction),
{
    let mut r: Vec<Layer> = Vec::new();
    match direction {
        Direction::Outbound => {
            r.push(Layer::ConnectV4);
            r.push(Layer::ConnectV6);
        },
        Direction::Inbound => {
            r.push(Layer::AcceptV4);
            r.push(Layer::AcceptV6);
        },
    }
    assert(r@ =~= layers_of(direction));
    r
}

/// What a rule's filter asks of a connection: a block leaves what stays on this
/// host alone.
pub open spec fn rule_conditions(action: RuleAction) -> Seq<Condition> {
    match action {
        RuleAction::Block => seq![Condition::App, Condition::NotLoopback],
        RuleAction::Allow => seq![Condition::App],
    }
}

/// Whether filters are those of a rule.
pub open spec fn is_rule(fs: Seq<Filter>, direction: Direction, action: RuleAction, weight: u64) -> bool {
    &&& fs.len() == layers_of(direction).len()
    &&& forall|i: int|
        0 <= i < fs.len() ==> {
            &&& (#[trigger] fs[i]).layer == layers_of(direction)[i]
            &&& fs[i].conditions@ == rule_conditions(action)
            &&& fs[i].action == action
            &&& fs[i].weight == weight
            &&& fs[i].persistent
        }
}

/// The filters of a rule, for one application.
pub fn rule_filters(direction: Direction, action: RuleAction, weight: u64) -> (fs: Vec<Filter>)
    ensures
        is_rule(fs@, direction, action, weight),
{
    let ls = layers(direction);
    let mut fs: Vec<Filter> = Vec::new();
    let mut i: usize = 0;
    while i < ls.len()
        invariant
            i <= ls@.len(),
            ls@ == layers_of(direction),
            fs@.len() == i,
            forall|j: int|
                0 <= j < i ==> {
                    &&& (#[trigger] fs@[j]).layer == ls@[j]
                    &&& fs@[j].conditions@ == rule_conditions(action)
                    &&& fs@[j].action == action
                    &&& fs@[j].weight == weight
                    &&& fs@[j].persistent
                },
        decreases ls@.len() - i,
    {
        let mut conditions: Vec<Condition> = Vec::new();
        conditions.push(Condition::App);
        if action == RuleAction::Block {
            conditions.push(Condition::NotLoopback);
        }
        assert(conditions@ =~= rule_conditions(action));
        fs.push(Filter { layer: ls[i], conditions, action, weight, persistent: true });
        i += 1;
    }
    fs
}

/// Where the filters that ask first stand, and the direction of each.
pub open spec fn ask_layers() -> Seq<(Layer, Direction)> {
    seq![
        (Layer::ConnectV4, Direction::Outbound),
        (Layer::ConnectV6, Direction::Outbound),
        (Layer::AcceptV4, Direction::Inbound),
        (Layer::AcceptV6, Direction::Inbound),
    ]
}

/// Whether filters are those that ask first: they block every application's
/// connections that leave this host.
pub open spec fn is_ask(fs: Seq<Filter>) -> bool {
    &&& fs.len() == ask_layers().len()
    &&& forall|i: int|
        0 <= i < fs.len() ==> {
            &&& (#[trigger] fs[i]).layer == ask_layers()[i].0
            &&& fs[i].conditions@ == seq![Condition::NotLoopback]
            &&& fs[i].action == RuleAction::Block
            &&& fs[i].weight == WEIGHT_ASK_FALLBACK
            &&& !fs[i].persistent
        }
}

fn ask_filter(layer: Layer) -> (f: Filter)
    ensures
        f.layer == layer,
        f.conditions@ == seq![Condition::NotLoopback],
        f.action == RuleAction::Block,
        f.weight == WEIGHT_ASK_FALLBACK,
        !f.persistent,
{
    let mut conditions: Vec<Condition> = Vec::new();
    conditions.push(Condition::NotLoopback);
    assert(conditions@ =~= seq![Condition::NotLoopback]);
    Filter {
        layer,
        conditions,
        action: RuleAction::Block,
        weight: WEIGHT_ASK_FALLBACK,
        persistent: false,
    }
}

/// The filters that ask first.
pub fn ask_filters() -> (fs: Vec<Filter>)
    ensures
        is_ask(fs@),
{
    let mut fs: Vec<Filter> = Vec::new();
    fs.push(ask_filter(Layer::ConnectV4));
    fs.push(ask_filter(Layer::ConnectV6));
    fs.push(ask_filter(Layer::AcceptV4));
    fs.push(ask_filter(Layer::AcceptV6));
    fs
}

/// What failing to name an application to the platform means: an application that
/// is not there can be left for later.
pub fn app_id_error(path: &str, code: u32) -> (e: EngineError)
    ensures
        ({
            let why = "app id for "@ + path@ + ": "@ + code_text(code as nat);
            if code == ERROR_FILE_NOT_FOUND || code == ERROR_PATH_NOT_FOUND {
                e matches EngineError::NotFound(m) && m@ == why
            } else {
                e matches EngineError::Os(m) && m@ == why
            }
        }),
{
    let mut m = owned("app id for ");
    m.push_str(path);
    m.push_str(": ");
    push_code(&mut m, code);
    if code == ERROR_FILE_NOT_FOUND || code == ERROR_PATH_NOT_FOUND {
        EngineError::NotFound(m)
    } else {
        EngineError::Os(m)
    }
}

/// The error of a rule's filter that could not be put in place.
pub fn filter_error(code: u32) -> (e: EngineError)
    ensures
        e matches EngineError::Os(m) && m@ == "FwpmFilterAdd0 failed: "@ + code_text(code as nat),
{
    os_error("FwpmFilterAdd0 failed: ", code)
}

/// What comes of one page of the list of filters: whether it holds any to take
/// away, and whether to ask for another.
pub fn clear_page(listed: bool, returned: u32) -> (r: (bool, bool))
    ensures
        r.0 == (listed && returned > 0),
        r.1 == (listed && returned >= PAGE),
{
    (listed && returned > 0, listed && returned >= PAGE)
}

/// What the engine keeps of the platform's firewall.
#[derive(Debug)]
pub struct Wfp {
    /// The filters that ask first, each with its direction; none while they are
    /// off.
    pub ask_filters: Vec<(u64, Direction)>,
    /// Whether the platform reports what they drop.
    pub subscribed: bool,
    /// The permits for applications that the user accepted before.
    pub trusted_filters: Vec<u64>,
}

/// What is done to switch asking first on or off.
#[derive(Debug)]
pub enum AskStep {
    Nothing,
    /// The reports end, and these filters are taken away.
    Remove(Vec<u64>),
    /// These filters are put in place.
    Install(Vec<Filter>),
}

/// What is done once the filters that ask first stand.
#[derive(Debug, Clone, Copy, PartialEq, Eq, Structural)]
pub enum Report {
    /// The reports are told of the filters.
    Tell,
    /// Reports are asked for.
    Subscribe,
}

/// The numbers of filters, without their directions.
pub open spec fn numbers(v: Seq<(u64, Direction)>) -> Seq<u64> {
    v.map_values(|p: (u64, Direction)| p.0)
}

/// The filters that ask first, each with its direction.
pub open spec fn directed(ids: Seq<u64>) -> Seq<(u64, Direction)> {
    Seq::new(ids.len(), |i: int| (ids[i], ask_layers()[i].1))
}

impl Wfp {
    /// No filter stands.
    pub fn open() -> (w: Wfp)
        ensures
            w.ask_filters@.len() == 0,
            !w.subscribed,
            w.trusted_filters@.len() == 0,
    {
        Wfp { ask_filters: Vec::new(), subscribed: false, trusted_filters: Vec::new() }
    }

    /// Forgets the filters that ask first, once every filter was taken away.
    pub fn reset(&mut self)
        ensures
            final(self).ask_filters@.len() == 0,
            final(self).subscribed == old(self).subscribed,
            final(self).trusted_filters == old(self).trusted_filters,
    {
        self.ask_filters.clear();
    }

    /// Whether the engine asks first.
    pub fn ask_mode_active(&self) -> (r: bool)
        ensures
            r == (self.ask_filters@.len() > 0),
    {
        self.ask_filters.len() > 0
    }

    /// Switches asking first on or off.
    pub fn set_ask_mode(&mut self, enabled: bool) -> (s: AskStep)
        ensures
            final(self).trusted_filters == old(self).trusted_filters,
            if enabled == (old(self).ask_filters@.len() > 0) {
                s == AskStep::Nothing && final(self).ask_filters@ == old(self).ask_filters@
                    && final(self).subscribed == old(self).subscribed
            } else if !enabled {
                s matches AskStep::Remove(ids) && ids@ == numbers(old(self).ask_filters@)
                    && final(self).ask_filters@.len() == 0 && !final(self).subscribed
            } else {
                s matches AskStep::Install(fs) && is_ask(fs@) && final(self).ask_filters@
                    == old(self).ask_filters@ && final(self).subscribed == old(self).subscribed
            },
    {
        if enabled == self.ask_mode_active() {
            return AskStep::Nothing;
        }
        if enabled {
            return AskStep::Install(ask_filters());
        }
        self.subscribed = false;
        let mut ids: Vec<u64> = Vec::new();
        let mut i: usize = 0;
        while i < self.ask_filters.len()
            invariant
                i <= self.ask_filters@.len(),
                self.ask_filters@ == old(self).ask_filters@,
                self.trusted_filters == old(self).trusted_filters,
                !self.subscribed,
                ids@ == numbers(self.ask_filters@.take(i as int)),
            decreases self.ask_filters@.len() - i,
        {
            ids.push(self.ask_filters[i].0);
            i += 1;
            assert(ids@ =~= numbers(self.ask_filters@.take(i as int)));
        }
        assert(self.ask_filters@.take(i as int) =~= self.ask_filters@);
        self.ask_filters.clear();
        AskStep::Remove(ids)
    }

    /// The filters that ask first stand: whoever reports what they drop has to
    /// know of them before they count.
    pub fn ask_installed(&self, ids: &Vec<u64>) -> (r: (Vec<(u64, Direction)>, Report))
        requires
            ids@.len() == 4,
        ensures
            r.0@ == directed(ids@),
            r.1 == (if self.subscribed {
                Report::Tell
            } else {
                Report::Subscribe
            }),
    {
        let mut out: Vec<(u64, Direction)> = Vec::new();
        out.push((ids[0], Direction::Outbound));
        out.push((ids[1], Direction::Outbound));
        out.push((ids[2], Direction::Inbound));
        out.push((ids[3], Direction::Inbound));
        assert(out@ =~= directed(ids@));
        (
            out,
            if self.subscribed {
                Report::Tell
            } else {
                Report::Subscribe
            },
        )
    }

    /// Takes what came of telling the reports: the engine asks first from now on,
    /// or the filters are to be taken away again.
    pub fn ask_reported(&mut self, filters: Vec<(u64, Direction)>, reported: Result<(), String>) -> (r:
        Result<(), EngineError>)
        ensures
            final(self).trusted_filters == old(self).trusted_filters,
            r is Ok == reported is Ok,
            r is Ok ==> final(self).ask_filters == filters && final(self).subscribed,
            r is Err ==> *final(self) == *old(self) && r->Err_0 == EngineError::Os(
                reported->Err_0,
            ),
    {
        match reported {
            Ok(_) => {
                self.ask_filters = filters;
                self.subscribed = true;
                Ok(())
            },
            Err(e) => Err(EngineError::Os(e)),
        }
    }

    /// Takes what came of a permit for an application that the user accepted
    /// before. One that could not be made is passed over.
    pub fn trusted(&mut self, permit: Result<Vec<u64>, EngineError>) -> (seeded: bool)
        ensures
            final(self).ask_filters == old(self).ask_filters,
            final(self).subscribed == old(self).subscribed,
            seeded == permit is Ok,
            final(self).trusted_filters@ == (match permit {
                Ok(ids) => old(self).trusted_filters@ + ids@,
                Err(_) => old(self).trusted_filters@,
            }),
    {
        match permit {
            Ok(ids) => {
                let mut i: usize = 0;
                while i < ids.len()
                    invariant
                        i <= ids@.len(),
                        self.ask_filters == old(self).ask_filters,
                        self.subscribed == old(self).subscribed,
                        self.trusted_filters@ == old(self).trusted_filters@ + ids@.take(i as int),
                    decreases ids@.len() - i,
                {
                    self.trusted_filters.push(ids[i]);
                    i += 1;
                    assert(self.trusted_filters@ =~= old(self).trusted_filters@ + ids@.take(
                        i as int,
                    ));
                }
                assert(ids@.take(i as int) =~= ids@);
                true
            },
            Err(_) => false,
        }
    }
}

/// The error of asking first that could not be put in place.
pub fn ask_error(code: u32) -> (e: EngineError)
    ensures
        e matches EngineError::Os(m) && m@ == "could not install ask mode: "@ + code_text(
            code as nat,
        ),
{
    os_error("could not install ask mode: ", code)
}

/// The permits to make for applications that the user accepted before, in order:
/// for each, both directions.
pub open spec fn permits_for(paths: Seq<String>) -> Seq<(String, Direction)> {
    Seq::new(
        2 * paths.len(),
        |i: int|
            (
                paths[i / 2],
                if i % 2 == 0 {
                    Direction::Outbound
                } else {
                    Direction::Inbound
                },
            ),
    )
}

/// The permits to make for applications that the user accepted before.
pub fn trust_apps(paths: &Vec<String>) -> (r: Vec<(String, Direction)>)
    ensures
        r@ == permits_for(paths@),
{
    let mut r: Vec<(String, Direction)> = Vec::new();
    let mut i: usize = 0;
    while i < paths.len()
        invariant
            i <= paths@.len(),
            r@ == permits_for(paths@).take(2 * i as int),
        decreases paths@.len() - i,
    {
        r.push((paths[i].clone(), Direction::Outbound));
        r.push((paths[i].clone(), Direction::Inbound));
        i += 1;
        assert(r@ =~= permits_for(paths@).take(2 * i as int));
    }
    assert(permits_for(paths@).take(2 * paths@.len() as int) =~= permits_for(paths@));
    r
}

/// Whether filters are the engine's: rules of the user's, permits for what the
/// user accepted before, and the filters that ask first.
pub open spec fn engines(fs: Seq<FilterView>) -> bool {
    forall|i: int|
        0 <= i < fs.len() ==> {
            ||| is_for_rule(#[trigger] fs[i])
            ||| is_for_trust(fs[i])
            ||| is_for_asking(fs[i])
        }
}

/// Whether a filter is a rule's.
pub open spec fn is_for_rule(f: FilterView) -> bool {
    f.weight == WEIGHT_APP_RULE && f.conditions == rule_conditions(f.action)
}

/// Whether a filter permits what the user accepted before.
pub open spec fn is_for_trust(f: FilterView) -> bool {
    &&& f.weight == WEIGHT_SEEDED_TRUST
    &&& f.action == RuleAction::Allow
    &&& f.conditions == rule_conditions(RuleAction::Allow)
}

/// Whether a filter asks first.
pub open spec fn is_for_asking(f: FilterView) -> bool {
    &&& f.weight == WEIGHT_ASK_FALLBACK
    &&& f.action == RuleAction::Block
    &&& f.conditions == seq![Condition::NotLoopback]
}

/// A rule of the user's decides over a permit that was made for the application
/// before, and over asking first.
pub proof fn law_a_rule_decides(fs: Seq<FilterView>, a: Attempt, k: int)
    requires
        engines(fs),
        0 <= k < fs.len(),
        is_for_rule(fs[k]),
        applies(fs[k], a),
        forall|i: int|
            0 <= i < fs.len() && is_for_rule(#[trigger] fs[i]) && applies(fs[i], a)
                ==> fs[i].action == fs[k].action,
    ensures
        decides(fs, a, fs[k].action),
{
    assert forall|i: int| 0 <= i < fs.len() && applies(#[trigger] fs[i], a) implies fs[i].weight
        < WEIGHT_APP_RULE || (fs[i].weight == WEIGHT_APP_RULE && fs[i].action == fs[k].action) by {
        assert(is_for_rule(fs[i]) || is_for_trust(fs[i]) || is_for_asking(fs[i]));
    }
    law_the_heaviest_decide(fs, a, WEIGHT_APP_RULE as nat, fs[k].action);
}

/// An application that the user accepted before keeps its connections while the
/// engine asks first, unless a rule says otherwise.
pub proof fn law_accepted_apps_are_not_asked_for(fs: Seq<FilterView>, a: Attempt, k: int)
    requires
        engines(fs),
        0 <= k < fs.len(),
        is_for_trust(fs[k]),
        applies(fs[k], a),
        forall|i: int| 0 <= i < fs.len() && is_for_rule(#[trigger] fs[i]) ==> !applies(fs[i], a),
    ensures
        decides(fs, a, RuleAction::Allow),
{
    assert forall|i: int| 0 <= i < fs.len() && applies(#[trigger] fs[i], a) implies fs[i].weight
        < WEIGHT_SEEDED_TRUST || (fs[i].weight == WEIGHT_SEEDED_TRUST && fs[i].action
        == RuleAction::Allow) by {
        assert(is_for_rule(fs[i]) || is_for_trust(fs[i]) || is_for_asking(fs[i]));
    }
    law_the_heaviest_decide(fs, a, WEIGHT_SEEDED_TRUST as nat, RuleAction::Allow);
}

/// While the engine asks first, a connection that leaves this host is blocked
/// where nothing was decided of its application.
pub proof fn law_undecided_connections_are_blocked(fs: Seq<FilterView>, a: Attempt, k: int)
    requires
        engines(fs),
        0 <= k < fs.len(),
        is_for_asking(fs[k]),
        fs[k].layer == a.layer,
        !a.loopback,
        forall|i: int|
            0 <= i < fs.len() && (is_for_rule(#[trigger] fs[i]) || is_for_trust(fs[i]))
                ==> fs[i].app != a.app,
    ensures
        decides(fs, a, RuleAction::Block),
{
    assert(applies(fs[k], a)) by {
        assert forall|j: int| 0 <= j < fs[k].conditions.len() implies meets(
            #[trigger] fs[k].conditions[j],
            fs[k].app,
            a,
        ) by {
            assert(fs[k].conditions[j] == Condition::NotLoopback);
        }
    }
    assert forall|i: int| 0 <= i < fs.len() && applies(#[trigger] fs[i], a) implies fs[i].weight
        < WEIGHT_ASK_FALLBACK || (fs[i].weight == WEIGHT_ASK_FALLBACK && fs[i].action
        == RuleAction::Block) by {
        assert(is_for_rule(fs[i]) || is_for_trust(fs[i]) || is_for_asking(fs[i]));
        if is_for_rule(fs[i]) || is_for_trust(fs[i]) {
            assert(fs[i].conditions[0] == Condition::App);
            assert(meets(fs[i].conditions[0], fs[i].app, a));
        }
    }
    law_the_heaviest_decide(fs, a, WEIGHT_ASK_FALLBACK as nat, RuleAction::Block);
}

/// What stays on this host is never blocked.
pub proof fn law_loopback_is_left_alone(fs: Seq<FilterView>, a: Attempt, i: int)
    requires
        engines(fs),
        a.loopback,
        0 <= i < fs.len(),
        applies(fs[i], a),
    ensures
        fs[i].action == RuleAction::Allow,
{
    if fs[i].action == RuleAction::Block {
        let last = fs[i].conditions.len() - 1;
        assert(is_for_rule(fs[i]) || is_for_asking(fs[i]));
        assert(fs[i].conditions[last] == Condition::NotLoopback);
        assert(meets(fs[i].conditions[last], fs[i].app, a));
    }
}

/// The filters of a rule catch every connection of the program that goes the rule's
/// way, over IPv4 and over IPv6, and none that goes the other way. A rule that blocks
/// leaves the loopback alone. Rules outlast the engine.
pub proof fn law_rules_catch_their_direction(
    fs: Seq<Filter>,
    direction: Direction,
    action: RuleAction,
    weight: u64,
    a: Attempt,
)
    requires
        is_rule(fs, direction, action, weight),
    ensures
        ({
            let outgoing = a.layer == Layer::ConnectV4 || a.layer == Layer::ConnectV6;
            let caught = exists|i: int|
                0 <= i < fs.len() && applies(made_for(#[trigger] fs[i], a.app), a);
            caught == ((direction is Outbound == outgoing) && (action is Allow || !a.loopback))
        }),
        forall|i: int|
            0 <= i < fs.len() ==> (#[trigger] fs[i]).action == action && fs[i].weight == weight
                && fs[i].persistent,
        forall|i: int, app: Seq<char>|
            0 <= i < fs.len() && app != a.app ==> !applies(
                #[trigger] made_for(fs[i], app),
                a,
            ),
{
    let outgoing = a.layer == Layer::ConnectV4 || a.layer == Layer::ConnectV6;
    assert(fs.len() == 2);
    assert(fs[0].layer == layers_of(direction)[0] && fs[1].layer == layers_of(direction)[1]);
    if (direction is Outbound == outgoing) && (action is Allow || !a.loopback) {
        let k: int = if a.layer == Layer::ConnectV4 || a.layer == Layer::AcceptV4 {
            0
        } else {
            1
        };
        let v = made_for(fs[k], a.app);
        assert forall|i: int| 0 <= i < v.conditions.len() implies meets(
            #[trigger] v.conditions[i],
            v.app,
            a,
        ) by {}
        assert(applies(v, a));
    }
    assert forall|i: int| 0 <= i < fs.len() && applies(made_for(#[trigger] fs[i], a.app), a) implies (
    direction is Outbound == outgoing) && (action is Allow || !a.loopback) by {
        let v = made_for(fs[i], a.app);
        if action is Block {
            assert(meets(v.conditions[1], v.app, a));
        }
    }
    assert forall|i: int, app: Seq<char>| 0 <= i < fs.len() && app != a.app implies !applies(
        #[trigger] made_for(fs[i], app),
        a,
    ) by {
        let v = made_for(fs[i], app);
        assert(fs[i].conditions@ == rule_conditions(action));
        assert(v.conditions[0] == Condition::App);
        if applies(v, a) {
            assert(meets(v.conditions[0], v.app, a));
        }
    }
}

/// Asking first drops every connection that is not on the loopback, whichever way it
/// goes, until something heavier decides; its filters go with the engine.
pub proof fn law_asking_catches_every_connection(fs: Seq<Filter>, a: Attempt)
    requires
        is_ask(fs),
    ensures
        (exists|i: int| 0 <= i < fs.len() && applies(made_for(#[trigger] fs[i], a.app), a))
            == !a.loopback,
        forall|i: int|
            0 <= i < fs.len() ==> (#[trigger] fs[i]).action is Block && !fs[i].persistent
                && fs[i].weight < WEIGHT_SEEDED_TRUST && fs[i].weight < WEIGHT_APP_RULE,
{
    assert(fs.len() == 4);
    let l = ask_layers();
    assert(fs[0].layer == l[0].0 && fs[1].layer == l[1].0);
    assert(fs[2].layer == l[2].0 && fs[3].layer == l[3].0);
    if !a.loopback {
        let k: int = match a.layer {
            Layer::ConnectV4 => 0,
            Layer::ConnectV6 => 1,
            Layer::AcceptV4 => 2,
            Layer::AcceptV6 => 3,
        };
        let v = made_for(fs[k], a.app);
        assert forall|i: int| 0 <= i < v.conditions.len() implies meets(
            #[trigger] v.conditions[i],
            v.app,
            a,
        ) by {}
        assert(applies(v, a));
    }
    assert forall|i: int| 0 <= i < fs.len() && applies(made_for(#[trigger] fs[i], a.app), a)
        implies !a.loopback by {
        let v = made_for(fs[i], a.app);
        assert(meets(v.conditions[0], v.app, a));
    }
}

/// Every trusted program gets a permit each way.
pub proof fn law_trust_goes_both_ways(paths: Seq<String>, i: int)
    requires
        0 <= i < paths.len(),
    ensures
        permits_for(paths).len() == 2 * paths.len(),
        permits_for(paths)[2 * i] == (paths[i], Direction::Outbound),
        permits_for(paths)[2 * i + 1] == (paths[i], Direction::Inbound),
{
    assert((2 * i) / 2 == i && (2 * i + 1) / 2 == i);
}

/// The filters that ask are reported with the way that each catches.
pub proof fn law_asking_filters_tell_their_direction(ids: Seq<u64>)
    requires
        ids.len() == 4,
    ensures
        directed(ids) == seq![
            (ids[0], Direction::Outbound),
            (ids[1], Direction::Outbound),
            (ids[2], Direction::Inbound),
            (ids[3], Direction::Inbound),
        ],
        numbers(directed(ids)) == ids,
{
    assert(numbers(directed(ids)) =~= ids);
}

} // verus!
