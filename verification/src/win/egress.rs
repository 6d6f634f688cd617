//! What plugins may reach: nothing, but for the endpoints that the user agreed to.

use crate::error::EngineError;
use crate::ip::IpAddr;
use crate::rule::RuleAction;
use crate::text::owned;
use crate::win::filter::{
    applies, code_text, decides, law_the_heaviest_decide, made_for, meets, push_code, Attempt,
    Condition, Filter, FilterView, Layer,
};
use vstd::prelude::*;

verus! {

/// The weight of the filters that block everything.
pub const WEIGHT_BLOCK: u64 = 0;

/// The weight of the permits.
pub const WEIGHT_PERMIT: u64 = 15;

/// The port of name servers.
pub const DNS_PORT: u16 = 53;

/// Every layer.
pub open spec fn all_layers() -> Seq<Layer> {
    seq![Layer::ConnectV4, Layer::ConnectV6, Layer::AcceptV4, Layer::AcceptV6]
}

/// The filter that blocks everything at a layer.
pub open spec fn blocked_at(app: Seq<char>, layer: Layer) -> FilterView {
    FilterView {
        app,
        layer,
        conditions: seq![Condition::App],
        action: RuleAction::Block,
        weight: WEIGHT_BLOCK as nat,
    }
}

/// The layer of connections to an address.
pub open spec fn connect_layer(a: IpAddr) -> Layer {
    if a is V4 {
        Layer::ConnectV4
    } else {
        Layer::ConnectV6
    }
}

/// The condition that a connection goes to an address.
pub open spec fn to_address(a: IpAddr) -> Condition {
    match a {
        IpAddr::V4(v) => Condition::RemoteV4(v),
        IpAddr::V6(v) => Condition::RemoteV6(v),
    }
}

/// The permit for an endpoint.
pub open spec fn permit(app: Seq<char>, end: (IpAddr, u16)) -> FilterView {
    FilterView {
        app,
        layer: connect_layer(end.0),
        conditions: seq![Condition::App, to_address(end.0), Condition::RemotePort(end.1)],
        action: RuleAction::Allow,
        weight: WEIGHT_PERMIT as nat,
    }
}

/// The permit for name servers at a layer.
pub open spec fn dns_permit(app: Seq<char>, layer: Layer) -> FilterView {
    FilterView {
        app,
        layer,
        conditions: seq![Condition::App, Condition::RemotePort(DNS_PORT)],
        action: RuleAction::Allow,
        weight: WEIGHT_PERMIT as nat,
    }
}

/// The filters that block everything.
pub open spec fn blocks(app: Seq<char>) -> Seq<FilterView> {
    all_layers().map_values(|l: Layer| blocked_at(app, l))
}

/// The permits for endpoints, and for name servers where the plugin looks names
/// up.
pub open spec fn permits(app: Seq<char>, allowed: Seq<(IpAddr, u16)>, dns: bool) -> Seq<FilterView> {
    allowed.map_values(|e: (IpAddr, u16)| permit(app, e)) + if dns {
        seq![dns_permit(app, Layer::ConnectV4), dns_permit(app, Layer::ConnectV6)]
    } else {
        Seq::empty()
    }
}

/// Filters made for an application, none of which survives the engine.
pub open spec fn fleeting(fs: Seq<Filter>, app: Seq<char>, views: Seq<FilterView>) -> bool {
    &&& fs.len() == views.len()
    &&& forall|i: int|
        0 <= i < fs.len() ==> made_for(#[trigger] fs[i], app) == views[i] && !fs[i].persistent
}

fn block_filter(layer: Layer) -> (f: Filter)
    ensures
        forall|app: Seq<char>| #[trigger] made_for(f, app) == blocked_at(app, layer),
        !f.persistent,
{
    let mut conditions: Vec<Condition> = Vec::new();
    conditions.push(Condition::App);
    assert(conditions@ =~= seq![Condition::App]);
    Filter {
        layer,
        conditions,
        action: RuleAction::Block,
        weight: WEIGHT_BLOCK,
        persistent: false,
    }
}

/// The filters that block everything of a plugin's.
pub fn block_filters() -> (fs: Vec<Filter>)
    ensures
        forall|app: Seq<char>| #![trigger blocks(app)] fleeting(fs@, app, blocks(app)),
{
    let mut fs: Vec<Filter> = Vec::new();
    fs.push(block_filter(Layer::ConnectV4));
    fs.push(block_filter(Layer::ConnectV6));
    fs.push(block_filter(Layer::AcceptV4));
    fs.push(block_filter(Layer::AcceptV6));
    fs
}

fn permit_filter(end: &(IpAddr, u16)) -> (f: Filter)
    ensures
        forall|app: Seq<char>| #[trigger] made_for(f, app) == permit(app, *end),
        !f.persistent,
{
    let (layer, address) = match end.0 {
        IpAddr::V4(v) => (Layer::ConnectV4, Condition::RemoteV4(v)),
        IpAddr::V6(v) => (Layer::ConnectV6, Condition::RemoteV6(v)),
    };
    let mut conditions: Vec<Condition> = Vec::new();
    conditions.push(Condition::App);
    conditions.push(address);
    conditions.push(Condition::RemotePort(end.1));
    assert(conditions@ =~= seq![
        Condition::App,
        to_address(end.0),
        Condition::RemotePort(end.1),
    ]);
    Filter {
        layer,
        conditions,
        action: RuleAction::Allow,
        weight: WEIGHT_PERMIT,
        persistent: false,
    }
}

fn dns_filter(layer: Layer) -> (f: Filter)
    ensures
        forall|app: Seq<char>| #[trigger] made_for(f, app) == dns_permit(app, layer),
        !f.persistent,
{
    let mut conditions: Vec<Condition> = Vec::new();
    conditions.push(Condition::App);
    conditions.push(Condition::RemotePort(DNS_PORT));
    assert(conditions@ =~= seq![Condition::App, Condition::RemotePort(DNS_PORT)]);
    Filter {
        layer,
        conditions,
        action: RuleAction::Allow,
        weight: WEIGHT_PERMIT,
        persistent: false,
    }
}

/// The permits of what the user agreed to.
pub fn permit_filters(allowed: &Vec<(IpAddr, u16)>, allow_dns: bool) -> (fs: Vec<Filter>)
    ensures
        forall|app: Seq<char>|
            #![trigger permits(app, allowed@, allow_dns)]
            fleeting(fs@, app, permits(app, allowed@, allow_dns)),
{
    let mut fs: Vec<Filter> = Vec::new();
    let mut i: usize = 0;
    while i < allowed.len()
        invariant
            i <= allowed@.len(),
            fs@.len() == i,
            forall|j: int, app: Seq<char>|
                0 <= j < i ==> #[trigger] made_for(fs@[j], app) == permit(app, allowed@[j]),
            forall|j: int| 0 <= j < i ==> !(#[trigger] fs@[j]).persistent,
        decreases allowed@.len() - i,
    {
        fs.push(permit_filter(&allowed[i]));
        i += 1;
    }
    if allow_dns {
        fs.push(dns_filter(Layer::ConnectV4));
        fs.push(dns_filter(Layer::ConnectV6));
    }
    fs
}

/// The permits of one plugin that stand.
#[derive(Debug, PartialEq, Eq)]
pub struct AppPin {
    pub permit_ids: Vec<u64>,
}

/// Takes what came of a plugin's permits, once everything of it is blocked: its
/// pin, or the filters that are to be taken away again.
pub fn pin(blocked: Vec<u64>, permitted: Result<Vec<u64>, EngineError>) -> (r: Result<
    AppPin,
    (Vec<u64>, EngineError),
>)
    ensures
        r == match permitted {
            Ok(permit_ids) => Result::<AppPin, (Vec<u64>, EngineError)>::Ok(AppPin { permit_ids }),
            Err(e) => Result::<AppPin, (Vec<u64>, EngineError)>::Err((blocked, e)),
        },
{
    match permitted {
        Ok(permit_ids) => Ok(AppPin { permit_ids }),
        Err(e) => Err((blocked, e)),
    }
}

/// Takes a plugin's new permits, which stand beside the old ones: those are to be
/// taken away now. Where the new ones failed, the old ones stay.
pub fn repin(pin: &mut AppPin, fresh: Result<Vec<u64>, EngineError>) -> (r: Result<
    Vec<u64>,
    EngineError,
>)
    ensures
        match fresh {
            Ok(ids) => r == Result::<Vec<u64>, EngineError>::Ok(old(pin).permit_ids)
                && final(pin).permit_ids == ids,
            Err(e) => r == Result::<Vec<u64>, EngineError>::Err(e) && *final(pin) == *old(pin),
        },
{
    match fresh {
        Ok(ids) => {
            let mut ids = ids;
            std::mem::swap(&mut pin.permit_ids, &mut ids);
            Ok(ids)
        },
        Err(e) => Err(e),
    }
}

/// The error of a plugin that cannot be named to the platform.
pub fn app_id_error(exe: &str, code: u32) -> (e: EngineError)
    ensures
        e matches EngineError::NotFound(m) && m@ == "app id for "@ + exe@ + ": "@ + code_text(
            code as nat,
        ),
{
    let mut m = owned("app id for ");
    m.push_str(exe);
    m.push_str(": ");
    push_code(&mut m, code);
    EngineError::NotFound(m)
}

/// Whether an endpoint is one that a plugin may reach.
pub open spec fn granted(allowed: Seq<(IpAddr, u16)>, dns: bool, a: Attempt) -> bool {
    &&& a.layer == connect_layer(a.remote)
    &&& allowed.contains((a.remote, a.port)) || (dns && a.port == DNS_PORT)
}

/// Whether a connection's layer is one of its address's version.
pub open spec fn consistent(a: Attempt) -> bool {
    (a.layer == Layer::ConnectV4 || a.layer == Layer::AcceptV4) == a.remote is V4
}

/// A plugin's connections are let through where the user agreed to them, and
/// blocked where not, incoming ones always.
pub proof fn law_pins_are_exact(app: Seq<char>, allowed: Seq<(IpAddr, u16)>, dns: bool, a: Attempt)
    requires
        a.app == app,
        consistent(a),
    ensures
        decides(
            blocks(app) + permits(app, allowed, dns),
            a,
            if granted(allowed, dns, a) {
                RuleAction::Allow
            } else {
                RuleAction::Block
            },
        ),
{
    let b = blocks(app);
    let p = permits(app, allowed, dns);
    let fs = b + p;
    let n = allowed.len() as int;
    assert(forall|i: int| 0 <= i < b.len() ==> #[trigger] fs[i] == b[i]);
    assert(forall|i: int| b.len() <= i < fs.len() ==> #[trigger] fs[i] == p[i - b.len()]);
    assert(forall|i: int| 0 <= i < n ==> #[trigger] p[i] == permit(app, allowed[i]));
    let k: int = match a.layer {
        Layer::ConnectV4 => 0,
        Layer::ConnectV6 => 1,
        Layer::AcceptV4 => 2,
        Layer::AcceptV6 => 3,
    };
    assert(b[k] == blocked_at(app, a.layer));
    assert(applies(fs[k], a));
    if granted(allowed, dns, a) {
        let j: int = if allowed.contains((a.remote, a.port)) {
            choose|i: int| 0 <= i < n && allowed[i] == (a.remote, a.port)
        } else if a.remote is V4 {
            n
        } else {
            n + 1
        };
        assert(0 <= j < p.len());
        let f = fs[b.len() + j];
        assert(f == p[j]);
        assert(applies(f, a)) by {
            assert(f.layer == a.layer);
        }
        assert forall|i: int| 0 <= i < fs.len() && applies(#[trigger] fs[i], a) implies fs[i].weight
            < WEIGHT_PERMIT || (fs[i].weight == WEIGHT_PERMIT && fs[i].action
            == RuleAction::Allow) by {
            if i >= b.len() {
                assert(fs[i] == p[i - b.len()]);
            }
        }
        law_the_heaviest_decide(fs, a, WEIGHT_PERMIT as nat, RuleAction::Allow);
    } else {
        assert forall|i: int| 0 <= i < fs.len() && applies(#[trigger] fs[i], a) implies fs[i].weight
            == WEIGHT_BLOCK && fs[i].action == RuleAction::Block by {
            if i >= b.len() {
                let j = i - b.len();
                assert(fs[i] == p[j]);
                if j < n {
                    assert(meets(p[j].conditions[1], app, a));
                    assert(meets(p[j].conditions[2], app, a));
                    assert(allowed[j] == (a.remote, a.port));
                    assert(allowed.contains((a.remote, a.port)));
                } else {
                    assert(meets(p[j].conditions[1], app, a));
                }
            }
        }
        law_the_heaviest_decide(fs, a, WEIGHT_BLOCK as nat, RuleAction::Block);
    }
}

} // verus!
