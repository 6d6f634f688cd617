//! What the user agreed that plugins may do.

use crate::store::statement::{flag_of, load_u64, loaded, store_u64, Statement};
use crate::text::{owned, texts};
use vstd::prelude::*;

verus! {

/// What `serde_json::to_string` writes for a list of strings.
pub uninterp spec fn json_of_texts(v: Seq<Seq<char>>) -> Seq<char>;

/// What `serde_json::from_str` reads as a list of strings, if it can.
pub uninterp spec fn texts_of_json(s: Seq<char>) -> Option<Seq<Seq<char>>>;

/// Calls `serde_json::to_string` on a list of strings. It fails for no such list:
/// strings always serialize, and they are written to memory. The text reads back
/// as the same list.
#[verifier::external_body]
fn to_json(v: &Vec<String>) -> (r: Option<String>)
    ensures
        r is Some,
        r->Some_0@ == json_of_texts(texts(v@)),
        texts_of_json(r->Some_0@) == Some(texts(v@)),
{
    serde_json::to_string(v).ok()
}

/// Calls `serde_json::from_str` for a list of strings. What it reads depends on
/// the text alone.
#[verifier::external_body]
fn from_json(s: &str) -> (r: Option<Vec<String>>)
    ensures
        match r {
            Some(v) => texts_of_json(s@) == Some(texts(v@)),
            None => texts_of_json(s@) is None,
        },
{
    serde_json::from_str(s).ok()
}

/// What the user agreed that one plugin may do, and whether it is switched on.
#[derive(Debug, PartialEq, Eq)]
pub struct PluginGrant {
    pub id: String,
    pub caps: Vec<String>,
    pub egress: Vec<String>,
    pub enabled: bool,
    /// Milliseconds since the Unix epoch.
    pub granted_at: u64,
}

/// What the user agreed that one plugin may do.
#[verifier::ext_equal]
pub ghost struct Grant {
    pub id: Seq<char>,
    pub caps: Seq<Seq<char>>,
    pub egress: Seq<Seq<char>>,
    pub enabled: bool,
    pub granted_at: u64,
}

impl View for PluginGrant {
    type V = Grant;

    open spec fn view(&self) -> Grant {
        Grant {
            id: self.id@,
            caps: texts(self.caps@),
            egress: texts(self.egress@),
            enabled: self.enabled,
            granted_at: self.granted_at,
        }
    }
}

/// The list in a column; an empty one where the column holds none.
pub open spec fn list_in(column: Seq<char>) -> Seq<Seq<char>> {
    match texts_of_json(column) {
        Some(l) => l,
        None => Seq::empty(),
    }
}

fn read_list(column: &str) -> (r: Vec<String>)
    ensures
        texts(r@) == list_in(column@),
{
    match from_json(column) {
        Some(v) => v,
        None => {
            let v: Vec<String> = Vec::new();
            assert(texts(v@) =~= Seq::<Seq<char>>::empty());
            v
        },
    }
}

/// The grant in a row's columns.
pub open spec fn grant_in(
    id: Seq<char>,
    caps: Seq<char>,
    egress: Seq<char>,
    enabled: i64,
    granted_at: i64,
) -> Grant {
    Grant {
        id,
        caps: list_in(caps),
        egress: list_in(egress),
        enabled: enabled != 0,
        granted_at: loaded(granted_at),
    }
}

/// The grant in a row's columns.
pub fn grant_row(id: String, caps: &str, egress: &str, enabled: i64, granted_at: i64) -> (r:
    PluginGrant)
    ensures
        r@ == grant_in(id@, caps@, egress@, enabled, granted_at),
{
    PluginGrant {
        id,
        caps: read_list(caps),
        egress: read_list(egress),
        enabled: enabled != 0,
        granted_at: load_u64(granted_at),
    }
}

/// Writes down what the user agreed to, in place of what was there. The row that
/// it writes reads back as what was given.
pub fn set_plugin_grant(
    id: &str,
    caps: &Vec<String>,
    egress: &Vec<String>,
    enabled: bool,
    at_ms: u64,
) -> (s: Statement)
    ensures
        s matches Statement::SetGrant { id: i, caps: c, egress: e, enabled: on, granted_at } && i@
            == id@ && c@ == json_of_texts(texts(caps@)) && e@ == json_of_texts(texts(egress@))
            && grant_in(i@, c@, e@, flag_of(on), granted_at) == (Grant {
            id: id@,
            caps: texts(caps@),
            egress: texts(egress@),
            enabled,
            granted_at: at_ms,
        }),
{
    let c = to_json(caps).unwrap();
    let e = to_json(egress).unwrap();
    Statement::SetGrant {
        id: owned(id),
        caps: c,
        egress: e,
        enabled,
        granted_at: store_u64(at_ms),
    }
}

/// A grant is read from its row; a list that cannot be read is empty, so that what
/// cannot be read grants nothing.
pub proof fn law_unreadable_grants_grant_nothing(
    id: Seq<char>,
    caps: Seq<char>,
    egress: Seq<char>,
    enabled: i64,
    granted_at: i64,
)
    ensures
        texts_of_json(caps) is None ==> grant_in(id, caps, egress, enabled, granted_at).caps.len()
            == 0,
        texts_of_json(egress) is None ==> grant_in(
            id,
            caps,
            egress,
            enabled,
            granted_at,
        ).egress.len() == 0,
        texts_of_json(caps) is Some ==> grant_in(id, caps, egress, enabled, granted_at).caps
            == texts_of_json(caps)->0,
        texts_of_json(egress) is Some ==> grant_in(id, caps, egress, enabled, granted_at).egress
            == texts_of_json(egress)->0,
        grant_in(id, caps, egress, 0, granted_at).enabled == false,
        grant_in(id, caps, egress, 1, granted_at).enabled,
        grant_in(id, caps, egress, enabled, granted_at).granted_at == loaded(granted_at),
{
}

} // verus!
