//! Starting a plugin without privileges.

use crate::ip_show::hex_char;
use crate::linux::egress::{padded_hex, push_padded_hex};
use crate::path::{parent_of, parent_text};
use crate::text::owned;
use vstd::prelude::*;

verus! {

/// How many random bytes a token has.
pub const TOKEN_BYTES: usize = 32;

/// Bytes in hexadecimal, two digits each.
pub open spec fn hex_of(bytes: Seq<u8>) -> Seq<char>
    decreases bytes.len(),
{
    if bytes.len() == 0 {
        Seq::empty()
    } else {
        hex_of(bytes.drop_last()) + padded_hex(bytes.last() as nat, 2)
    }
}

/// The token that random bytes make.
pub fn hex_token(bytes: &[u8]) -> (out: String)
    ensures
        out@ == hex_of(bytes@),
{
    let mut out = String::new();
    let mut i: usize = 0;
    assert(bytes@.take(0) =~= Seq::empty());
    while i < bytes.len()
        invariant
            i <= bytes@.len(),
            out@ == hex_of(bytes@.take(i as int)),
        decreases bytes@.len() - i,
    {
        assert(bytes@.take(i + 1).drop_last() =~= bytes@.take(i as int));
        push_padded_hex(&mut out, bytes[i] as u64, 2);
        i += 1;
    }
    assert(bytes@.take(i as int) =~= bytes@);
    out
}

/// A token has two characters for each byte, so tokens of equal length come from
/// as many bytes.
pub proof fn law_tokens_have_two_digits_a_byte(bytes: Seq<u8>)
    ensures
        hex_of(bytes).len() == 2 * bytes.len(),
    decreases bytes.len(),
{
    if bytes.len() > 0 {
        law_tokens_have_two_digits_a_byte(bytes.drop_last());
        reveal_with_fuel(padded_hex, 3);
    }
}

/// Different bytes make different tokens.
pub proof fn law_tokens_identify_their_bytes(a: Seq<u8>, b: Seq<u8>)
    ensures
        hex_of(a) == hex_of(b) ==> a == b,
    decreases a.len(),
{
    law_tokens_have_two_digits_a_byte(a);
    law_tokens_have_two_digits_a_byte(b);
    if hex_of(a) == hex_of(b) && a.len() > 0 {
        reveal_with_fuel(padded_hex, 3);
        law_tokens_have_two_digits_a_byte(a.drop_last());
        law_tokens_have_two_digits_a_byte(b.drop_last());
        let s = hex_of(a);
        let x = a.last() as nat;
        let y = b.last() as nat;
        assert(s[s.len() - 1] == hex_char(x % 16) && s[s.len() - 1] == hex_char(y % 16));
        assert(s[s.len() - 2] == hex_char(x / 16 % 16) && s[s.len() - 2] == hex_char(y / 16 % 16));
        assert(x % 16 == y % 16 && x / 16 % 16 == y / 16 % 16);
        assert(x == y);
        assert(hex_of(a.drop_last()) =~= s.take(s.len() - 2));
        assert(hex_of(b.drop_last()) =~= s.take(s.len() - 2));
        law_tokens_identify_their_bytes(a.drop_last(), b.drop_last());
        assert(a =~= a.drop_last().push(a.last()));
        assert(b =~= b.drop_last().push(b.last()));
    } else if hex_of(a) == hex_of(b) {
        assert(a =~= b);
    }
}

/// Why a plugin cannot be started without privileges.
#[derive(Debug, Clone, Copy, PartialEq, Eq, Structural)]
pub enum AccountError {
    /// The account is not there.
    Missing,
    /// The account is an administrator's.
    Root,
}

impl AccountError {
    /// The sentence about the error.
    pub fn message(&self) -> (s: &'static str)
        ensures
            s@ == (match self {
                AccountError::Missing =>
                    "plugin account 'iris-plugin' does not exist; plugins cannot be sandboxed"@,
                AccountError::Root => "plugin account 'iris-plugin' must not be root"@,
            }),
    {
        match self {
            AccountError::Missing =>
                "plugin account 'iris-plugin' does not exist; plugins cannot be sandboxed",
            AccountError::Root => "plugin account 'iris-plugin' must not be root",
        }
    }
}

/// The account's user and group, unless one of them is root's.
pub fn plugin_ids(entry: Option<(u32, u32)>) -> (r: Result<(u32, u32), AccountError>)
    ensures
        r == (match entry {
            None => Err::<(u32, u32), AccountError>(AccountError::Missing),
            Some((uid, gid)) => if uid == 0 || gid == 0 {
                Err(AccountError::Root)
            } else {
                Ok((uid, gid))
            },
        }),
{
    match entry {
        None => Err(AccountError::Missing),
        Some((uid, gid)) => if uid == 0 || gid == 0 {
            Err(AccountError::Root)
        } else {
            Ok((uid, gid))
        },
    }
}

/// A limited resource.
#[derive(Debug, Clone, Copy, PartialEq, Eq, Structural)]
pub enum Resource {
    Processes,
    Files,
    CoreBytes,
    AddressSpace,
}

/// How much of each resource a plugin may have.
pub fn resource_limits() -> (r: Vec<(Resource, u64)>)
    ensures
        r@ == seq![
            (Resource::Processes, 64u64),
            (Resource::Files, 256u64),
            (Resource::CoreBytes, 0u64),
            (Resource::AddressSpace, 0x2000_0000u64),
        ],
{
    let r: Vec<(Resource, u64)> = vec![
        (Resource::Processes, 64),
        (Resource::Files, 256),
        (Resource::CoreBytes, 0),
        (Resource::AddressSpace, 0x2000_0000),
    ];
    assert(r@ =~= seq![
        (Resource::Processes, 64u64),
        (Resource::Files, 256u64),
        (Resource::CoreBytes, 0u64),
        (Resource::AddressSpace, 0x2000_0000u64),
    ]);
    r
}

/// The directory that a program is started in.
pub fn working_dir(exe: &str) -> (r: Option<String>)
    ensures
        crate::text::text_view(r) == parent_text(exe@),
{
    parent_of(exe)
}

/// One variable with its value.
pub open spec fn pair_view(p: (String, String)) -> (Seq<char>, Seq<char>) {
    (p.0@, p.1@)
}

/// Variables with their values.
pub open spec fn pair_views(v: Seq<(String, String)>) -> Seq<(Seq<char>, Seq<char>)> {
    v.map_values(|p: (String, String)| pair_view(p))
}

/// The environment of a plugin, which holds nothing of this process's: a later
/// variable of a name counts over an earlier one.
pub fn child_env(exe: &str, extra: &Vec<(String, String)>) -> (r: Vec<(String, String)>)
    ensures
        pair_views(r@) == seq![("PATH"@, "/usr/bin:/bin"@), ("IRIS_SANDBOX"@, "1"@)] + (
        match parent_text(exe@) {
            Some(h) => seq![("HOME"@, h)],
            None => Seq::empty(),
        }) + pair_views(extra@),
{
    let mut r: Vec<(String, String)> = Vec::new();
    r.push((owned("PATH"), owned("/usr/bin:/bin")));
    r.push((owned("IRIS_SANDBOX"), owned("1")));
    let ghost head = seq![("PATH"@, "/usr/bin:/bin"@), ("IRIS_SANDBOX"@, "1"@)];
    assert(pair_views(r@) =~= head);
    let ghost home = match parent_text(exe@) {
        Some(h) => seq![("HOME"@, h)],
        None => Seq::empty(),
    };
    if let Some(h) = working_dir(exe) {
        r.push((owned("HOME"), h));
    }
    assert(pair_views(r@) =~= head + home);
    let mut i: usize = 0;
    assert(pair_views(extra@.take(0)) =~= Seq::empty());
    assert(pair_views(r@) =~= head + home + pair_views(extra@.take(0)));
    while i < extra.len()
        invariant
            i <= extra@.len(),
            pair_views(r@) == head + home + pair_views(extra@.take(i as int)),
        decreases extra@.len() - i,
    {
        let ghost was = pair_views(r@);
        let k = extra[i].0.clone();
        let v = extra[i].1.clone();
        r.push((k, v));
        proof {
            assert(pair_views(r@) =~= was.push((k@, v@)));
            assert(pair_views(extra@.take(i + 1)) =~= pair_views(extra@.take(i as int)).push(
                (k@, v@),
            ));
            assert(pair_views(r@) =~= head + home + pair_views(extra@.take(i + 1)));
        }
        i += 1;
    }
    assert(extra@.take(i as int) =~= extra@);
    r
}

/// The code of a child that ended: its own, or all ones where a signal ended it.
pub fn exit_code(code: Option<i32>) -> (r: u32)
    ensures
        r == (match code {
            Some(c) => if c >= 0 {
                c as int
            } else {
                c + 0x1_0000_0000
            },
            None => 0xffff_ffff,
        }),
{
    match code {
        Some(c) => if c >= 0 {
            c as u32
        } else {
            0xffff_ffff - (-(c + 1)) as u32
        },
        None => 0xffff_ffff,
    }
}

} // verus!
