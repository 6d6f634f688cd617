//! Looking for updates with the shared installer.

use crate::path::{components, components_of, join, joined, parent, same_path};
use crate::path_windows;
use crate::text::{
    chars_of, copy_chars, dec_text, find, find_char, lossy_text, owned, parse_dec, parsed_dec,
    split, split_chars, str_view, text_of, texts, trim_chars, trimmed, utf8_lossy, views,
};
use vstd::prelude::*;

verus! {

/// How long a check may take.
pub const CHECK_SECS: u64 = 30;

/// What `serde_json::from_slice` reads as a list of any values: how many there
/// are, or the error's text.
pub uninterp spec fn json_list(b: Seq<u8>) -> Result<nat, Seq<char>>;

/// A value of any kind, as `serde_json` reads it.
#[verifier::external_type_specification]
#[verifier::external_body]
pub struct ExJsonValue(serde_json::Value);

/// Calls `serde_json::from_slice` for a list of any values. How many it reads, and
/// the text of its error, depend on the bytes alone.
#[verifier::external_body]
fn read_json_list(b: &[u8]) -> (r: Result<Vec<serde_json::Value>, String>)
    ensures
        match r {
            Ok(list) => json_list(b@) == Result::<nat, Seq<char>>::Ok(list@.len()),
            Err(e) => json_list(b@) == Result::<nat, Seq<char>>::Err(e@),
        },
{
    serde_json::from_slice(b).map_err(|e| e.to_string())
}

/// An update that can be installed.
#[derive(Debug, PartialEq, Eq)]
pub struct Update {
    pub version: String,
}

/// `s` without the letters `v` that it starts with.
pub open spec fn without_v(s: Seq<char>) -> Seq<char>
    decreases s.len(),
{
    if s.len() > 0 && s[0] == 'v' {
        without_v(s.drop_first())
    } else {
        s
    }
}

/// The number of a version's part: what stands before its first dash, and zero
/// where that is no number.
pub open spec fn part_number(p: Seq<char>) -> nat {
    match parsed_dec(p.take(find(p, '-') as int), u64::MAX as nat) {
        Some(n) => n,
        None => 0,
    }
}

/// The numbers of a version.
pub open spec fn version_numbers(s: Seq<char>) -> Seq<nat> {
    split(without_v(s), '.').map_values(|p: Seq<char>| part_number(p))
}

/// Whether a version's numbers come no later than another's.
pub open spec fn no_later(a: Seq<nat>, b: Seq<nat>) -> bool
    decreases a.len(),
{
    if a.len() == 0 {
        true
    } else if b.len() == 0 {
        false
    } else if a[0] != b[0] {
        a[0] < b[0]
    } else {
        no_later(a.drop_first(), b.drop_first())
    }
}

/// A version's numbers.
pub open spec fn nats(v: Seq<u64>) -> Seq<nat> {
    v.map_values(|n: u64| n as nat)
}

/// The numbers of a version.
pub fn version_tuple(version: &str) -> (r: Vec<u64>)
    ensures
        nats(r@) == version_numbers(version@),
{
    let chars = chars_of(version);
    let mut from: usize = 0;
    assert(chars@.skip(0) =~= chars@);
    while from < chars.len() && chars[from] == 'v'
        invariant
            from <= chars@.len(),
            without_v(chars@.skip(from as int)) == without_v(chars@),
        decreases chars@.len() - from,
    {
        assert(chars@.skip(from as int).drop_first() =~= chars@.skip(from + 1));
        from += 1;
    }
    let rest = copy_chars(chars.as_slice(), from, chars.len());
    assert(rest@ =~= chars@.skip(from as int));
    assert(rest@ == without_v(chars@));
    let parts = split_chars(rest.as_slice(), '.');
    let ghost all = split(rest@, '.');
    let ghost want = version_numbers(version@);
    let mut out: Vec<u64> = Vec::new();
    let mut i: usize = 0;
    assert(nats(out@) =~= want.take(0));
    while i < parts.len()
        invariant
            i <= parts@.len(),
            views(parts@) == all,
            want == all.map_values(|p: Seq<char>| part_number(p)),
            nats(out@) == want.take(i as int),
        decreases parts@.len() - i,
    {
        assert(all.len() == parts@.len());
        assert(all[i as int] == parts@[i as int]@);
        let k: usize = find_char(parts[i].as_slice(), '-');
        let head = copy_chars(parts[i].as_slice(), 0, k);
        assert(head@ =~= all[i as int].take(k as int));
        let n: u64 = match parse_dec(head.as_slice(), u64::MAX) {
            Some(n) => n,
            None => 0,
        };
        let ghost before = nats(out@);
        out.push(n);
        assert(nats(out@) =~= before.push(n as nat));
        assert(want[i as int] == n);
        i += 1;
        assert(nats(out@) =~= want.take(i as int));
    }
    assert(all.len() == parts@.len());
    assert(want.take(parts@.len() as int) =~= want);
    out
}

fn comes_no_later(a: &Vec<u64>, b: &Vec<u64>) -> (r: bool)
    ensures
        r == no_later(nats(a@), nats(b@)),
{
    let ghost x = nats(a@);
    let ghost y = nats(b@);
    let mut i: usize = 0;
    assert(x.skip(0) =~= x);
    assert(y.skip(0) =~= y);
    while i < a.len() && i < b.len()
        invariant
            i <= a@.len(),
            i <= b@.len(),
            x == nats(a@),
            y == nats(b@),
            no_later(x.skip(i as int), y.skip(i as int)) == no_later(x, y),
        decreases a@.len() - i,
    {
        assert(x.skip(i as int)[0] == a@[i as int]);
        assert(y.skip(i as int)[0] == b@[i as int]);
        assert(x.skip(i as int).drop_first() =~= x.skip(i + 1));
        assert(y.skip(i as int).drop_first() =~= y.skip(i + 1));
        if a[i] != b[i] {
            return a[i] < b[i];
        }
        i += 1;
    }
    i >= a.len()
}

/// Where the installer may be, best first. The variables' values are those of
/// the program's own folder, the folder for all users' data and the user's home.
pub open spec fn installer_candidates(
    folder: Option<Seq<char>>,
    data: Option<Seq<char>>,
    home: Option<Seq<char>>,
) -> Seq<Seq<char>> {
    let own = match folder {
        Some(f) => seq![
            joined(f, "rot-installer"@),
            joined(joined(f, "installer"@), "rot-installer"@),
        ],
        None => Seq::empty(),
    };
    let user = match (data, home) {
        (Some(d), _) => seq![joined(joined(d, "rot/apps/installer"@), "rot-installer"@)],
        (None, Some(h)) => seq![
            joined(joined(h, ".local/share/rot/apps/installer"@), "rot-installer"@),
        ],
        (None, None) => Seq::empty(),
    };
    own + seq![joined("/opt/rot/installer"@, "rot-installer"@)] + user
}

/// Where the installer may be, best first.
pub fn installer_path(folder: Option<&str>, data: Option<&str>, home: Option<&str>) -> (r: Vec<
    String,
>)
    ensures
        texts(r@) == installer_candidates(str_view(folder), str_view(data), str_view(home)),
{
    let name = "rot-installer";
    let mut out: Vec<String> = Vec::new();
    if let Some(f) = folder {
        out.push(join(f, name));
        let inner = join(f, "installer");
        out.push(join(inner.as_str(), name));
    }
    out.push(join("/opt/rot/installer", name));
    if let Some(d) = data {
        let dir = join(d, "rot/apps/installer");
        out.push(join(dir.as_str(), name));
    } else if let Some(h) = home {
        let dir = join(h, ".local/share/rot/apps/installer");
        out.push(join(dir.as_str(), name));
    }
    assert(texts(out@) =~= installer_candidates(str_view(folder), str_view(data), str_view(home)));
    out
}

/// Where the installer may be on Windows, best first: the program's own folder,
/// the folder of all users' programs, and the user's own.
pub open spec fn windows_candidates(
    folder: Option<Seq<char>>,
    programs: Option<Seq<char>>,
    local: Option<Seq<char>>,
) -> Seq<Seq<char>> {
    let name = "rot-installer.exe"@;
    (match folder {
        Some(f) => seq![
            path_windows::joined(f, name),
            path_windows::joined(path_windows::joined(f, "installer"@), name),
        ],
        None => Seq::empty(),
    }) + (match programs {
        Some(p) => seq![
            path_windows::joined(
                path_windows::joined(path_windows::joined(p, "rot"@), "installer"@),
                name,
            ),
        ],
        None => Seq::empty(),
    }) + (match local {
        Some(l) => seq![
            path_windows::joined(
                path_windows::joined(path_windows::joined(l, "Programs"@), "rot-installer"@),
                name,
            ),
        ],
        None => Seq::empty(),
    })
}

proof fn lemma_plain_program()
    ensures
        path_windows::is_plain("rot-installer.exe"@),
{
    reveal_strlit("rot-installer.exe");
    assert("rot-installer.exe"@.len() == 17);
}

proof fn lemma_plain_own()
    ensures
        path_windows::is_plain("rot-installer"@),
{
    reveal_strlit("rot-installer");
    assert("rot-installer"@.len() == 13);
}

proof fn lemma_plain_folder()
    ensures
        path_windows::is_plain("installer"@),
{
    reveal_strlit("installer");
    assert("installer"@.len() == 9);
}

proof fn lemma_plain_programs()
    ensures
        path_windows::is_plain("Programs"@),
{
    reveal_strlit("Programs");
    assert("Programs"@.len() == 8);
}

proof fn lemma_plain_rot()
    ensures
        path_windows::is_plain("rot"@),
{
    reveal_strlit("rot");
    assert("rot"@.len() == 3);
}

/// Where the installer may be on Windows, best first.
#[verifier::rlimit(40)]
pub fn installer_path_windows(
    folder: Option<&str>,
    programs: Option<&str>,
    local: Option<&str>,
) -> (r: Vec<String>)
    ensures
        texts(r@) == windows_candidates(str_view(folder), str_view(programs), str_view(local)),
{
    proof {
        lemma_plain_program();
        lemma_plain_own();
        lemma_plain_folder();
        lemma_plain_programs();
        lemma_plain_rot();
    }
    let name = "rot-installer.exe";
    let mut out: Vec<String> = Vec::new();
    if let Some(f) = folder {
        out.push(path_windows::join(f, name));
        let inner = path_windows::join(f, "installer");
        out.push(path_windows::join(inner.as_str(), name));
    }
    if let Some(p) = programs {
        let rot = path_windows::join(p, "rot");
        let dir = path_windows::join(rot.as_str(), "installer");
        out.push(path_windows::join(dir.as_str(), name));
    }
    if let Some(l) = local {
        let own = path_windows::join(l, "Programs");
        let dir = path_windows::join(own.as_str(), "rot-installer");
        out.push(path_windows::join(dir.as_str(), name));
    }
    assert(texts(out@) =~= windows_candidates(
        str_view(folder),
        str_view(programs),
        str_view(local),
    ));
    out
}

/// Whether the installer stands in the program's own folder, on Windows.
pub fn installer_is_bundled_windows(installer: &str, exe: &str) -> (r: bool)
    ensures
        r == path_windows::beside(installer@, exe@),
{
    path_windows::are_beside(installer, exe)
}

/// Whether the installer stands in the program's own folder.
pub open spec fn bundled(installer: Seq<char>, exe: Seq<char>) -> bool {
    parent(components(exe)) is Some && parent(components(installer)) == parent(components(exe))
}

/// Whether the installer stands in the program's own folder.
pub fn installer_is_bundled(installer: &str, exe: &str) -> (r: bool)
    ensures
        r == bundled(installer@, exe@),
{
    let a = chars_of(installer);
    let b = chars_of(exe);
    let mut x = components_of(a.as_slice());
    let mut y = components_of(b.as_slice());
    let ghost cx = components(installer@);
    let ghost cy = components(exe@);
    assert(cx.len() == x@.len() && cy.len() == y@.len());
    if x.len() == 0 || y.len() == 0 {
        return false;
    }
    let p = x.pop().unwrap();
    let q = y.pop().unwrap();
    assert(cx.last() == p@ && cy.last() == q@);
    assert(views(x@) =~= cx.drop_last());
    assert(views(y@) =~= cy.drop_last());
    let px: bool = p.len() == 1 && p[0] == '/';
    let qx: bool = q.len() == 1 && q[0] == '/';
    assert(px == (p@ =~= crate::path::root()));
    assert(qx == (q@ =~= crate::path::root()));
    if px || qx {
        return false;
    }
    same_path(&x, &y)
}

/// What the installer's program is run with to take this one over.
pub fn adopt_args(root: &str, version: &str) -> (r: Vec<String>)
    ensures
        texts(r@) == seq![
            "adopt"@,
            "iris"@,
            "--scope"@,
            "machine"@,
            "--root"@,
            root@,
            "--version"@,
            version@,
        ],
{
    let mut r: Vec<String> = Vec::new();
    r.push(owned("adopt"));
    r.push(owned("iris"));
    r.push(owned("--scope"));
    r.push(owned("machine"));
    r.push(owned("--root"));
    r.push(owned(root));
    r.push(owned("--version"));
    r.push(owned(version));
    assert(texts(r@) =~= seq![
        "adopt"@,
        "iris"@,
        "--scope"@,
        "machine"@,
        "--root"@,
        root@,
        "--version"@,
        version@,
    ]);
    r
}

/// What is done next while updates are looked for.
#[derive(Debug)]
pub enum Check {
    /// Asks the installer what it installed.
    Status { again: bool },
    /// Has the installer take this program over.
    Adopt,
    /// Asks the installer for a newer version.
    Look,
    /// The newer version, if there is one.
    Done(Result<Option<Update>, String>),
}

/// What running the installer gave: whether it succeeded, and what it wrote.
#[derive(Debug)]
pub struct Ran {
    pub success: bool,
    pub stdout: Vec<u8>,
    pub stderr: Vec<u8>,
}

/// Whether a check failed with a sentence.
pub open spec fn failed(c: Check, why: Seq<char>) -> bool {
    c matches Check::Done(Err(e)) && e@ == why
}

fn fail(prefix: &str, why: &str) -> (c: Check)
    ensures
        failed(c, prefix@ + why@),
{
    let mut s = owned(prefix);
    s.push_str(why);
    Check::Done(Err(s))
}

/// Starts a check, where there is an installer.
pub fn check_installer_update(installer: bool) -> (c: Check)
    ensures
        installer ==> c == (Check::Status { again: false }),
        !installer ==> failed(c, "shared updater is not installed"@),
{
    if installer {
        Check::Status { again: false }
    } else {
        Check::Done(Err(owned("shared updater is not installed")))
    }
}

/// What the installer's receipts mean: `n` of them, after a run that succeeded or
/// not.
pub open spec fn after_receipts(again: bool, success: bool, n: nat, bundled: bool, c: Check) -> bool {
    if !again && success && n == 0 && bundled {
        c == Check::Adopt
    } else if !success || n == 0 {
        failed(c, "Iris is still owned by its legacy or system package"@)
    } else {
        c == Check::Look
    }
}

/// Takes the number of the installer's receipts. A program that the installer
/// came with, and has no receipt for, is taken over, once.
pub fn on_receipts(again: bool, success: bool, n: usize, bundled: bool) -> (c: Check)
    ensures
        after_receipts(again, success, n as nat, bundled, c),
{
    if !again && success && n == 0 && bundled {
        Check::Adopt
    } else if !success || n == 0 {
        Check::Done(Err(owned("Iris is still owned by its legacy or system package")))
    } else {
        Check::Look
    }
}

/// Takes what the installer says that it installed.
pub fn on_status(again: bool, ran: Result<Ran, String>, bundled: bool) -> (c: Check)
    ensures
        match ran {
            Err(e) => failed(c, "read installer status: "@ + e@),
            Ok(r) => match json_list(r.stdout@) {
                Err(e) => failed(c, "read installer status: "@ + e),
                Ok(n) => after_receipts(again, r.success, n, bundled, c),
            },
        },
{
    match ran {
        Err(e) => fail("read installer status: ", e.as_str()),
        Ok(r) => match read_json_list(r.stdout.as_slice()) {
            Err(e) => fail("read installer status: ", e.as_str()),
            Ok(list) => on_receipts(again, r.success, list.len(), bundled),
        },
    }
}

/// Takes what came of having the installer take this program over: whether it
/// succeeded, and its exit in words.
pub fn on_adopt(ran: Result<(bool, String), String>) -> (c: Check)
    ensures
        match ran {
            Err(e) => failed(c, "start installer migration: "@ + e@),
            Ok((true, _)) => c == (Check::Status { again: true }),
            Ok((false, exit)) => failed(c, "installer migration exited with "@ + exit@),
        },
{
    match ran {
        Err(e) => fail("start installer migration: ", e.as_str()),
        Ok((true, _)) => Check::Status { again: true },
        Ok((false, exit)) => fail("installer migration exited with ", exit.as_str()),
    }
}

/// Takes the version that the installer has: an update where it is newer than the
/// one that runs.
pub fn on_release(release: Result<String, String>, current: &str) -> (c: Check)
    ensures
        match release {
            Err(e) => failed(c, "read updater response: "@ + e@),
            Ok(version) => if no_later(version_numbers(version@), version_numbers(current@)) {
                c == Check::Done(Ok(None))
            } else {
                c == Check::Done(Ok(Some(Update { version })))
            },
        },
{
    match release {
        Err(e) => fail("read updater response: ", e.as_str()),
        Ok(version) => {
            let new = version_tuple(version.as_str());
            let now = version_tuple(current);
            if comes_no_later(&new, &now) {
                Check::Done(Ok(None))
            } else {
                Check::Done(Ok(Some(Update { version })))
            }
        },
    }
}

/// Takes what came of asking the installer for a newer version: nothing yet where
/// its reply is to be read, and the failure where there is none.
pub fn on_look(ran: Result<Ran, String>) -> (r: Result<Vec<u8>, Check>)
    ensures
        match ran {
            Err(e) => r is Err && failed(r->Err_0, "start updater: "@ + e@),
            Ok(out) => if out.success {
                r == Result::<Vec<u8>, Check>::Ok(out.stdout)
            } else {
                r is Err && failed(r->Err_0, trimmed(utf8_lossy(out.stderr@)))
            },
        },
{
    match ran {
        Err(e) => Err(fail("start updater: ", e.as_str())),
        Ok(out) => {
            if out.success {
                return Ok(out.stdout);
            }
            let text = lossy_text(out.stderr.as_slice());
            let chars = chars_of(text.as_str());
            let t = trim_chars(chars.as_slice());
            Err(Check::Done(Err(text_of(t))))
        },
    }
}

/// The order of versions: the version that runs is no update of itself, and of
/// two versions one comes no later than the other.
pub proof fn law_versions_are_ordered(a: Seq<nat>, b: Seq<nat>)
    ensures
        no_later(a, a),
        no_later(a, b) || no_later(b, a),
        no_later(a, b) && no_later(b, a) ==> a == b,
    decreases a.len(),
{
    if a.len() > 0 {
        law_versions_are_ordered(a.drop_first(), b.drop_first());
        if b.len() > 0 && a[0] == b[0] && no_later(a, b) && no_later(b, a) {
            assert(a =~= seq![a[0]] + a.drop_first());
            assert(b =~= seq![b[0]] + b.drop_first());
        }
    } else if b.len() == 0 {
        assert(a =~= b);
    }
}

/// A version is later than another where the first number in which they differ is
/// larger, or where it goes on behind the other.
pub proof fn law_larger_numbers_are_later(p: Seq<nat>, a: nat, b: nat, x: Seq<nat>, y: Seq<nat>)
    requires
        a < b,
    ensures
        no_later(p + seq![a] + x, p + seq![b] + y),
        !no_later(p + seq![b] + y, p + seq![a] + x),
        no_later(p, p + seq![a] + x),
        !no_later(p + seq![a] + x, p),
    decreases p.len(),
{
    let (s, t) = (p + seq![a] + x, p + seq![b] + y);
    if p.len() > 0 {
        let q = p.drop_first();
        law_larger_numbers_are_later(q, a, b, x, y);
        assert(s[0] == p[0] && t[0] == p[0]);
        assert(s.drop_first() =~= q + seq![a] + x);
        assert(t.drop_first() =~= q + seq![b] + y);
    } else {
        assert(s[0] == a && t[0] == b);
    }
}

/// The numbers of a version stand between its dots, behind a `v` and before a dash.
pub proof fn law_versions_are_read(n: u64, rest: Seq<char>, mark: Seq<char>, s: Seq<char>)
    requires
        !mark.contains('.'),
    ensures
        version_numbers(seq!['v'] + s) == version_numbers(s),
        version_numbers(dec_text(n as nat) + seq!['.'] + rest) == seq![n as nat] + split(
            rest,
            '.',
        ).map_values(|p: Seq<char>| part_number(p)),
        version_numbers(dec_text(n as nat) + seq!['-'] + mark) == seq![n as nat],
        version_numbers(dec_text(n as nat)) == seq![n as nat],
{
    assert((seq!['v'] + s).drop_first() =~= s);
    let d = dec_text(n as nat);
    crate::text::lemma_dec_text(n as nat);
    crate::text::law_decimal_round_trip(n as nat, u64::MAX as nat);
    assert(crate::text::is_digit(d[0]));
    assert forall|c: char| d.contains(c) implies c != '.' && c != '-' by {
        let i = choose|i: int| 0 <= i < d.len() && d[i] == c;
        assert(crate::text::is_digit(d[i]));
    }
    let whole = d + seq!['.'] + rest;
    assert(whole[0] == d[0]);
    crate::text::law_pieces_stand_between_separators(d, '.', rest);
    lemma_part(d, n as nat);
    let f = |p: Seq<char>| part_number(p);
    assert((seq![d] + split(rest, '.')).map_values(f) =~= seq![n as nat] + split(
        rest,
        '.',
    ).map_values(f));
    assert(seq![d].map_values(f) =~= seq![n as nat]);
    let marked = d + seq!['-'] + mark;
    assert(marked[0] == d[0]);
    assert(!marked.contains('.')) by {
        if marked.contains('.') {
            let i = choose|i: int| 0 <= i < marked.len() && marked[i] == '.';
            if i < d.len() {
                assert(d.contains(d[i]));
            } else if i > d.len() {
                assert(mark.contains(mark[i - d.len() - 1]));
            }
        }
    }
    crate::text::law_pieces_stand_between_separators(marked, '.', rest);
    crate::text::lemma_find(marked, '-');
    assert(marked[d.len() as int] == '-');
    assert forall|i: int| 0 <= i < d.len() implies marked[i] != '-' by {
        assert(marked[i] == d[i]);
        assert(d.contains(d[i]));
    }
    assert(find(marked, '-') == d.len());
    assert(marked.take(d.len() as int) =~= d);
    assert(seq![marked].map_values(f) =~= seq![n as nat]);
}

proof fn lemma_part(d: Seq<char>, n: nat)
    requires
        parsed_dec(d, u64::MAX as nat) == Some(n),
        !d.contains('-'),
    ensures
        part_number(d) == n,
{
    crate::text::lemma_find(d, '-');
    assert(d.take(d.len() as int) =~= d);
}

/// An installer is this program's own where both stand in the same folder.
pub proof fn law_bundled_installers_stand_beside(
    dir: Seq<char>,
    a: Seq<char>,
    b: Seq<char>,
    other: Seq<char>,
)
    requires
        dir.len() > 0,
        other.len() > 0,
        crate::path::is_plain(a),
        crate::path::is_plain(b),
        components(dir) != components(other),
    ensures
        bundled(dir + seq!['/'] + a, dir + seq!['/'] + b),
        !bundled(other + seq!['/'] + a, dir + seq!['/'] + b),
{
    crate::path::law_names_add_components(dir, a);
    crate::path::law_names_add_components(dir, b);
    crate::path::law_names_add_components(other, a);
    assert(a.contains(a[0]) && b.contains(b[0]));
    assert(components(dir).push(a).drop_last() =~= components(dir));
    assert(components(dir).push(b).drop_last() =~= components(dir));
    assert(components(other).push(a).drop_last() =~= components(other));
}

/// The program is adopted at most once, where the installer knows nothing of it yet
/// and stands beside it; it is updated where the installer knows it, and else left to
/// whatever installed it.
pub proof fn law_the_program_is_adopted_once(again: bool, success: bool, n: nat, own: bool, c: Check)
    requires
        after_receipts(again, success, n, own, c),
    ensures
        (c is Adopt) == (!again && success && n == 0 && own),
        (c is Look) == (success && n > 0),
        !(c is Adopt) && !(c is Look) ==> c is Done && c->Done_0 is Err,
{
}

} // verus!
