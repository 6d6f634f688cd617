//! Paths as Windows reads them: with slashes of both kinds, and behind a prefix
//! that names a drive, a share or a device.
//!
//! Two paths are the same when their prefixes, their roots and their names are.
//! Behind a prefix that starts with `\\?\` nothing is rewritten: a forward slash
//! is part of a name there, and `.` is a name.

use crate::path::{agree_to, file_stem, here, last_dot_of, up};
use crate::text::{
    ascii_lower, chars_of, copy_chars, find, find_char, lemma_find, lower_ascii, owned, same_chars,
    split, split_chars, text_of, views,
};
use vstd::prelude::*;

verus! {

/// What a prefix names.
#[derive(Debug, Clone, Copy, PartialEq, Eq, Structural)]
pub enum PrefixKind {
    /// `C:`
    Disk,
    /// `\\server\share`
    Share,
    /// `\\.\device`
    Device,
    /// `\\?\name`
    Verbatim,
    /// `\\?\UNC\server\share`
    VerbatimShare,
    /// `\\?\C:`
    VerbatimDisk,
}

/// A prefix: a drive's letter in lower case, or up to two names.
#[derive(Debug)]
pub struct Prefix {
    pub kind: PrefixKind,
    pub drive: u32,
    pub first: Vec<char>,
    pub second: Vec<char>,
}

/// A prefix as contracts see it.
#[verifier::ext_equal]
pub ghost struct PrefixView {
    pub kind: PrefixKind,
    pub drive: u32,
    pub first: Seq<char>,
    pub second: Seq<char>,
}

impl View for Prefix {
    type V = PrefixView;

    open spec fn view(&self) -> PrefixView {
        PrefixView {
            kind: self.kind,
            drive: self.drive,
            first: self.first@,
            second: self.second@,
        }
    }
}

/// An optional prefix as contracts see it.
pub open spec fn prefix_view(p: Option<Prefix>) -> Option<PrefixView> {
    match p {
        Some(p) => Some(p@),
        None => None,
    }
}

/// Whether a character is a slash of either kind.
pub open spec fn is_slash(c: char) -> bool {
    c == '\\' || c == '/'
}

/// A text with backslashes for its slashes.
pub open spec fn backed(s: Seq<char>) -> Seq<char> {
    s.map_values(
        |c: char|
            if c == '/' {
                '\\'
            } else {
                c
            },
    )
}

/// What stands before the first backslash.
pub open spec fn head(s: Seq<char>) -> Seq<char> {
    s.take(find(s, '\\') as int)
}

/// What follows the first backslash.
pub open spec fn tail(s: Seq<char>) -> Seq<char> {
    if find(s, '\\') < s.len() {
        s.skip(find(s, '\\') as int + 1)
    } else {
        Seq::empty()
    }
}

/// Whether a character is an ASCII letter.
pub open spec fn is_letter(c: char) -> bool {
    'a' <= c <= 'z' || 'A' <= c <= 'Z'
}

/// Whether a text starts with a drive.
pub open spec fn has_drive(s: Seq<char>) -> bool {
    s.len() >= 2 && is_letter(s[0]) && s[1] == ':'
}

/// The prefix of the names `first` and `second`.
pub open spec fn naming(kind: PrefixKind, first: Seq<char>, second: Seq<char>) -> PrefixView {
    PrefixView { kind, drive: 0, first, second }
}

/// The prefix of a drive.
pub open spec fn driving(kind: PrefixKind, letter: char) -> PrefixView {
    PrefixView { kind, drive: ascii_lower(letter), first: Seq::empty(), second: Seq::empty() }
}

/// Whether a path is behind `\\?\`, with backslashes only.
pub open spec fn is_verbatim(s: Seq<char>) -> bool {
    s.len() >= 4 && s[0] == '\\' && s[1] == '\\' && s[2] == '?' && s[3] == '\\'
}

/// The prefix of what follows `\\?\`.
pub open spec fn verbatim_prefix(r: Seq<char>) -> PrefixView {
    if r.len() >= 4 && r[0] == 'U' && r[1] == 'N' && r[2] == 'C' && is_slash(r[3]) {
        naming(PrefixKind::VerbatimShare, head(r.skip(4)), head(tail(r.skip(4))))
    } else if has_drive(r) && (r.len() == 2 || is_slash(r[2])) {
        driving(PrefixKind::VerbatimDisk, r[0])
    } else {
        naming(PrefixKind::Verbatim, head(r), Seq::empty())
    }
}

/// The prefix of a path.
pub open spec fn prefix(s: Seq<char>) -> Option<PrefixView> {
    let b = backed(s);
    let q = b.skip(2);
    if is_verbatim(s) {
        Some(verbatim_prefix(s.skip(4)))
    } else if b.len() >= 4 && b[0] == '\\' && b[1] == '\\' && b[2] == '.' && b[3] == '\\' {
        Some(naming(PrefixKind::Device, head(b.skip(4)), Seq::empty()))
    } else if b.len() >= 2 && b[0] == '\\' && b[1] == '\\' {
        if head(q).len() > 0 && head(tail(q)).len() > 0 {
            Some(naming(PrefixKind::Share, head(q), head(tail(q))))
        } else {
            None
        }
    } else if has_drive(s) {
        Some(driving(PrefixKind::Disk, s[0]))
    } else {
        None
    }
}

/// How many characters a prefix has.
pub open spec fn prefix_len(p: Option<PrefixView>) -> nat {
    match p {
        None => 0,
        Some(p) => match p.kind {
            PrefixKind::Disk => 2,
            PrefixKind::VerbatimDisk => 6,
            PrefixKind::Device | PrefixKind::Verbatim => 4 + p.first.len(),
            PrefixKind::Share => 2 + pair_len(p.first, p.second),
            PrefixKind::VerbatimShare => 8 + pair_len(p.first, p.second),
        },
    }
}

/// How many characters two names have, with a slash between them where there is a
/// second one.
pub open spec fn pair_len(first: Seq<char>, second: Seq<char>) -> nat {
    if second.len() > 0 {
        first.len() + 1 + second.len()
    } else {
        first.len()
    }
}

/// Whether nothing is rewritten behind a prefix.
pub open spec fn strict(p: Option<PrefixView>) -> bool {
    p is Some && (p->0.kind == PrefixKind::Verbatim || p->0.kind == PrefixKind::VerbatimDisk
        || p->0.kind == PrefixKind::VerbatimShare)
}

/// Where a path's names start: behind its prefix, and behind the slash there.
pub open spec fn names_at(s: Seq<char>) -> nat {
    let n = prefix_len(prefix(s));
    if n < s.len() && is_slash(s[n as int]) {
        n + 1
    } else {
        n
    }
}

/// Whether the `i`th piece between slashes is a name. `.` is one behind a strict
/// prefix, and where a path without prefix and root starts with it.
pub open spec fn counts(piece: Seq<char>, i: int, dots: bool, first_dot: bool) -> bool {
    piece.len() > 0 && (piece != here() || dots || first_dot && i == 0)
}

/// The names among the first `n` pieces.
pub open spec fn kept(pieces: Seq<Seq<char>>, n: int, dots: bool, first_dot: bool) -> Seq<Seq<char>>
    decreases n,
{
    if n <= 0 {
        Seq::empty()
    } else if counts(pieces[n - 1], n - 1, dots, first_dot) {
        kept(pieces, n - 1, dots, first_dot).push(pieces[n - 1])
    } else {
        kept(pieces, n - 1, dots, first_dot)
    }
}

/// The names of a path.
pub open spec fn names(s: Seq<char>) -> Seq<Seq<char>> {
    let p = prefix(s);
    let rest = s.skip(names_at(s) as int);
    let pieces = split(
        if strict(p) {
            rest
        } else {
            backed(rest)
        },
        '\\',
    );
    kept(pieces, pieces.len() as int, strict(p), names_at(s) == 0)
}

/// Whether a path starts at a root: a slash, or that of a share or a device.
pub open spec fn has_root(s: Seq<char>) -> bool {
    let p = prefix(s);
    names_at(s) > prefix_len(p) || p is Some && (p->0.kind == PrefixKind::Share || p->0.kind
        == PrefixKind::Device)
}

/// A path: its prefix, whether it starts at a root, and its names.
pub ghost struct WindowsPath {
    pub prefix: Option<PrefixView>,
    pub root: bool,
    pub names: Seq<Seq<char>>,
}

/// What a text is as a path.
pub open spec fn windows_path(s: Seq<char>) -> WindowsPath {
    WindowsPath { prefix: prefix(s), root: has_root(s), names: names(s) }
}

/// A path without its last name. A path without names has none.
pub open spec fn parent(p: WindowsPath) -> Option<WindowsPath> {
    if p.names.len() > 0 {
        Some(WindowsPath { names: p.names.drop_last(), ..p })
    } else {
        None
    }
}

fn back_slashes(s: &[char]) -> (r: Vec<char>)
    ensures
        r@ == backed(s@),
{
    let mut r: Vec<char> = Vec::new();
    let mut i: usize = 0;
    while i < s.len()
        invariant
            i <= s@.len(),
            r@ == backed(s@).take(i as int),
        decreases s@.len() - i,
    {
        r.push(
            if s[i] == '/' {
                '\\'
            } else {
                s[i]
            },
        );
        i += 1;
        assert(r@ =~= backed(s@).take(i as int));
    }
    assert(r@ =~= backed(s@));
    r
}

fn head_of(s: &[char]) -> (r: Vec<char>)
    ensures
        r@ == head(s@),
{
    let k: usize = find_char(s, '\\');
    let r = copy_chars(s, 0, k);
    assert(r@ =~= head(s@));
    r
}

fn tail_of(s: &[char]) -> (r: Vec<char>)
    ensures
        r@ == tail(s@),
{
    let k: usize = find_char(s, '\\');
    if k < s.len() {
        let r = copy_chars(s, k + 1, s.len());
        assert(r@ =~= tail(s@));
        r
    } else {
        Vec::new()
    }
}

fn slash(c: char) -> (r: bool)
    ensures
        r == is_slash(c),
{
    c == '\\' || c == '/'
}

fn starts_with_drive(s: &[char]) -> (r: bool)
    ensures
        r == has_drive(s@),
{
    s.len() >= 2 && (('a' <= s[0] && s[0] <= 'z') || ('A' <= s[0] && s[0] <= 'Z')) && s[1] == ':'
}

fn named(kind: PrefixKind, first: Vec<char>, second: Vec<char>) -> (r: Prefix)
    ensures
        r@ == naming(kind, first@, second@),
{
    Prefix { kind, drive: 0, first, second }
}

fn driven(kind: PrefixKind, letter: char) -> (r: Prefix)
    ensures
        r@ == driving(kind, letter),
{
    let r = Prefix { kind, drive: lower_ascii(letter), first: Vec::new(), second: Vec::new() };
    assert(r@ =~= driving(kind, letter));
    r
}

fn verbatim_prefix_of(r: &[char]) -> (p: Prefix)
    ensures
        p@ == verbatim_prefix(r@),
{
    if r.len() >= 4 && r[0] == 'U' && r[1] == 'N' && r[2] == 'C' && slash(r[3]) {
        let q = vstd::slice::slice_subrange(r, 4, r.len());
        assert(q@ =~= r@.skip(4));
        let rest = tail_of(q);
        named(PrefixKind::VerbatimShare, head_of(q), head_of(rest.as_slice()))
    } else if starts_with_drive(r) && (r.len() == 2 || slash(r[2])) {
        driven(PrefixKind::VerbatimDisk, r[0])
    } else {
        let p = named(PrefixKind::Verbatim, head_of(r), Vec::new());
        assert(p@ =~= verbatim_prefix(r@));
        p
    }
}

fn prefix_of(s: &[char]) -> (p: Option<Prefix>)
    ensures
        prefix_view(p) == prefix(s@),
{
    if s.len() >= 4 && s[0] == '\\' && s[1] == '\\' && s[2] == '?' && s[3] == '\\' {
        let r = vstd::slice::slice_subrange(s, 4, s.len());
        assert(r@ =~= s@.skip(4));
        return Some(verbatim_prefix_of(r));
    }
    let all = back_slashes(s);
    let b = all.as_slice();
    if b.len() >= 4 && b[0] == '\\' && b[1] == '\\' && b[2] == '.' && b[3] == '\\' {
        let q = vstd::slice::slice_subrange(b, 4, b.len());
        assert(q@ =~= b@.skip(4));
        let p = named(PrefixKind::Device, head_of(q), Vec::new());
        assert(p@ =~= naming(PrefixKind::Device, head(q@), Seq::empty()));
        return Some(p);
    }
    if b.len() >= 2 && b[0] == '\\' && b[1] == '\\' {
        let q = vstd::slice::slice_subrange(b, 2, b.len());
        assert(q@ =~= b@.skip(2));
        let rest = tail_of(q);
        let (server, share) = (head_of(q), head_of(rest.as_slice()));
        if server.len() > 0 && share.len() > 0 {
            return Some(named(PrefixKind::Share, server, share));
        }
        return None;
    }
    if starts_with_drive(s) {
        Some(driven(PrefixKind::Disk, s[0]))
    } else {
        None
    }
}

proof fn lemma_pair(q: Seq<char>)
    ensures
        pair_len(head(q), head(tail(q))) <= q.len(),
        head(q).len() <= q.len(),
{
    lemma_find(q, '\\');
    lemma_find(tail(q), '\\');
}

proof fn lemma_prefix_len(s: Seq<char>)
    ensures
        prefix_len(prefix(s)) <= s.len(),
        names_at(s) <= s.len(),
{
    let b = backed(s);
    if is_verbatim(s) {
        let r = s.skip(4);
        lemma_pair(r);
        if r.len() >= 4 {
            lemma_pair(r.skip(4));
        }
    } else if b.len() >= 4 {
        lemma_pair(b.skip(4));
        lemma_pair(b.skip(2));
    } else if b.len() >= 2 {
        lemma_pair(b.skip(2));
    }
}

fn len_of(p: &Option<Prefix>, Ghost(s): Ghost<Seq<char>>, limit: usize) -> (n: usize)
    requires
        prefix_view(*p) == prefix(s),
        s.len() == limit,
    ensures
        n == prefix_len(prefix(s)),
        n <= limit,
{
    proof {
        lemma_prefix_len(s);
    }
    match p {
        None => 0,
        Some(p) => {
            match p.kind {
                PrefixKind::Disk => 2,
                PrefixKind::VerbatimDisk => 6,
                PrefixKind::Device | PrefixKind::Verbatim => 4 + p.first.len(),
                PrefixKind::Share => if p.second.len() > 0 {
                    2 + p.first.len() + 1 + p.second.len()
                } else {
                    2 + p.first.len()
                },
                PrefixKind::VerbatimShare => if p.second.len() > 0 {
                    8 + p.first.len() + 1 + p.second.len()
                } else {
                    8 + p.first.len()
                },
            }
        },
    }
}

fn is_strict(p: &Option<Prefix>) -> (r: bool)
    ensures
        r == strict(prefix_view(*p)),
{
    match p {
        None => false,
        Some(p) => match p.kind {
            PrefixKind::Verbatim | PrefixKind::VerbatimDisk | PrefixKind::VerbatimShare => true,
            _ => false,
        },
    }
}

/// A path that was read.
struct Parsed {
    prefix: Option<Prefix>,
    /// How many characters the prefix has, and where the names start.
    len: usize,
    at: usize,
    names: Vec<Vec<char>>,
}

fn parse(s: &[char]) -> (r: Parsed)
    ensures
        prefix_view(r.prefix) == prefix(s@),
        r.len == prefix_len(prefix(s@)),
        r.at == names_at(s@),
        r.at <= s@.len(),
        r.len <= r.at,
        views(r.names@) == names(s@),
{
    let p = prefix_of(s);
    let len: usize = len_of(&p, Ghost(s@), s.len());
    let at: usize = if len < s.len() && slash(s[len]) {
        len + 1
    } else {
        len
    };
    let dots: bool = is_strict(&p);
    let rest = vstd::slice::slice_subrange(s, at, s.len());
    assert(rest@ =~= s@.skip(at as int));
    let pieces = if dots {
        split_chars(rest, '\\')
    } else {
        let b = back_slashes(rest);
        split_chars(b.as_slice(), '\\')
    };
    let ghost all = views(pieces@);
    let first_dot: bool = at == 0;
    let mut out: Vec<Vec<char>> = Vec::new();
    let mut i: usize = 0;
    assert(views(out@) =~= kept(all, 0, dots, first_dot));
    while i < pieces.len()
        invariant
            i <= pieces@.len(),
            all == views(pieces@),
            views(out@) == kept(all, i as int, dots, first_dot),
        decreases pieces@.len() - i,
    {
        assert(all[i as int] == pieces@[i as int]@);
        let piece = pieces[i].as_slice();
        let dot: bool = piece.len() == 1 && piece[0] == '.';
        assert(dot == (piece@ =~= here()));
        if piece.len() > 0 && (!dot || dots || (first_dot && i == 0)) {
            let ghost before = views(out@);
            let copy = copy_chars(piece, 0, piece.len());
            assert(copy@ =~= piece@);
            out.push(copy);
            assert(views(out@) =~= before.push(piece@));
        }
        i += 1;
    }
    Parsed { prefix: p, len, at, names: out }
}

fn rooted(p: &Parsed, Ghost(s): Ghost<Seq<char>>) -> (r: bool)
    requires
        prefix_view(p.prefix) == prefix(s),
        p.len == prefix_len(prefix(s)),
        p.at == names_at(s),
    ensures
        r == has_root(s),
{
    p.at > p.len || match &p.prefix {
        Some(x) => x.kind == PrefixKind::Share || x.kind == PrefixKind::Device,
        None => false,
    }
}

fn same_prefix(a: &Option<Prefix>, b: &Option<Prefix>) -> (r: bool)
    ensures
        r == (prefix_view(*a) == prefix_view(*b)),
{
    match (a, b) {
        (None, None) => true,
        (Some(x), Some(y)) => {
            let r: bool = x.kind == y.kind && x.drive == y.drive && same_chars(
                x.first.as_slice(),
                y.first.as_slice(),
            ) && same_chars(x.second.as_slice(), y.second.as_slice());
            assert(r == (x@ =~= y@));
            r
        },
        _ => false,
    }
}

/// Whether two paths are in the same folder.
pub open spec fn beside(a: Seq<char>, b: Seq<char>) -> bool {
    parent(windows_path(b)) is Some && parent(windows_path(a)) == parent(windows_path(b))
}

/// Whether two paths are in the same folder.
pub fn are_beside(a: &str, b: &str) -> (r: bool)
    ensures
        r == beside(a@, b@),
{
    let x = chars_of(a);
    let y = chars_of(b);
    let p = parse(x.as_slice());
    let q = parse(y.as_slice());
    assert(names(a@).len() == p.names@.len() && names(b@).len() == q.names@.len());
    if p.names.len() == 0 || q.names.len() == 0 {
        return false;
    }
    let n: usize = p.names.len() - 1;
    let m: usize = q.names.len() - 1;
    assert(names(a@).drop_last() =~= views(p.names@).take(n as int));
    assert(names(b@).drop_last() =~= views(q.names@).take(m as int));
    n == m && same_prefix(&p.prefix, &q.prefix) && rooted(&p, Ghost(a@)) == rooted(&q, Ghost(b@))
        && agree_to(&p.names, &q.names, n)
}

/// Whether a text is a plain name: no drive and no slash in it, and neither `.`
/// nor `..`.
pub open spec fn is_plain(name: Seq<char>) -> bool {
    &&& name.len() > 0
    &&& name != here()
    &&& name != up()
    &&& forall|i: int| 0 <= i < name.len() ==> !is_slash(#[trigger] name[i]) && name[i] != ':'
}

/// Names with a backslash before each.
pub open spec fn spelled(names: Seq<Seq<char>>) -> Seq<char>
    decreases names.len(),
{
    if names.len() == 0 {
        Seq::empty()
    } else {
        spelled(names.drop_last()) + seq!['\\'] + names.last()
    }
}

/// A path with a plain name put behind it. A drive alone stands for the folder that
/// is current on it, so nothing comes between; behind a strict prefix the path is
/// spelled anew.
pub open spec fn joined(dir: Seq<char>, name: Seq<char>) -> Seq<char> {
    let p = prefix(dir);
    if strict(p) {
        dir.take(prefix_len(p) as int) + spelled(names(dir).push(name))
    } else if dir.len() == 0 || is_slash(dir.last()) || dir.len() == 2 && has_drive(dir) {
        dir + name
    } else {
        dir + seq!['\\'] + name
    }
}

fn push_names(r: &mut String, names: &Vec<Vec<char>>)
    ensures
        final(r)@ == old(r)@ + spelled(views(names@)),
{
    let ghost all = views(names@);
    let ghost start = r@;
    let mut i: usize = 0;
    assert(start + spelled(all.take(0)) =~= start);
    while i < names.len()
        invariant
            i <= names@.len(),
            all == views(names@),
            r@ == start + spelled(all.take(i as int)),
        decreases names@.len() - i,
    {
        let ghost was = r@;
        let piece = text_of(names[i].as_slice());
        r.push('\\');
        r.push_str(piece.as_str());
        assert(all.take(i + 1).drop_last() =~= all.take(i as int));
        assert(all.take(i + 1).last() == piece@);
        assert(r@ =~= start + spelled(all.take(i + 1)));
        i += 1;
    }
    assert(all.take(i as int) =~= all);
}

/// A path with a plain name put behind it.
pub fn join(dir: &str, name: &str) -> (r: String)
    requires
        is_plain(name@),
    ensures
        r@ == joined(dir@, name@),
{
    let d = chars_of(dir);
    let mut p = parse(d.as_slice());
    if is_strict(&p.prefix) {
        let mut r = text_of(vstd::slice::slice_subrange(d.as_slice(), 0, p.len));
        assert(r@ =~= dir@.take(p.len as int));
        let ghost before = views(p.names@);
        p.names.push(chars_of(name));
        assert(views(p.names@) =~= before.push(name@));
        push_names(&mut r, &p.names);
        return r;
    }
    let mut r = owned(dir);
    if !(d.len() == 0 || slash(d[d.len() - 1]) || (d.len() == 2 && starts_with_drive(
        d.as_slice(),
    ))) {
        r.push('\\');
        assert(r@ =~= dir@ + seq!['\\']);
    }
    r.push_str(name);
    r
}

/// Whether a character ends a name.
pub open spec fn cuts(c: char, strict: bool) -> bool {
    c == '\\' || !strict && c == '/'
}

/// A path's text without the slashes and `.` names that it ends in, from `at` on.
/// Behind a strict prefix `.` stays.
pub open spec fn trim_end(s: Seq<char>, at: nat, strict: bool) -> Seq<char>
    decreases s.len(),
{
    let n = s.len() as int;
    if n > at && (cuts(s[n - 1], strict) || !strict && s[n - 1] == '.' && n - 1 > at && cuts(
        s[n - 2],
        strict,
    )) {
        trim_end(s.drop_last(), at, strict)
    } else {
        s
    }
}

/// Where what follows the last slash starts, from `at` on.
pub open spec fn name_start(s: Seq<char>, at: nat, strict: bool) -> nat
    decreases s.len(),
{
    if s.len() <= at || cuts(s.last(), strict) {
        s.len()
    } else {
        name_start(s.drop_last(), at, strict)
    }
}

/// A path with another extension on its file name, or the path itself where it
/// names no file.
pub open spec fn with_extension(s: Seq<char>, ext: Seq<char>) -> Seq<char> {
    let v = strict(prefix(s));
    let t = trim_end(s, names_at(s), v);
    let k = name_start(t, names_at(s), v) as int;
    let name = t.skip(k);
    if name.len() > 0 && name != here() && name != up() {
        t.take(k) + file_stem(name) + seq!['.'] + ext
    } else {
        s
    }
}

fn cut(c: char, strict: bool) -> (r: bool)
    ensures
        r == cuts(c, strict),
{
    c == '\\' || (!strict && c == '/')
}

fn trim_end_of(s: &[char], at: usize, strict: bool) -> (n: usize)
    requires
        at <= s@.len(),
    ensures
        at <= n <= s@.len(),
        s@.take(n as int) == trim_end(s@, at as nat, strict),
{
    let mut n: usize = s.len();
    assert(s@.take(n as int) =~= s@);
    while n > at && (cut(s[n - 1], strict) || (!strict && s[n - 1] == '.' && n - 1 > at && cut(
        s[n - 2],
        strict,
    )))
        invariant
            at <= n <= s@.len(),
            trim_end(s@.take(n as int), at as nat, strict) == trim_end(s@, at as nat, strict),
        decreases n,
    {
        assert(s@.take(n as int).drop_last() =~= s@.take(n - 1));
        n -= 1;
    }
    n
}

fn name_start_of(s: &[char], at: usize, strict: bool) -> (k: usize)
    requires
        at <= s@.len(),
    ensures
        k == name_start(s@, at as nat, strict),
        k <= s@.len(),
{
    let mut k: usize = s.len();
    assert(s@.take(k as int) =~= s@);
    while k > at && !cut(s[k - 1], strict)
        invariant
            at <= k <= s@.len(),
            name_start(s@.take(k as int), at as nat, strict) == name_start(s@, at as nat, strict),
        decreases k,
    {
        assert(s@.take(k as int).drop_last() =~= s@.take(k - 1));
        k -= 1;
    }
    k
}

/// What stands before `k`, and the name from there on with another extension.
fn replaced(t: &[char], k: usize, ext: &str) -> (r: String)
    requires
        k <= t@.len(),
    ensures
        r@ == t@.take(k as int) + file_stem(t@.skip(k as int)) + seq!['.'] + ext@,
{
    let name = vstd::slice::slice_subrange(t, k, t.len());
    assert(name@ =~= t@.skip(k as int));
    let d: usize = last_dot_of(name);
    let stem: usize = if 0 < d && d < name.len() {
        d
    } else {
        name.len()
    };
    let mut r = text_of(vstd::slice::slice_subrange(t, 0, k + stem));
    assert(r@ =~= t@.take(k as int) + file_stem(name@));
    r.push('.');
    assert(r@ =~= t@.take(k as int) + file_stem(name@) + seq!['.']);
    r.push_str(ext);
    r
}

/// Whether what stands from `k` on names a file.
fn names_file(t: &[char], k: usize) -> (r: bool)
    requires
        k <= t@.len(),
    ensures
        r == ({
            let name = t@.skip(k as int);
            name.len() > 0 && name != here() && name != up()
        }),
{
    let name = vstd::slice::slice_subrange(t, k, t.len());
    assert(name@ =~= t@.skip(k as int));
    let dot: bool = name.len() == 1 && name[0] == '.';
    let dots: bool = name.len() == 2 && name[0] == '.' && name[1] == '.';
    assert(dot == (name@ =~= here()));
    assert(dots == (name@ =~= up()));
    name.len() > 0 && !dot && !dots
}

/// A path with another extension on its file name.
pub fn set_extension(s: &str, ext: &str) -> (r: String)
    ensures
        r@ == with_extension(s@, ext@),
{
    let chars = chars_of(s);
    let p = parse(chars.as_slice());
    let v: bool = is_strict(&p.prefix);
    let n: usize = trim_end_of(chars.as_slice(), p.at, v);
    let t = vstd::slice::slice_subrange(chars.as_slice(), 0, n);
    assert(t@ =~= chars@.take(n as int));
    let k: usize = name_start_of(t, p.at, v);
    if names_file(t, k) {
        replaced(t, k, ext)
    } else {
        owned(s)
    }
}

/// A path that starts with a letter and a colon is on that drive, whichever case the
/// letter has; its names start behind the slash.
pub proof fn law_letters_name_drives(c: char, slash: char, rest: Seq<char>)
    requires
        is_letter(c),
        is_slash(slash),
    ensures
        ({
            let s = seq![c, ':', slash] + rest;
            &&& prefix(s) == Some(
                PrefixView {
                    kind: PrefixKind::Disk,
                    drive: ascii_lower(c),
                    first: Seq::empty(),
                    second: Seq::empty(),
                },
            )
            &&& names_at(s) == 3
            &&& has_root(s)
            &&& names(s) == names(seq![c, ':', '\\'] + rest)
        }),
{
    let s = seq![c, ':', slash] + rest;
    let t = seq![c, ':', '\\'] + rest;
    assert(backed(s)[0] == c && backed(t)[0] == c);
    assert(s.skip(3) =~= rest && t.skip(3) =~= rest);
}

/// A name behind a path on a drive adds itself to the path's names, behind a slash of
/// either kind. An empty one and a single dot add nothing.
pub proof fn law_names_add_up(c: char, rest: Seq<char>, slash: char, name: Seq<char>)
    requires
        is_letter(c),
        is_slash(slash),
        !name.contains('\\'),
        !name.contains('/'),
    ensures
        ({
            let dir = seq![c, ':', '\\'] + rest;
            names(dir + seq![slash] + name) == (if name.len() == 0 || name == seq!['.'] {
                names(dir)
            } else {
                names(dir).push(name)
            })
        }),
{
    let dir = seq![c, ':', '\\'] + rest;
    let whole = dir + seq![slash] + name;
    let tail = rest + seq![slash] + name;
    law_letters_name_drives(c, '\\', rest);
    law_letters_name_drives(c, '\\', tail);
    assert(whole =~= seq![c, ':', '\\'] + tail);
    assert(dir.skip(3) =~= rest);
    assert(whole.skip(3) =~= tail);
    assert forall|i: int| 0 <= i < name.len() implies backed(name)[i] == name[i] by {
        assert(name.contains(name[i]));
    }
    assert(backed(name) =~= name);
    assert(backed(tail) =~= backed(rest) + seq!['\\'] + name);
    crate::text::lemma_split_push(backed(rest), '\\', name);
    let (a, b) = (split(backed(rest), '\\'), split(backed(tail), '\\'));
    let n = a.len() as int;
    assert(b =~= a.push(name));
    lemma_kept_front(a, b, n);
    assert(kept(b, n + 1, false, false) == if counts(name, n, false, false) {
        kept(b, n, false, false).push(name)
    } else {
        kept(b, n, false, false)
    });
}

proof fn lemma_kept_front(a: Seq<Seq<char>>, b: Seq<Seq<char>>, n: int)
    requires
        0 <= n <= a.len(),
        n <= b.len(),
        forall|i: int| 0 <= i < n ==> a[i] == b[i],
    ensures
        kept(a, n, false, false) == kept(b, n, false, false),
    decreases n,
{
    if n > 0 {
        lemma_kept_front(a, b, n - 1);
    }
}

/// Files of one folder are beside each other, and files of folders with other names
/// are not.
pub proof fn law_files_of_a_folder_are_beside_each_other(
    c: char,
    rest: Seq<char>,
    other: Seq<char>,
    a: Seq<char>,
    b: Seq<char>,
)
    requires
        is_letter(c),
        is_plain(a),
        is_plain(b),
        names(seq![c, ':', '\\'] + rest) != names(seq![c, ':', '\\'] + other),
    ensures
        beside(
            seq![c, ':', '\\'] + rest + seq!['\\'] + a,
            seq![c, ':', '\\'] + rest + seq!['\\'] + b,
        ),
        !beside(
            seq![c, ':', '\\'] + other + seq!['\\'] + a,
            seq![c, ':', '\\'] + rest + seq!['\\'] + b,
        ),
{
    lemma_plain_parts(a);
    lemma_plain_parts(b);
    lemma_on_drive(c, rest, a);
    lemma_on_drive(c, rest, b);
    lemma_on_drive(c, other, a);
}

proof fn lemma_plain_parts(a: Seq<char>)
    requires
        is_plain(a),
    ensures
        !a.contains('\\'),
        !a.contains('/'),
{
    if a.contains('\\') {
        let i = choose|i: int| 0 <= i < a.len() && a[i] == '\\';
        assert(!is_slash(a[i]));
    }
    if a.contains('/') {
        let i = choose|i: int| 0 <= i < a.len() && a[i] == '/';
        assert(!is_slash(a[i]));
    }
}

proof fn lemma_on_drive(c: char, rest: Seq<char>, a: Seq<char>)
    requires
        is_letter(c),
        is_plain(a),
        !a.contains('\\'),
        !a.contains('/'),
    ensures
        ({
            let dir = seq![c, ':', '\\'] + rest;
            let p = windows_path(dir + seq!['\\'] + a);
            &&& p.names == names(dir).push(a)
            &&& p.prefix == prefix(dir)
            &&& p.root
            &&& p.names.drop_last() == names(dir)
        }),
{
    let dir = seq![c, ':', '\\'] + rest;
    law_names_add_up(c, rest, '\\', a);
    law_letters_name_drives(c, '\\', rest);
    law_letters_name_drives(c, '\\', rest + seq!['\\'] + a);
    assert(dir + seq!['\\'] + a =~= seq![c, ':', '\\'] + (rest + seq!['\\'] + a));
    assert(names(dir).push(a).drop_last() =~= names(dir));
}

/// A name put behind a path on a drive stands in the path's folder.
pub proof fn law_joined_names_stand_in_the_folder(c: char, rest: Seq<char>, name: Seq<char>)
    requires
        is_letter(c),
        is_plain(name),
    ensures
        names(joined(seq![c, ':', '\\'] + rest, name)) == names(seq![c, ':', '\\'] + rest).push(
            name,
        ),
{
    let dir = seq![c, ':', '\\'] + rest;
    lemma_plain_parts(name);
    law_letters_name_drives(c, '\\', rest);
    if is_slash(dir.last()) {
        lemma_behind_slash(c, rest, name);
    } else {
        law_names_add_up(c, rest, '\\', name);
    }
}

proof fn lemma_behind_slash(c: char, rest: Seq<char>, name: Seq<char>)
    requires
        is_letter(c),
        is_plain(name),
        !name.contains('\\'),
        !name.contains('/'),
        is_slash((seq![c, ':', '\\'] + rest).last()),
    ensures
        names(seq![c, ':', '\\'] + rest + name) == names(seq![c, ':', '\\'] + rest).push(name),
{
    let head = seq![c, ':', '\\'];
    let e = Seq::<char>::empty();
    if rest.len() > 0 {
        let r = rest.drop_last();
        let slash = rest.last();
        law_names_add_up(c, r, slash, name);
        law_names_add_up(c, r, slash, e);
        assert(head + r + seq![slash] + name =~= head + rest + name);
        assert(head + r + seq![slash] + e =~= head + rest);
    } else {
        law_letters_name_drives(c, '\\', name);
        law_letters_name_drives(c, '\\', e);
        assert(head + rest + name =~= head + name);
        assert(head + rest =~= head + e);
        assert((head + name).skip(3) =~= name);
        assert((head + e).skip(3) =~= e);
        assert forall|i: int| 0 <= i < name.len() implies backed(name)[i] == name[i] by {
            assert(name.contains(name[i]));
        }
        assert(backed(name) =~= name);
        assert(backed(e) =~= e);
        crate::text::law_pieces_stand_between_separators(name, '\\', e);
        crate::text::law_pieces_stand_between_separators(e, '\\', e);
        assert(kept(seq![name], 1, false, false) =~= kept(seq![name], 0, false, false).push(name));
        assert(kept(seq![e], 1, false, false) =~= kept(seq![e], 0, false, false));
    }
}

} // verus!
