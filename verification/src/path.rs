//! Paths with forward slashes, as sequences of components. Those of Windows are in
//! [`crate::path_windows`].
//!
//! Two paths are the same when their components are: slashes in a row, a slash at
//! the end and `.` components (but for one that a relative path starts with) make
//! no difference.

use crate::text::{chars_of, copy_chars, same_chars, split, split_chars, text_of, views};
use vstd::prelude::*;

verus! {

/// The root.
pub open spec fn root() -> Seq<char> {
    seq!['/']
}

/// The current directory.
pub open spec fn here() -> Seq<char> {
    seq!['.']
}

/// The parent directory.
pub open spec fn up() -> Seq<char> {
    seq!['.', '.']
}

/// Whether the `i`th piece between slashes is a component.
pub open spec fn counts(piece: Seq<char>, i: int) -> bool {
    piece.len() > 0 && (piece != here() || i == 0)
}

/// The components among the first `n` pieces.
pub open spec fn kept(pieces: Seq<Seq<char>>, n: int) -> Seq<Seq<char>>
    decreases n,
{
    if n <= 0 {
        Seq::empty()
    } else if counts(pieces[n - 1], n - 1) {
        kept(pieces, n - 1).push(pieces[n - 1])
    } else {
        kept(pieces, n - 1)
    }
}

/// The components of a path. An absolute path's first one is the root.
pub open spec fn components(s: Seq<char>) -> Seq<Seq<char>> {
    let pieces = split(s, '/');
    let names = kept(pieces, pieces.len() as int);
    if is_absolute(s) {
        seq![root()] + names
    } else {
        names
    }
}

/// Whether a path starts at the root.
pub open spec fn is_absolute(s: Seq<char>) -> bool {
    s.len() > 0 && s[0] == '/'
}

/// The components with slashes between them.
pub open spec fn path_text(c: Seq<Seq<char>>) -> Seq<char>
    decreases c.len(),
{
    if c.len() == 0 {
        Seq::empty()
    } else if c.len() == 1 {
        c[0]
    } else if c.len() == 2 && c[0] == root() {
        c[0] + c[1]
    } else {
        path_text(c.drop_last()) + root() + c.last()
    }
}

/// Whether a component names a file: not the root, `.` or `..`.
pub open spec fn is_name(c: Seq<char>) -> bool {
    c != root() && c != here() && c != up()
}

/// The last component, where it names a file.
pub open spec fn file_name(c: Seq<Seq<char>>) -> Option<Seq<char>> {
    if c.len() > 0 && is_name(c.last()) {
        Some(c.last())
    } else {
        None
    }
}

/// The path without its last component. The root and the empty path have none.
pub open spec fn parent(c: Seq<Seq<char>>) -> Option<Seq<Seq<char>>> {
    if c.len() > 0 && c.last() != root() {
        Some(c.drop_last())
    } else {
        None
    }
}

/// Whether a path leads through another.
pub open spec fn within(c: Seq<Seq<char>>, base: Seq<Seq<char>>) -> bool {
    base.len() <= c.len() && c.take(base.len() as int) == base
}

/// The components of a path.
pub fn components_of(s: &[char]) -> (out: Vec<Vec<char>>)
    ensures
        views(out@) == components(s@),
{
    let pieces = split_chars(s, '/');
    let ghost all = split(s@, '/');
    let mut out: Vec<Vec<char>> = Vec::new();
    let absolute: bool = s.len() > 0 && s[0] == '/';
    let ghost front = if absolute {
        seq![root()]
    } else {
        Seq::empty()
    };
    if absolute {
        let slash: Vec<char> = vec!['/'];
        assert(slash@ =~= root());
        out.push(slash);
    }
    assert(views(out@) =~= front + kept(all, 0));
    let mut i: usize = 0;
    while i < pieces.len()
        invariant
            i <= pieces@.len(),
            all == views(pieces@),
            views(out@) == front + kept(all, i as int),
        decreases pieces@.len() - i,
    {
        assert(all[i as int] == pieces@[i as int]@);
        let p = pieces[i].as_slice();
        let dot: bool = p.len() == 1 && p[0] == '.';
        assert(dot == (p@ =~= here()));
        if p.len() > 0 && (!dot || i == 0) {
            let ghost before = views(out@);
            let piece = copy_chars(p, 0, p.len());
            assert(piece@ =~= p@);
            out.push(piece);
            assert(views(out@) =~= before.push(p@));
            assert(front + kept(all, i + 1) =~= before.push(p@));
        }
        i += 1;
    }
    out
}

/// Whether two component lists agree up to `n`.
pub fn agree_to(a: &Vec<Vec<char>>, b: &Vec<Vec<char>>, n: usize) -> (r: bool)
    requires
        n <= a@.len(),
        n <= b@.len(),
    ensures
        r == (views(a@).take(n as int) == views(b@).take(n as int)),
{
    let mut i: usize = 0;
    while i < n
        invariant
            i <= n <= a@.len(),
            n <= b@.len(),
            forall|j: int| 0 <= j < i ==> a@[j]@ == b@[j]@,
        decreases n - i,
    {
        if !same_chars(a[i].as_slice(), b[i].as_slice()) {
            assert(views(a@).take(n as int)[i as int] == a@[i as int]@);
            assert(views(b@).take(n as int)[i as int] == b@[i as int]@);
            return false;
        }
        i += 1;
    }
    assert(views(a@).take(n as int) =~= views(b@).take(n as int));
    true
}

/// Whether the path of components `c` leads through that of `base`.
pub fn leads_through(c: &Vec<Vec<char>>, base: &Vec<Vec<char>>) -> (r: bool)
    ensures
        r == within(views(c@), views(base@)),
{
    if base.len() > c.len() {
        return false;
    }
    assert(views(base@).take(base@.len() as int) =~= views(base@));
    agree_to(c, base, base.len())
}

/// Whether two paths are the same.
pub fn same_path(a: &Vec<Vec<char>>, b: &Vec<Vec<char>>) -> (r: bool)
    ensures
        r == (views(a@) == views(b@)),
{
    if a.len() != b.len() {
        assert(views(a@).len() == a@.len() && views(b@).len() == b@.len());
        return false;
    }
    assert(views(a@).take(a@.len() as int) =~= views(a@));
    assert(views(b@).take(b@.len() as int) =~= views(b@));
    agree_to(a, b, a.len())
}

/// Whether a component names a file.
pub fn names_file(c: &[char]) -> (r: bool)
    ensures
        r == is_name(c@),
{
    let slash: bool = c.len() == 1 && c[0] == '/';
    let dot: bool = c.len() == 1 && c[0] == '.';
    let dots: bool = c.len() == 2 && c[0] == '.' && c[1] == '.';
    assert(slash == (c@ =~= root()));
    assert(dot == (c@ =~= here()));
    assert(dots == (c@ =~= up()));
    !slash && !dot && !dots
}

/// The file name of a path.
pub fn file_name_of(s: &[char]) -> (r: Option<Vec<char>>)
    ensures
        match r {
            Some(n) => file_name(components(s@)) == Some(n@),
            None => file_name(components(s@)) is None,
        },
{
    let mut c = components_of(s);
    let ghost all = components(s@);
    assert(all.len() == c@.len());
    match c.pop() {
        Some(last) => {
            assert(all.last() == last@);
            if names_file(last.as_slice()) {
                Some(last)
            } else {
                None
            }
        },
        None => None,
    }
}

/// Where the last dot is, or the length.
pub open spec fn last_dot(s: Seq<char>) -> nat
    decreases s.len(),
{
    if s.len() == 0 {
        0
    } else if s.last() == '.' {
        (s.len() - 1) as nat
    } else if last_dot(s.drop_last()) == s.len() - 1 {
        s.len()
    } else {
        last_dot(s.drop_last())
    }
}

proof fn lemma_last_dot(s: Seq<char>)
    ensures
        last_dot(s) <= s.len(),
    decreases s.len(),
{
    if s.len() > 0 {
        lemma_last_dot(s.drop_last());
    }
}

/// A file name's extension: what follows the last dot, unless the dot comes
/// first.
pub open spec fn extension(name: Seq<char>) -> Option<Seq<char>> {
    let k = last_dot(name) as int;
    if 0 < k < name.len() {
        Some(name.skip(k + 1))
    } else {
        None
    }
}

/// A file name without its extension.
pub open spec fn file_stem(name: Seq<char>) -> Seq<char> {
    let k = last_dot(name) as int;
    if 0 < k < name.len() {
        name.take(k)
    } else {
        name
    }
}

/// Where the last dot is, or the length.
pub fn last_dot_of(s: &[char]) -> (k: usize)
    ensures
        k == last_dot(s@),
        k <= s@.len(),
{
    let mut n: usize = s.len();
    assert(s@.take(n as int) =~= s@);
    while n > 0
        invariant
            n <= s@.len(),
            last_dot(s@) == (if last_dot(s@.take(n as int)) == n {
                s@.len()
            } else {
                last_dot(s@.take(n as int))
            }),
        decreases n,
    {
        assert(s@.take(n as int).drop_last() =~= s@.take(n - 1));
        assert(s@.take(n as int).last() == s@[n - 1]);
        proof {
            lemma_last_dot(s@.take(n - 1));
        }
        if s[n - 1] == '.' {
            return n - 1;
        }
        n -= 1;
    }
    s.len()
}

/// A path with a name put behind it.
pub open spec fn joined(base: Seq<char>, name: Seq<char>) -> Seq<char> {
    if is_absolute(name) {
        name
    } else if base.len() == 0 || base.last() == '/' {
        base + name
    } else {
        base + root() + name
    }
}

/// A path with a name put behind it.
pub fn join(base: &str, name: &str) -> (r: String)
    ensures
        r@ == joined(base@, name@),
{
    let b = chars_of(base);
    let n = chars_of(name);
    if n.len() > 0 && n[0] == '/' {
        return crate::text::owned(name);
    }
    let mut r = crate::text::owned(base);
    if b.len() > 0 && b[b.len() - 1] != '/' {
        r.push('/');
        assert(r@ =~= base@ + root());
    }
    r.push_str(name);
    r
}

/// The text of the first `n` components.
pub fn text_of_components(c: &Vec<Vec<char>>, n: usize) -> (r: String)
    requires
        n <= c@.len(),
    ensures
        r@ == path_text(views(c@).take(n as int)),
    decreases n,
{
    let ghost all = views(c@).take(n as int);
    if n == 0 {
        return String::new();
    }
    assert(all.last() == c@[n - 1]@);
    if n == 1 {
        return text_of(c[0].as_slice());
    }
    let slash: bool = c[0].len() == 1 && c[0][0] == '/';
    assert(slash == (c@[0]@ =~= root()));
    assert(all[0] == c@[0]@);
    let last = text_of(c[n - 1].as_slice());
    if n == 2 && slash {
        let mut r = text_of(c[0].as_slice());
        r.push_str(last.as_str());
        return r;
    }
    assert(all.drop_last() =~= views(c@).take(n - 1));
    let mut r = text_of_components(c, n - 1);
    let ghost front = r@;
    r.push('/');
    assert(r@ =~= front + root());
    r.push_str(last.as_str());
    r
}

/// A path's text without the slashes and `.` components that it ends in.
pub open spec fn trim_end(s: Seq<char>) -> Seq<char>
    decreases s.len(),
{
    let n = s.len() as int;
    if n > 1 && (s[n - 1] == '/' || s[n - 1] == '.' && s[n - 2] == '/') {
        trim_end(s.drop_last())
    } else {
        s
    }
}

/// Where what follows the last slash starts.
pub open spec fn name_start(s: Seq<char>) -> nat
    decreases s.len(),
{
    if s.len() == 0 || s.last() == '/' {
        s.len()
    } else {
        name_start(s.drop_last())
    }
}

/// A path with another extension on its file name, or the path itself where it
/// names no file.
pub open spec fn with_extension(s: Seq<char>, ext: Seq<char>) -> Seq<char> {
    let t = trim_end(s);
    let name = t.skip(name_start(t) as int);
    if name.len() > 0 && name != here() && name != up() {
        t.take(name_start(t) as int) + file_stem(name) + seq!['.'] + ext
    } else {
        s
    }
}

/// The text of a path's parent. The root and the empty path have none.
pub open spec fn parent_text(s: Seq<char>) -> Option<Seq<char>> {
    let t = trim_end(s);
    if t.len() == 0 || t == root() {
        None
    } else {
        Some(trim_end(t.take(name_start(t) as int)))
    }
}

fn trim_end_of(s: &[char]) -> (n: usize)
    ensures
        n <= s@.len(),
        s@.take(n as int) == trim_end(s@),
{
    let mut n: usize = s.len();
    assert(s@.take(n as int) =~= s@);
    while n > 1 && (s[n - 1] == '/' || s[n - 1] == '.' && s[n - 2] == '/')
        invariant
            n <= s@.len(),
            trim_end(s@.take(n as int)) == trim_end(s@),
        decreases n,
    {
        assert(s@.take(n as int).drop_last() =~= s@.take(n - 1));
        n -= 1;
    }
    n
}

fn name_start_of(s: &[char]) -> (k: usize)
    ensures
        k == name_start(s@),
        k <= s@.len(),
{
    let mut k: usize = s.len();
    assert(s@.take(k as int) =~= s@);
    while k > 0 && s[k - 1] != '/'
        invariant
            k <= s@.len(),
            name_start(s@.take(k as int)) == name_start(s@),
        decreases k,
    {
        assert(s@.take(k as int).drop_last() =~= s@.take(k - 1));
        k -= 1;
    }
    k
}

/// A path with another extension on its file name.
pub fn set_extension(s: &str, ext: &str) -> (r: String)
    ensures
        r@ == with_extension(s@, ext@),
{
    let chars = chars_of(s);
    let n: usize = trim_end_of(chars.as_slice());
    let t = vstd::slice::slice_subrange(chars.as_slice(), 0, n);
    assert(t@ =~= trim_end(s@));
    let at: usize = name_start_of(t);
    let name = vstd::slice::slice_subrange(t, at, t.len());
    assert(name@ =~= t@.skip(at as int));
    let slash: bool = name.len() == 1 && name[0] == '/';
    assert(slash == (name@ =~= root()));
    if name.len() == 0 || slash || !names_file(name) {
        proof {
            lemma_no_slash(t@);
        }
        return crate::text::owned(s);
    }
    let k: usize = last_dot_of(name);
    let stem: usize = if 0 < k && k < name.len() {
        k
    } else {
        name.len()
    };
    let mut r = text_of(vstd::slice::slice_subrange(t, 0, at + stem));
    assert(r@ =~= t@.take(at as int) + file_stem(name@));
    r.push('.');
    assert(r@ =~= t@.take(at as int) + file_stem(name@) + seq!['.']);
    r.push_str(ext);
    r
}

proof fn lemma_no_slash(s: Seq<char>)
    ensures
        name_start(s) <= s.len(),
        s.skip(name_start(s) as int) != root(),
    decreases s.len(),
{
    assert(root().len() == 1 && root().last() == '/');
    let k = name_start(s) as int;
    if s.len() > 0 && s.last() != '/' {
        lemma_no_slash(s.drop_last());
        assert(s.skip(k).last() == s.last());
    } else {
        assert(s.skip(k).len() == 0);
    }
}

/// The text of a path's parent.
pub fn parent_of(s: &str) -> (r: Option<String>)
    ensures
        crate::text::text_view(r) == parent_text(s@),
{
    let chars = chars_of(s);
    let n: usize = trim_end_of(chars.as_slice());
    let t = vstd::slice::slice_subrange(chars.as_slice(), 0, n);
    assert(t@ =~= trim_end(s@));
    let slash: bool = t.len() == 1 && t[0] == '/';
    assert(slash == (t@ =~= root()));
    if t.len() == 0 || slash {
        return None;
    }
    let at: usize = name_start_of(t);
    let front = vstd::slice::slice_subrange(t, 0, at);
    assert(front@ =~= t@.take(at as int));
    let m: usize = trim_end_of(front);
    let r = text_of(vstd::slice::slice_subrange(front, 0, m));
    assert(r@ =~= trim_end(front@));
    Some(r)
}

/// A name behind a path adds itself to the path's components. An empty one and a
/// single dot add nothing.
pub proof fn law_names_add_components(s: Seq<char>, name: Seq<char>)
    requires
        s.len() > 0,
        !name.contains('/'),
    ensures
        components(s + seq!['/'] + name) == (if name.len() == 0 || name == seq!['.'] {
            components(s)
        } else {
            components(s).push(name)
        }),
{
    let t = s + seq!['/'] + name;
    crate::text::lemma_split_push(s, '/', name);
    let (a, b) = (split(s, '/'), split(t, '/'));
    let n = a.len() as int;
    lemma_split_some(s);
    lemma_kept_front(a, b, n);
    assert(b[n] == name);
    assert(t[0] == s[0]);
    assert(kept(b, n + 1) == if counts(name, n) {
        kept(b, n).push(name)
    } else {
        kept(b, n)
    });
    if name.len() > 0 && name != here() {
        assert((seq![root()] + kept(a, n)).push(name) =~= seq![root()] + kept(a, n).push(name));
    }
}

proof fn lemma_split_some(s: Seq<char>)
    ensures
        split(s, '/').len() >= 1,
{
    crate::text::lemma_find(s, '/');
}

proof fn lemma_kept_front(a: Seq<Seq<char>>, b: Seq<Seq<char>>, n: int)
    requires
        0 <= n <= a.len(),
        n <= b.len(),
        forall|i: int| 0 <= i < n ==> a[i] == b[i],
    ensures
        kept(a, n) == kept(b, n),
    decreases n,
{
    if n > 0 {
        lemma_kept_front(a, b, n - 1);
    }
}

/// A path that begins with a slash begins at the root, and no other does.
pub proof fn law_absolute_paths_begin_at_the_root(s: Seq<char>)
    ensures
        s.len() > 0 && s[0] == '/' ==> components(s).len() > 0 && components(s)[0] == seq!['/'],
        is_absolute(s) == (s.len() > 0 && s[0] == '/'),
        components(Seq::empty()).len() == 0,
{
    let e = Seq::<char>::empty();
    crate::text::law_pieces_stand_between_separators(e, '/', e);
    assert(split(e, '/')[0] == e);
    assert(kept(split(e, '/'), 1) == kept(split(e, '/'), 0));
}

/// Whether a text is one plain name.
pub open spec fn is_plain(name: Seq<char>) -> bool {
    name.len() > 0 && !name.contains('/') && name != here() && name != up()
}

proof fn lemma_name_start(dir: Seq<char>, name: Seq<char>)
    requires
        dir.len() > 0 ==> dir.last() == '/',
        !name.contains('/'),
    ensures
        name_start(dir + name) == dir.len(),
    decreases name.len(),
{
    let s = dir + name;
    if name.len() > 0 {
        let n = name.drop_last();
        assert(name.contains(name.last()));
        assert forall|c: char| n.contains(c) implies name.contains(c) by {
            let i = choose|i: int| 0 <= i < n.len() && n[i] == c;
            assert(name[i] == c);
        }
        assert(s.drop_last() =~= dir + n);
        lemma_name_start(dir, n);
    } else {
        assert(s =~= dir);
    }
}

proof fn lemma_plain_end(dir: Seq<char>, name: Seq<char>)
    requires
        dir.len() > 0 ==> dir.last() == '/',
        is_plain(name),
    ensures
        trim_end(dir + name) == dir + name,
        name_start(dir + name) == dir.len(),
        (dir + name).skip(dir.len() as int) == name,
        (dir + name).take(dir.len() as int) == dir,
{
    let s = dir + name;
    lemma_name_start(dir, name);
    assert(name.contains(name.last()));
    assert(s.last() == name.last());
    let n = s.len() as int;
    if name.len() == 1 {
        assert(name =~= seq![name[0]]);
    } else {
        assert(s[n - 2] == name[name.len() - 2]);
        assert(name.contains(name[name.len() - 2]));
    }
    assert(s.skip(dir.len() as int) =~= name);
    assert(s.take(dir.len() as int) =~= dir);
}

/// The folder of a file is what stands before its name: the path without the slash,
/// the root, or nothing.
pub proof fn law_files_stand_in_their_folder(dir: Seq<char>, name: Seq<char>)
    requires
        is_plain(name),
        dir.len() > 0,
        dir.last() != '/',
        !(dir.len() > 1 && dir.last() == '.' && dir[dir.len() - 2] == '/'),
    ensures
        parent_text(dir + seq!['/'] + name) == Some(dir),
        parent_text(seq!['/'] + name) == Some(seq!['/']),
        parent_text(name) == Some(Seq::<char>::empty()),
        parent_text(seq!['/']) is None,
{
    let base = dir + seq!['/'];
    lemma_plain_end(base, name);
    assert(base.drop_last() =~= dir);
    assert(base.last() == '/');
    assert(base.len() > 1);
    assert(trim_end(base) == trim_end(dir));
    assert(dir + seq!['/'] + name =~= base + name);
    assert((base + name).len() > 1);
    lemma_plain_end(seq!['/'], name);
    assert((seq!['/'] + name).len() > 1);
    assert(seq!['/'] + name != root());
    let e = Seq::<char>::empty();
    lemma_plain_end(e, name);
    assert(e + name =~= name);
    assert(name.contains(name[0]));
    assert(name != root());
}

proof fn lemma_dot_before(stem: Seq<char>, ext: Seq<char>)
    requires
        !ext.contains('.'),
    ensures
        last_dot(stem + seq!['.'] + ext) == stem.len(),
    decreases ext.len(),
{
    let s = stem + seq!['.'] + ext;
    if ext.len() > 0 {
        let e = ext.drop_last();
        assert(ext.contains(ext.last()));
        assert forall|c: char| e.contains(c) implies ext.contains(c) by {
            let i = choose|i: int| 0 <= i < e.len() && e[i] == c;
            assert(ext[i] == c);
        }
        assert(s.drop_last() =~= stem + seq!['.'] + e);
        lemma_dot_before(stem, e);
    } else {
        assert(s.last() == '.');
    }
}

proof fn lemma_no_dot(name: Seq<char>)
    requires
        !name.contains('.'),
    ensures
        last_dot(name) == name.len(),
    decreases name.len(),
{
    if name.len() > 0 {
        let n = name.drop_last();
        assert(name.contains(name.last()));
        assert forall|c: char| n.contains(c) implies name.contains(c) by {
            let i = choose|i: int| 0 <= i < n.len() && n[i] == c;
            assert(name[i] == c);
        }
        lemma_no_dot(n);
    }
}

/// The extension of a name follows its last dot; a name without a dot has none, nor
/// has one whose only dot comes first.
pub proof fn law_extensions_follow_the_last_dot(stem: Seq<char>, ext: Seq<char>)
    requires
        !ext.contains('.'),
    ensures
        stem.len() > 0 ==> extension(stem + seq!['.'] + ext) == Some(ext) && file_stem(
            stem + seq!['.'] + ext,
        ) == stem,
        extension(ext) is None,
        extension(seq!['.'] + ext) is None,
        file_stem(ext) == ext,
{
    let s = stem + seq!['.'] + ext;
    lemma_dot_before(stem, ext);
    lemma_no_dot(ext);
    lemma_dot_before(Seq::empty(), ext);
    assert(Seq::<char>::empty() + seq!['.'] + ext =~= seq!['.'] + ext);
    assert(s.skip(stem.len() as int + 1) =~= ext);
    assert(s.take(stem.len() as int) =~= stem);
}

/// Setting the extension of a file replaces the one that it has, or adds one, and
/// leaves its folder alone.
pub proof fn law_extensions_are_replaced(
    dir: Seq<char>,
    stem: Seq<char>,
    old_ext: Seq<char>,
    ext: Seq<char>,
)
    requires
        dir.len() > 0 ==> dir.last() == '/',
        is_plain(stem),
        !stem.contains('.'),
        !old_ext.contains('.'),
        !old_ext.contains('/'),
    ensures
        with_extension(dir + stem + seq!['.'] + old_ext, ext) == dir + stem + seq!['.'] + ext,
        with_extension(dir + stem, ext) == dir + stem + seq!['.'] + ext,
{
    let name = stem + seq!['.'] + old_ext;
    assert(!name.contains('/')) by {
        if name.contains('/') {
            let i = choose|i: int| 0 <= i < name.len() && name[i] == '/';
            if i < stem.len() {
                assert(stem.contains(stem[i]));
            } else if i > stem.len() {
                assert(old_ext.contains(old_ext[i - stem.len() - 1]));
            }
        }
    }
    assert(stem.contains(stem[0]));
    assert(name[0] == stem[0] && stem[0] != '.');
    assert(is_plain(name));
    law_extensions_follow_the_last_dot(stem, old_ext);
    law_extensions_follow_the_last_dot(stem, stem);
    lemma_with_extension(dir, name, ext);
    lemma_with_extension(dir, stem, ext);
    assert(dir + stem + seq!['.'] + old_ext =~= dir + name);
}

proof fn lemma_with_extension(dir: Seq<char>, name: Seq<char>, ext: Seq<char>)
    requires
        dir.len() > 0 ==> dir.last() == '/',
        is_plain(name),
    ensures
        with_extension(dir + name, ext) == dir + file_stem(name) + seq!['.'] + ext,
{
    lemma_plain_end(dir, name);
}

/// The text of a path has its components: a path from the root on, of names alone,
/// reads back from its text.
pub proof fn law_paths_read_back(names: Seq<Seq<char>>)
    requires
        forall|i: int| 0 <= i < names.len() ==> is_plain(#[trigger] names[i]),
    ensures
        components(path_text(seq![seq!['/']] + names)) == seq![seq!['/']] + names,
        path_text(seq![seq!['/']] + names).len() > 0,
    decreases names.len(),
{
    let r = seq!['/'];
    let c = seq![r] + names;
    let e = Seq::<char>::empty();
    if names.len() == 0 {
        assert(path_text(c) == r);
        crate::text::law_pieces_stand_between_separators(e, '/', e);
        assert(e + r + e =~= r);
        assert(split(r, '/') =~= seq![e, e]);
        assert(kept(split(r, '/'), 2) == kept(split(r, '/'), 1));
        assert(kept(split(r, '/'), 1) == kept(split(r, '/'), 0));
        assert(seq![r] + Seq::<Seq<char>>::empty() =~= c);
    } else {
        let front = names.drop_last();
        let n = names.last();
        assert(is_plain(names[names.len() - 1]));
        assert forall|i: int| 0 <= i < front.len() implies is_plain(#[trigger] front[i]) by {
            assert(front[i] == names[i]);
        }
        law_paths_read_back(front);
        let d = seq![r] + front;
        assert(c.drop_last() =~= d);
        assert(d.push(n) =~= c);
        let text = path_text(d);
        law_names_add_components(text, n);
        if names.len() == 1 {
            assert(path_text(c) == r + n);
            assert(front =~= Seq::empty());
            assert(d =~= seq![r]);
            assert(text == r);
            crate::text::law_pieces_stand_between_separators(e, '/', n);
            crate::text::law_pieces_stand_between_separators(n, '/', e);
            assert(e + r + n =~= r + n);
            let p = split(r + n, '/');
            assert(p =~= seq![e, n]);
            assert(kept(p, 1) == kept(p, 0));
            assert(kept(p, 2) =~= seq![n]);
            assert(components(r + n) =~= c);
        } else {
            assert(path_text(c) == text + root() + n);
            assert(root() =~= r);
        }
    }
}

} // verus!
