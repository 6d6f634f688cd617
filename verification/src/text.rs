//! Text as a sequence of characters: splitting, trimming, numbers.

use vstd::prelude::*;

verus! {

/// `String::push` appends one character.
pub assume_specification[ String::push ](s: &mut String, c: char)
    ensures
        final(s)@ == old(s)@.push(c),
;

/// `String::push_str` appends a string.
pub assume_specification[ String::push_str ](s: &mut String, more: &str)
    ensures
        final(s)@ == old(s)@ + more@,
;

/// The characters of a string.
pub fn chars_of(s: &str) -> (out: Vec<char>)
    ensures
        out@ == s@,
{
    broadcast use {vstd::string::axiom_spec_iter, vstd::string::next_postcondition};

    let mut out: Vec<char> = Vec::new();
    for c in it: s.chars()
        invariant
            out@ == it.seq().take(it.index()),
            it.seq() == s@,
    {
        out.push(c);
    }
    assert(out@ =~= s@);
    out
}

/// A string of the given characters.
pub fn text_of(s: &[char]) -> (out: String)
    ensures
        out@ == s@,
{
    let mut out = String::new();
    let mut i: usize = 0;
    while i < s.len()
        invariant
            i <= s@.len(),
            out@ == s@.take(i as int),
        decreases s@.len() - i,
    {
        out.push(s[i]);
        i += 1;
        assert(s@.take(i as int) =~= s@.take(i - 1).push(s@[i - 1]));
    }
    assert(s@.take(i as int) =~= s@);
    out
}

/// An owned copy of a string.
pub fn owned(s: &str) -> (out: String)
    ensures
        out@ == s@,
{
    let mut out = String::new();
    out.push_str(s);
    assert(out@ =~= s@);
    out
}

/// Whether two strings are equal.
pub fn same(a: &str, b: &str) -> (r: bool)
    ensures
        r == (a@ == b@),
{
    let x = chars_of(a);
    let y = chars_of(b);
    same_chars(x.as_slice(), y.as_slice())
}

/// Whether two character sequences are equal.
pub fn same_chars(a: &[char], b: &[char]) -> (r: bool)
    ensures
        r == (a@ == b@),
{
    if a.len() != b.len() {
        return false;
    }
    let mut i: usize = 0;
    while i < a.len()
        invariant
            i <= a@.len(),
            a@.len() == b@.len(),
            forall|j: int| 0 <= j < i ==> a@[j] == b@[j],
        decreases a@.len() - i,
    {
        if a[i] != b[i] {
            assert(a@[i as int] != b@[i as int]);
            return false;
        }
        i += 1;
    }
    assert(a@ =~= b@);
    true
}

/// Whether a character has Unicode's `White_Space` property.
pub open spec fn is_white(c: char) -> bool {
    let n = c as u32;
    ||| 9 <= n <= 13
    ||| n == 0x20
    ||| n == 0x85
    ||| n == 0xa0
    ||| n == 0x1680
    ||| 0x2000 <= n <= 0x200a
    ||| n == 0x2028
    ||| n == 0x2029
    ||| n == 0x202f
    ||| n == 0x205f
    ||| n == 0x3000
}

/// Whether a character is white space.
pub fn white(c: char) -> (r: bool)
    ensures
        r == is_white(c),
{
    let n: u32 = c as u32;
    (9 <= n && n <= 13) || n == 0x20 || n == 0x85 || n == 0xa0 || n == 0x1680 || (0x2000 <= n && n
        <= 0x200a) || n == 0x2028 || n == 0x2029 || n == 0x202f || n == 0x205f || n == 0x3000
}

/// `s` without the white space that it starts with.
pub open spec fn trim_start(s: Seq<char>) -> Seq<char>
    decreases s.len(),
{
    if s.len() > 0 && is_white(s[0]) {
        trim_start(s.drop_first())
    } else {
        s
    }
}

/// `s` without the white space that it ends with.
pub open spec fn trim_end(s: Seq<char>) -> Seq<char>
    decreases s.len(),
{
    if s.len() > 0 && is_white(s.last()) {
        trim_end(s.drop_last())
    } else {
        s
    }
}

/// `s` without white space at either end.
pub open spec fn trimmed(s: Seq<char>) -> Seq<char> {
    trim_end(trim_start(s))
}

/// Where the text starts, past white space.
fn skip_white(s: &[char]) -> (i: usize)
    ensures
        i <= s@.len(),
        s@.skip(i as int) == trim_start(s@),
        i == s@.len() || !is_white(s@[i as int]),
{
    let mut i: usize = 0;
    assert(s@.skip(0) =~= s@);
    while i < s.len() && white(s[i])
        invariant
            i <= s@.len(),
            trim_start(s@.skip(i as int)) == trim_start(s@),
        decreases s@.len() - i,
    {
        assert(s@.skip(i as int).drop_first() =~= s@.skip(i + 1));
        i += 1;
    }
    i
}

/// The text without white space at either end.
pub fn trim_chars(s: &[char]) -> (r: &[char])
    ensures
        r@ == trimmed(s@),
{
    let from: usize = skip_white(s);
    let mid = vstd::slice::slice_subrange(s, from, s.len());
    assert(mid@ =~= s@.skip(from as int));
    let mut n: usize = mid.len();
    assert(mid@.take(n as int) =~= mid@);
    while n > 0 && white(mid[n - 1])
        invariant
            n <= mid@.len(),
            trim_end(mid@.take(n as int)) == trim_end(mid@),
        decreases n,
    {
        assert(mid@.take(n as int).drop_last() =~= mid@.take(n - 1));
        assert(mid@.take(n as int).last() == mid@[n - 1]);
        n -= 1;
    }
    proof {
        if n > 0 {
            assert(mid@.take(n as int).last() == mid@[n - 1]);
        }
    }
    let r = vstd::slice::slice_subrange(mid, 0, n);
    assert(r@ =~= mid@.take(n as int));
    r
}

/// The position of the first `c` in `s`, or the length where there is none.
pub open spec fn find(s: Seq<char>, c: char) -> nat
    decreases s.len(),
{
    if s.len() == 0 || s[0] == c {
        0
    } else {
        1 + find(s.drop_first(), c)
    }
}

pub proof fn lemma_find(s: Seq<char>, c: char)
    ensures
        find(s, c) <= s.len(),
        find(s, c) < s.len() ==> s[find(s, c) as int] == c,
        forall|j: int| 0 <= j < find(s, c) ==> s[j] != c,
        (find(s, c) < s.len()) == s.contains(c),
    decreases s.len(),
{
    if s.len() > 0 && s[0] != c {
        lemma_find(s.drop_first(), c);
        let k = find(s.drop_first(), c);
        assert forall|j: int| 0 <= j < 1 + k implies s[j] != c by {
            if j > 0 {
                assert(s[j] == s.drop_first()[j - 1]);
            }
        }
        if s.contains(c) {
            let j = choose|j: int| 0 <= j < s.len() && s[j] == c;
            assert(s.drop_first()[j - 1] == c);
        }
    } else if s.len() > 0 {
        assert(s[0] == c);
    }
}

/// The first position of a character, or the length.
pub fn find_char(s: &[char], c: char) -> (i: usize)
    ensures
        i == find(s@, c),
        i <= s@.len(),
{
    let mut i: usize = 0;
    assert(s@.skip(0) =~= s@);
    while i < s.len() && s[i] != c
        invariant
            i <= s@.len(),
            find(s@, c) == i + find(s@.skip(i as int), c),
        decreases s@.len() - i,
    {
        assert(s@.skip(i as int).drop_first() =~= s@.skip(i + 1));
        i += 1;
    }
    i
}

/// The pieces of `s` between the separators: one more than there are separators.
pub open spec fn split(s: Seq<char>, sep: char) -> Seq<Seq<char>>
    decreases s.len(),
    via split_decreases
{
    let i = find(s, sep);
    if i >= s.len() {
        seq![s]
    } else {
        seq![s.take(i as int)] + split(s.skip(i as int + 1), sep)
    }
}

#[via_fn]
proof fn split_decreases(s: Seq<char>, sep: char) {
    lemma_find(s, sep);
}

/// A line without the carriage return before its end.
pub open spec fn strip_cr(s: Seq<char>) -> Seq<char> {
    if s.len() > 0 && s.last() == '\r' {
        s.drop_last()
    } else {
        s
    }
}

/// The lines of `s`. Each ends at a line feed, and at the carriage return before
/// it; what follows the last line feed is a line where it is not empty.
pub open spec fn lines(s: Seq<char>) -> Seq<Seq<char>>
    decreases s.len(),
    via lines_decreases
{
    let i = find(s, '\n');
    if s.len() == 0 {
        Seq::empty()
    } else if i >= s.len() {
        seq![s]
    } else {
        seq![strip_cr(s.take(i as int))] + lines(s.skip(i as int + 1))
    }
}

#[via_fn]
proof fn lines_decreases(s: Seq<char>) {
    lemma_find(s, '\n');
}

/// The length of the run without white space at the start of `s`.
pub open spec fn word_len(s: Seq<char>) -> nat
    decreases s.len(),
{
    if s.len() == 0 || is_white(s[0]) {
        0
    } else {
        1 + word_len(s.drop_first())
    }
}

pub proof fn lemma_trim_start_len(s: Seq<char>)
    ensures
        trim_start(s).len() <= s.len(),
        trim_start(s).len() > 0 ==> !is_white(trim_start(s)[0]),
    decreases s.len(),
{
    if s.len() > 0 && is_white(s[0]) {
        lemma_trim_start_len(s.drop_first());
    }
}

pub proof fn lemma_word_len(s: Seq<char>)
    ensures
        word_len(s) <= s.len(),
        s.len() > 0 && !is_white(s[0]) ==> word_len(s) > 0,
        word_len(s) < s.len() ==> is_white(s[word_len(s) as int]),
    decreases s.len(),
{
    if s.len() > 0 && !is_white(s[0]) {
        lemma_word_len(s.drop_first());
    }
}

/// The words of `s`: its runs without white space.
pub open spec fn words(s: Seq<char>) -> Seq<Seq<char>>
    decreases s.len(),
    via words_decreases
{
    let t = trim_start(s);
    if t.len() == 0 {
        Seq::empty()
    } else {
        seq![t.take(word_len(t) as int)] + words(t.skip(word_len(t) as int))
    }
}

#[via_fn]
proof fn words_decreases(s: Seq<char>) {
    lemma_trim_start_len(s);
    lemma_word_len(trim_start(s));
}

/// The character sequences of a run of them.
pub open spec fn views(parts: Seq<Vec<char>>) -> Seq<Seq<char>> {
    parts.map_values(|p: Vec<char>| p@)
}

/// The text of an optional string slice.
pub open spec fn str_view(s: Option<&str>) -> Option<Seq<char>> {
    match s {
        Some(s) => Some(s@),
        None => None,
    }
}

/// The text of an optional string.
pub open spec fn text_view(s: Option<String>) -> Option<Seq<char>> {
    match s {
        Some(s) => Some(s@),
        None => None,
    }
}

/// The texts of strings.
pub open spec fn texts(v: Seq<String>) -> Seq<Seq<char>> {
    v.map_values(|s: String| s@)
}

/// A copy of strings.
pub fn copy_texts(v: &Vec<String>) -> (r: Vec<String>)
    ensures
        r@ == v@,
{
    let mut r: Vec<String> = Vec::new();
    let mut i: usize = 0;
    while i < v.len()
        invariant
            i <= v@.len(),
            r@ == v@.take(i as int),
        decreases v@.len() - i,
    {
        r.push(v[i].clone());
        i += 1;
        assert(r@ =~= v@.take(i as int));
    }
    assert(v@.take(v@.len() as int) =~= v@);
    r
}

/// A copy of part of a character sequence.
pub fn copy_chars(s: &[char], from: usize, to: usize) -> (out: Vec<char>)
    requires
        from <= to <= s@.len(),
    ensures
        out@ == s@.subrange(from as int, to as int),
{
    let mut out: Vec<char> = Vec::new();
    let mut i: usize = from;
    while i < to
        invariant
            from <= i <= to <= s@.len(),
            out@ == s@.subrange(from as int, i as int),
        decreases to - i,
    {
        out.push(s[i]);
        i += 1;
        assert(s@.subrange(from as int, i as int) =~= s@.subrange(from as int, i - 1).push(
            s@[i - 1],
        ));
    }
    out
}

/// The pieces between separators.
pub fn split_chars(s: &[char], sep: char) -> (parts: Vec<Vec<char>>)
    ensures
        views(parts@) == split(s@, sep),
{
    let mut out: Vec<Vec<char>> = Vec::new();
    let mut at: usize = 0;
    assert(s@.skip(0) =~= s@);
    assert(views(out@) + split(s@, sep) =~= split(s@, sep));
    loop
        invariant
            at <= s@.len(),
            views(out@) + split(s@.skip(at as int), sep) == split(s@, sep),
        decreases s@.len() - at,
    {
        let rest = vstd::slice::slice_subrange(s, at, s.len());
        let ghost done = views(out@);
        assert(rest@ =~= s@.skip(at as int));
        let i: usize = find_char(rest, sep);
        let piece = copy_chars(rest, 0, i);
        assert(piece@ =~= rest@.take(i as int));
        out.push(piece);
        assert(views(out@) =~= done.push(piece@));
        if i == rest.len() {
            assert(rest@.take(i as int) =~= rest@);
            assert(done + seq![rest@] =~= done.push(rest@));
            return out;
        }
        proof {
            let tail = split(rest@.skip(i + 1), sep);
            assert(rest@.skip(i + 1) =~= s@.skip(at + i + 1));
            assert(done + (seq![piece@] + tail) =~= done.push(piece@) + tail);
        }
        at += i + 1;
    }
}

/// The lines of a text.
pub fn lines_of(s: &[char]) -> (parts: Vec<Vec<char>>)
    ensures
        views(parts@) == lines(s@),
{
    let mut out: Vec<Vec<char>> = Vec::new();
    let mut at: usize = 0;
    assert(s@.skip(0) =~= s@);
    assert(views(out@) + lines(s@) =~= lines(s@));
    while at < s.len()
        invariant
            at <= s@.len(),
            views(out@) + lines(s@.skip(at as int)) == lines(s@),
        decreases s@.len() - at,
    {
        let rest = vstd::slice::slice_subrange(s, at, s.len());
        let ghost done = views(out@);
        assert(rest@ =~= s@.skip(at as int));
        let i: usize = find_char(rest, '\n');
        if i == rest.len() {
            let piece = copy_chars(rest, 0, i);
            assert(piece@ =~= rest@);
            out.push(piece);
            assert(views(out@) =~= done + seq![rest@]);
            return out;
        }
        let end: usize = if i > 0 && rest[i - 1] == '\r' {
            i - 1
        } else {
            i
        };
        let piece = copy_chars(rest, 0, end);
        assert(piece@ =~= strip_cr(rest@.take(i as int)));
        out.push(piece);
        proof {
            let tail = lines(rest@.skip(i + 1));
            assert(rest@.skip(i + 1) =~= s@.skip(at + i + 1));
            assert(views(out@) =~= done.push(piece@));
            assert(done + (seq![piece@] + tail) =~= done.push(piece@) + tail);
        }
        at += i + 1;
    }
    assert(views(out@) + Seq::<Seq<char>>::empty() =~= views(out@));
    out
}

/// The words of a text.
pub fn words_of(s: &[char]) -> (parts: Vec<Vec<char>>)
    ensures
        views(parts@) == words(s@),
{
    let mut out: Vec<Vec<char>> = Vec::new();
    let mut at: usize = 0;
    assert(s@.skip(0) =~= s@);
    assert(views(out@) + words(s@) =~= words(s@));
    loop
        invariant
            at <= s@.len(),
            views(out@) + words(s@.skip(at as int)) == words(s@),
        decreases s@.len() - at,
    {
        let rest = vstd::slice::slice_subrange(s, at, s.len());
        let ghost done = views(out@);
        assert(rest@ =~= s@.skip(at as int));
        let from: usize = skip_white(rest);
        if from == rest.len() {
            assert(done + Seq::<Seq<char>>::empty() =~= done);
            return out;
        }
        let ghost t = trim_start(rest@);
        let mut n: usize = from;
        assert(t.skip(0) =~= t);
        while n < rest.len() && !white(rest[n])
            invariant
                from <= n <= rest@.len(),
                t == rest@.skip(from as int),
                word_len(t) == n - from + word_len(t.skip(n - from)),
            decreases rest@.len() - n,
        {
            assert(t.skip(n - from).drop_first() =~= t.skip(n + 1 - from));
            n += 1;
        }
        proof {
            lemma_word_len(t);
        }
        let piece = copy_chars(rest, from, n);
        assert(piece@ =~= t.take(word_len(t) as int));
        out.push(piece);
        proof {
            let tail = words(t.skip(n - from));
            assert(t.skip(n - from) =~= s@.skip(at + n));
            assert(views(out@) =~= done.push(piece@));
            assert(done + (seq![piece@] + tail) =~= done.push(piece@) + tail);
        }
        at += n;
    }
}

/// Whether `s` starts with `p`.
pub open spec fn has_prefix(s: Seq<char>, p: Seq<char>) -> bool {
    p.len() <= s.len() && s.take(p.len() as int) == p
}

/// Whether `s` ends with `p`.
pub open spec fn has_suffix(s: Seq<char>, p: Seq<char>) -> bool {
    p.len() <= s.len() && s.skip(s.len() - p.len()) == p
}

/// Whether `p` occurs in `s`.
pub open spec fn has_part(s: Seq<char>, p: Seq<char>) -> bool {
    exists|i: int| 0 <= i <= s.len() - p.len() && #[trigger] s.subrange(i, i + p.len()) == p
}

/// Where `p` first occurs in `s`, or the length where it does not. `p` is not
/// empty.
pub open spec fn find_text(s: Seq<char>, p: Seq<char>) -> nat
    decreases s.len(),
{
    if s.len() == 0 || has_prefix(s, p) {
        0
    } else {
        1 + find_text(s.drop_first(), p)
    }
}

/// Where a text first holds another, or the length.
pub fn find_in(s: &[char], p: &[char]) -> (i: usize)
    ensures
        i == find_text(s@, p@),
        i <= s@.len(),
        i < s@.len() ==> i + p@.len() <= s@.len(),
{
    let mut i: usize = 0;
    assert(s@.skip(0) =~= s@);
    while i < s.len()
        invariant
            i <= s@.len(),
            find_text(s@, p@) == i + find_text(s@.skip(i as int), p@),
        decreases s@.len() - i,
    {
        let rest = vstd::slice::slice_subrange(s, i, s.len());
        assert(rest@ =~= s@.skip(i as int));
        if starts_with(rest, p) {
            return i;
        }
        assert(s@.skip(i as int).drop_first() =~= s@.skip(i + 1));
        i += 1;
    }
    i
}

/// What follows a prefix.
pub open spec fn after_prefix(s: Seq<char>, p: Seq<char>) -> Option<Seq<char>> {
    if has_prefix(s, p) {
        Some(s.skip(p.len() as int))
    } else {
        None
    }
}

/// What precedes a suffix.
pub open spec fn before_suffix(s: Seq<char>, p: Seq<char>) -> Option<Seq<char>> {
    if has_suffix(s, p) {
        Some(s.take(s.len() - p.len()))
    } else {
        None
    }
}

/// What follows a prefix.
pub fn strip_prefix<'a>(s: &'a [char], p: &str) -> (r: Option<&'a [char]>)
    ensures
        match r {
            Some(t) => after_prefix(s@, p@) == Some(t@),
            None => after_prefix(s@, p@) is None,
        },
{
    let c = chars_of(p);
    if starts_with(s, c.as_slice()) {
        let t = vstd::slice::slice_subrange(s, c.len(), s.len());
        assert(t@ =~= s@.skip(p@.len() as int));
        Some(t)
    } else {
        None
    }
}

/// What precedes a suffix.
pub fn strip_suffix<'a>(s: &'a [char], p: &str) -> (r: Option<&'a [char]>)
    ensures
        match r {
            Some(t) => before_suffix(s@, p@) == Some(t@),
            None => before_suffix(s@, p@) is None,
        },
{
    let c = chars_of(p);
    if ends_with(s, c.as_slice()) {
        let t = vstd::slice::slice_subrange(s, 0, s.len() - c.len());
        assert(t@ =~= s@.take(s@.len() - p@.len()));
        Some(t)
    } else {
        None
    }
}

/// `std::str::from_utf8` takes the bytes for UTF-8, and succeeds where they are.
#[verifier::external_body]
pub(crate) fn utf8_text(v: &[u8]) -> (r: Option<String>)
    ensures
        match r {
            Some(s) => vstd::utf8::valid_utf8(v@) && s@ == vstd::utf8::decode_utf8(v@),
            None => !vstd::utf8::valid_utf8(v@),
        },
{
    std::str::from_utf8(v).ok().map(str::to_owned)
}

/// `String::from_utf8_lossy`'s result.
pub uninterp spec fn utf8_lossy(v: Seq<u8>) -> Seq<char>;

/// `String::from_utf8_lossy` takes the bytes for UTF-8 and puts a replacement
/// character for what is not, which depends on the bytes alone. UTF-8 is taken as
/// it is.
#[verifier::external_body]
pub(crate) fn lossy_text(v: &[u8]) -> (r: String)
    ensures
        r@ == utf8_lossy(v@),
        vstd::utf8::valid_utf8(v@) ==> r@ == vstd::utf8::decode_utf8(v@),
{
    String::from_utf8_lossy(v).into_owned()
}

/// Whether a text starts with another.
pub fn starts_with(s: &[char], p: &[char]) -> (r: bool)
    ensures
        r == has_prefix(s@, p@),
{
    if p.len() > s.len() {
        return false;
    }
    let head = vstd::slice::slice_subrange(s, 0, p.len());
    assert(head@ =~= s@.take(p@.len() as int));
    same_chars(head, p)
}

/// Whether a text ends with another.
pub fn ends_with(s: &[char], p: &[char]) -> (r: bool)
    ensures
        r == has_suffix(s@, p@),
{
    if p.len() > s.len() {
        return false;
    }
    let tail = vstd::slice::slice_subrange(s, s.len() - p.len(), s.len());
    assert(tail@ =~= s@.skip(s@.len() - p@.len()));
    same_chars(tail, p)
}

/// Whether a text holds another.
pub fn contains_text(s: &[char], p: &[char]) -> (r: bool)
    ensures
        r == has_part(s@, p@),
{
    if p.len() > s.len() {
        return false;
    }
    let mut i: usize = 0;
    loop
        invariant
            i <= s@.len() - p@.len(),
            forall|j: int| 0 <= j < i ==> #[trigger] s@.subrange(j, j + p@.len()) != p@,
        decreases s@.len() - i,
    {
        assert(s.len() as nat == s@.len());
        let part = vstd::slice::slice_subrange(s, i, i + p.len());
        if same_chars(part, p) {
            assert(s@.subrange(i as int, i + p@.len()) == p@);
            return true;
        }
        if i == s.len() - p.len() {
            return false;
        }
        i += 1;
    }
}

/// Whether a character is a decimal digit.
pub open spec fn is_digit(c: char) -> bool {
    '0' as u32 <= c as u32 <= '9' as u32
}

/// The number that decimal digits spell.
pub open spec fn dec_value(s: Seq<char>) -> nat
    decreases s.len(),
{
    if s.len() == 0 {
        0
    } else {
        10 * dec_value(s.drop_last()) + (s.last() as u32 - '0' as u32) as nat
    }
}

/// The decimal digits of a number.
pub open spec fn dec_text(n: nat) -> Seq<char>
    decreases n,
{
    if n < 10 {
        seq![('0' as u32 + n) as char]
    } else {
        dec_text(n / 10).push(('0' as u32 + n % 10) as char)
    }
}

/// Whether every character is a decimal digit.
pub open spec fn is_digits(s: Seq<char>) -> bool {
    forall|i: int| 0 <= i < s.len() ==> is_digit(#[trigger] s[i])
}

/// `s` without the plus sign that it starts with.
pub open spec fn unsigned(s: Seq<char>) -> Seq<char> {
    if s.len() > 0 && s[0] == '+' {
        s.drop_first()
    } else {
        s
    }
}

/// The number that `s` spells, at most `max`: decimal digits, one or more, with
/// or without a plus sign before them.
pub open spec fn parsed_dec(s: Seq<char>, max: nat) -> Option<nat> {
    let d = unsigned(s);
    if d.len() > 0 && is_digits(d) && dec_value(d) <= max {
        Some(dec_value(d))
    } else {
        None
    }
}

pub proof fn lemma_dec_value_grows(s: Seq<char>, i: int)
    requires
        0 <= i <= s.len(),
        is_digits(s),
    ensures
        dec_value(s.take(i)) <= dec_value(s),
    decreases s.len() - i,
{
    if i < s.len() {
        lemma_dec_value_grows(s, i + 1);
        assert(s.take(i + 1).drop_last() =~= s.take(i));
        assert(is_digit(s[i]));
    } else {
        assert(s.take(i) =~= s);
    }
}

/// Whether a character is a decimal digit.
pub fn digit(c: char) -> (r: bool)
    ensures
        r == is_digit(c),
{
    let n: u32 = c as u32;
    48 <= n && n <= 57
}

/// Whether every character is a decimal digit.
pub fn all_digits(d: &[char]) -> (r: bool)
    ensures
        r == is_digits(d@),
{
    let mut k: usize = 0;
    while k < d.len()
        invariant
            k <= d@.len(),
            forall|j: int| 0 <= j < k ==> is_digit(#[trigger] d@[j]),
        decreases d@.len() - k,
    {
        if !digit(d[k]) {
            assert(!is_digit(d@[k as int]));
            return false;
        }
        k += 1;
    }
    true
}

/// The number that digits spell, where it is at most `max`.
fn digits_value(d: &[char], max: u64) -> (r: Option<u64>)
    requires
        is_digits(d@),
    ensures
        match r {
            Some(v) => v == dec_value(d@) && v <= max,
            None => dec_value(d@) > max,
        },
{
    let mut v: u64 = 0;
    let mut i: usize = 0;
    while i < d.len()
        invariant
            i <= d@.len(),
            is_digits(d@),
            v == dec_value(d@.take(i as int)),
            v <= max,
        decreases d@.len() - i,
    {
        assert(is_digit(d@[i as int]));
        let digit: u64 = (d[i] as u32 - 48) as u64;
        proof {
            assert(d@.take(i + 1).drop_last() =~= d@.take(i as int));
            lemma_dec_value_grows(d@, i + 1);
        }
        let next: u128 = v as u128 * 10 + digit as u128;
        if next > max as u128 {
            return None;
        }
        v = next as u64;
        i += 1;
    }
    assert(d@.take(i as int) =~= d@);
    Some(v)
}

/// Reads a decimal number of at most `max`.
pub fn parse_dec(s: &[char], max: u64) -> (r: Option<u64>)
    ensures
        match r {
            Some(v) => parsed_dec(s@, max as nat) == Some(v as nat) && v <= max,
            None => parsed_dec(s@, max as nat) is None,
        },
{
    let from: usize = if s.len() > 0 && s[0] == '+' {
        1
    } else {
        0
    };
    let d = vstd::slice::slice_subrange(s, from, s.len());
    assert(d@ =~= unsigned(s@));
    if d.len() == 0 || !all_digits(d) {
        return None;
    }
    digits_value(d, max)
}

pub proof fn lemma_dec_text(n: nat)
    ensures
        dec_text(n).len() > 0,
        is_digits(dec_text(n)),
        dec_value(dec_text(n)) == n,
    decreases n,
{
    if n < 10 {
        assert(dec_text(n).drop_last() =~= Seq::empty());
        assert(dec_value(Seq::<char>::empty()) == 0);
    } else {
        lemma_dec_text(n / 10);
        assert(dec_text(n).drop_last() =~= dec_text(n / 10));
    }
}

/// A number's decimal text reads as the number.
pub proof fn law_decimal_round_trip(n: nat, max: nat)
    requires
        n <= max,
    ensures
        parsed_dec(dec_text(n), max) == Some(n),
{
    lemma_dec_text(n);
    assert(is_digit(dec_text(n)[0]));
}

/// The character of a decimal digit.
pub fn digit_char(d: u8) -> (c: char)
    requires
        d < 10,
    ensures
        c == ('0' as u32 + d) as char,
{
    (48 + d) as char
}

/// Appends a number in decimal.
pub fn push_dec(out: &mut String, n: u64)
    ensures
        final(out)@ == old(out)@ + dec_text(n as nat),
    decreases n,
{
    if n >= 10 {
        push_dec(out, n / 10);
        out.push(digit_char((n % 10) as u8));
        assert(out@ =~= old(out)@ + dec_text(n as nat));
    } else {
        out.push(digit_char(n as u8));
        assert(out@ =~= old(out)@ + dec_text(n as nat));
    }
}

/// A letter in lower case, where it is one of the first 128 characters.
pub open spec fn ascii_lower(c: char) -> u32 {
    if 'A' <= c <= 'Z' {
        (c as u32 + 32) as u32
    } else {
        c as u32
    }
}

/// Whether two texts are the same but for the case of ASCII letters.
pub open spec fn same_ascii(a: Seq<char>, b: Seq<char>) -> bool {
    a.len() == b.len() && forall|i: int|
        0 <= i < a.len() ==> ascii_lower(#[trigger] a[i]) == ascii_lower(b[i])
}

/// A letter in lower case, where it is one of the first 128 characters.
pub fn lower_ascii(c: char) -> (r: u32)
    ensures
        r == ascii_lower(c),
{
    if 'A' <= c && c <= 'Z' {
        c as u32 + 32
    } else {
        c as u32
    }
}

/// Whether two texts are the same but for the case of ASCII letters.
pub fn same_letters(a: &[char], b: &[char]) -> (r: bool)
    ensures
        r == same_ascii(a@, b@),
{
    if a.len() != b.len() {
        return false;
    }
    let mut i: usize = 0;
    while i < a.len()
        invariant
            i <= a@.len(),
            a@.len() == b@.len(),
            forall|j: int| 0 <= j < i ==> ascii_lower(#[trigger] a@[j]) == ascii_lower(b@[j]),
        decreases a@.len() - i,
    {
        if lower_ascii(a[i]) != lower_ascii(b[i]) {
            assert(ascii_lower(a@[i as int]) != ascii_lower(b@[i as int]));
            return false;
        }
        i += 1;
    }
    true
}

/// Whether every character is white space.
pub open spec fn all_white(s: Seq<char>) -> bool {
    forall|i: int| 0 <= i < s.len() ==> is_white(#[trigger] s[i])
}

proof fn lemma_trim_start(s: Seq<char>) -> (a: Seq<char>)
    ensures
        s == a + trim_start(s),
        all_white(a),
        trim_start(s).len() > 0 ==> !is_white(trim_start(s)[0]),
    decreases s.len(),
{
    if s.len() > 0 && is_white(s[0]) {
        let a = lemma_trim_start(s.drop_first());
        let b = seq![s[0]] + a;
        assert(s =~= seq![s[0]] + s.drop_first());
        assert(seq![s[0]] + (a + trim_start(s.drop_first())) =~= b + trim_start(s));
        assert forall|i: int| 0 <= i < b.len() implies is_white(#[trigger] b[i]) by {
            if i > 0 {
                assert(b[i] == a[i - 1]);
            }
        }
        b
    } else {
        assert(s =~= Seq::<char>::empty() + s);
        Seq::empty()
    }
}

proof fn lemma_trim_end(s: Seq<char>) -> (b: Seq<char>)
    ensures
        s == trim_end(s) + b,
        all_white(b),
        trim_end(s).len() > 0 ==> !is_white(trim_end(s).last()),
    decreases s.len(),
{
    if s.len() > 0 && is_white(s.last()) {
        let b = lemma_trim_end(s.drop_last());
        let c = b.push(s.last());
        assert(s =~= s.drop_last().push(s.last()));
        assert((trim_end(s.drop_last()) + b).push(s.last()) =~= trim_end(s) + c);
        c
    } else {
        assert(s =~= s + Seq::<char>::empty());
        Seq::empty()
    }
}

/// Trimming takes white space from both ends of a text, all of it and nothing else.
pub proof fn law_trimming_takes_white_space(s: Seq<char>) -> (r: (Seq<char>, Seq<char>))
    ensures
        s == r.0 + trimmed(s) + r.1,
        all_white(r.0),
        all_white(r.1),
        trimmed(s).len() > 0 ==> !is_white(trimmed(s)[0]) && !is_white(trimmed(s).last()),
{
    let a = lemma_trim_start(s);
    let t = trim_start(s);
    let b = lemma_trim_end(t);
    assert(s =~= a + trimmed(s) + b);
    if trimmed(s).len() > 0 {
        assert(trimmed(s)[0] == t[0]);
    }
    (a, b)
}

/// A text without white space at its ends is trimmed already.
pub proof fn law_trimmed_texts_stay(s: Seq<char>)
    requires
        s.len() > 0 ==> !is_white(s[0]) && !is_white(s.last()),
    ensures
        trimmed(s) == s,
{
}

/// White space is what a blank, a tab, a line feed and a carriage return are, and
/// what no letter, digit or mark of ASCII is.
pub proof fn law_white_space_is_not_text(c: char)
    ensures
        is_white(' ') && is_white('\t') && is_white('\n') && is_white('\r'),
        '!' as u32 <= c as u32 <= '~' as u32 ==> !is_white(c),
{
}

/// The lines of a text are what stands between its line feeds, without the carriage
/// return before one; nothing follows the last line feed.
pub proof fn law_lines_end_at_line_feeds(l: Seq<char>, rest: Seq<char>)
    requires
        !l.contains('\n'),
    ensures
        lines(l + seq!['\n'] + rest) == seq![
            if l.len() > 0 && l.last() == '\r' {
                l.drop_last()
            } else {
                l
            },
        ] + lines(rest),
        l.len() > 0 ==> lines(l) == seq![l],
        lines(Seq::<char>::empty()).len() == 0,
{
    let s = l + seq!['\n'] + rest;
    lemma_find(s, '\n');
    lemma_find(l, '\n');
    let k = l.len() as int;
    assert(s[k] == '\n');
    assert forall|j: int| 0 <= j < k implies s[j] != '\n' by {
        assert(s[j] == l[j]);
        assert(l.contains(l[j]));
    }
    assert(find(s, '\n') == k);
    assert(s.take(k) =~= l);
    assert(s.skip(k + 1) =~= rest);
}

/// Splitting a text gives the pieces between its separators.
pub proof fn law_pieces_stand_between_separators(a: Seq<char>, sep: char, rest: Seq<char>)
    requires
        !a.contains(sep),
    ensures
        split(a, sep) == seq![a],
        split(a + seq![sep] + rest, sep) == seq![a] + split(rest, sep),
{
    let s = a + seq![sep] + rest;
    let k = a.len() as int;
    lemma_find(a, sep);
    lemma_find(s, sep);
    assert(s[k] == sep);
    assert forall|j: int| 0 <= j < k implies s[j] != sep by {
        assert(s[j] == a[j]);
        assert(a.contains(a[j]));
    }
    assert(find(s, sep) == k);
    assert(s.take(k) =~= a);
    assert(s.skip(k + 1) =~= rest);
}

/// A number is written with its most significant digit first and without leading
/// zeros.
pub proof fn law_digits_stand_in_order(n: nat, d: nat)
    requires
        d < 10,
    ensures
        dec_text(d) == seq![('0' as u32 + d) as char],
        n > 0 ==> dec_text(10 * n + d) == dec_text(n).push(('0' as u32 + d) as char),
        n > 0 ==> dec_text(n)[0] != '0',
    decreases n,
{
    if n > 0 {
        assert((10 * n + d) / 10 == n);
        assert((10 * n + d) % 10 == d);
        if n >= 10 {
            law_digits_stand_in_order(n / 10, n % 10);
            lemma_dec_text(n / 10);
        }
    }
}

/// Words stand between white space.
pub proof fn law_words_stand_between_white_space(before: Seq<char>, w: Seq<char>, rest: Seq<char>)
    requires
        all_white(before),
        w.len() > 0,
        forall|i: int| 0 <= i < w.len() ==> !is_white(#[trigger] w[i]),
        rest.len() > 0 ==> is_white(rest[0]),
    ensures
        words(before + w + rest) == seq![w] + words(rest),
        words(before).len() == 0,
    decreases before.len(),
{
    let s = before + w + rest;
    if before.len() > 0 {
        let b = before.drop_first();
        assert(is_white(before[0]));
        assert forall|i: int| 0 <= i < b.len() implies is_white(#[trigger] b[i]) by {
            assert(b[i] == before[i + 1]);
        }
        assert(s[0] == before[0]);
        assert(s.drop_first() =~= b + w + rest);
        law_words_stand_between_white_space(b, w, rest);
        assert(trim_start(s) == trim_start(b + w + rest));
        assert(trim_start(before) == trim_start(b));
    } else {
        assert(s =~= w + rest);
        assert(!is_white(w[0]));
        lemma_word_ends(w, rest);
        assert(s.take(w.len() as int) =~= w);
        assert(s.skip(w.len() as int) =~= rest);
    }
}

proof fn lemma_word_ends(w: Seq<char>, rest: Seq<char>)
    requires
        forall|i: int| 0 <= i < w.len() ==> !is_white(#[trigger] w[i]),
        rest.len() > 0 ==> is_white(rest[0]),
    ensures
        word_len(w + rest) == w.len(),
    decreases w.len(),
{
    let s = w + rest;
    if w.len() > 0 {
        let t = w.drop_first();
        assert(!is_white(w[0]));
        assert forall|i: int| 0 <= i < t.len() implies !is_white(#[trigger] t[i]) by {
            assert(t[i] == w[i + 1]);
        }
        assert(s.drop_first() =~= t + rest);
        lemma_word_ends(t, rest);
    } else {
        assert(s =~= rest);
    }
}

/// A number that reads is at most the limit, and is written in digits alone, but for
/// a plus sign.
pub proof fn law_numbers_are_digits(s: Seq<char>, max: nat)
    requires
        parsed_dec(s, max) is Some,
    ensures
        parsed_dec(s, max)->0 <= max,
        s.len() > 0,
        forall|i: int|
            0 <= i < s.len() ==> '0' as u32 <= (#[trigger] s[i]) as u32 <= '9' as u32 || (i == 0
                && s[i] == '+'),
{
    assert forall|i: int| 0 <= i < s.len() implies '0' as u32 <= (#[trigger] s[i]) as u32
        <= '9' as u32 || (i == 0 && s[i] == '+') by {
        if s[0] == '+' {
            if i > 0 {
                assert(is_digit(s.drop_first()[i - 1]));
            }
        } else {
            assert(is_digit(s[i]));
        }
    }
}

/// A text that is looked for is found where it first stands.
pub proof fn law_texts_are_found_where_they_stand(s: Seq<char>, p: Seq<char>)
    requires
        p.len() > 0,
    ensures
        find_text(s, p) <= s.len(),
        find_text(s, p) < s.len() ==> has_prefix(s.skip(find_text(s, p) as int), p),
        forall|i: int| 0 <= i < find_text(s, p) ==> !has_prefix(#[trigger] s.skip(i), p),
    decreases s.len(),
{
    assert(s.skip(0) =~= s);
    if s.len() > 0 && !has_prefix(s, p) {
        let t = s.drop_first();
        law_texts_are_found_where_they_stand(t, p);
        let k = find_text(t, p) as int;
        assert(t.skip(k) =~= s.skip(k + 1));
        assert forall|i: int| 0 <= i < find_text(s, p) implies !has_prefix(
            #[trigger] s.skip(i),
            p,
        ) by {
            if i > 0 {
                assert(s.skip(i) =~= t.skip(i - 1));
            }
        }
    }
}

pub(crate) proof fn lemma_split_push(s: Seq<char>, sep: char, name: Seq<char>)
    requires
        !name.contains(sep),
    ensures
        split(s + seq![sep] + name, sep) == split(s, sep).push(name),
    decreases s.len(),
{
    let t = s + seq![sep] + name;
    lemma_find(s, sep);
    lemma_find(t, sep);
    let i = find(s, sep) as int;
    if i >= s.len() {
        assert(!s.contains(sep)) by {
            if s.contains(sep) {
                let j = choose|j: int| 0 <= j < s.len() && s[j] == sep;
                assert(s[j] != sep);
            }
        }
        law_pieces_stand_between_separators(s, sep, name);
        law_pieces_stand_between_separators(name, sep, Seq::empty());
        assert(split(t, sep) =~= seq![s].push(name));
    } else {
        let rest = s.skip(i + 1);
        assert(t[i] == s[i]);
        assert forall|j: int| 0 <= j < i implies t[j] != sep by {
            assert(t[j] == s[j]);
        }
        assert(find(t, sep) == i);
        assert(t.take(i) =~= s.take(i));
        assert(t.skip(i + 1) =~= rest + seq![sep] + name);
        lemma_split_push(rest, sep, name);
        assert(seq![s.take(i)] + split(rest, sep).push(name) =~= (seq![s.take(i)] + split(
            rest,
            sep,
        )).push(name));
    }
}

/// Two texts are the same but for case where their letters are, and letters beyond
/// the first 128 characters have none.
pub proof fn law_case_is_that_of_ascii(c: char, d: char)
    ensures
        same_ascii(seq![c], seq![d]) == (c as u32 == d as u32 || ('A' as u32 <= c as u32
            <= 'Z' as u32 && d as u32 == c as u32 + 32) || ('A' as u32 <= d as u32 <= 'Z' as u32
            && c as u32 == d as u32 + 32)),
{
    let (s, t) = (seq![c], seq![d]);
    if same_ascii(s, t) {
        assert(ascii_lower(s[0]) == ascii_lower(t[0]));
    }
}

} // verus!
