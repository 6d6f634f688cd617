//! Where a file that the window wrote is saved.

use crate::model::last_component;
use crate::path::{extension, join, joined, last_dot_of};
use crate::path_windows;
use crate::text::{
    chars_of, contains_text, copy_chars, find, find_char, has_part, lemma_find, owned, same_ascii,
    same_letters, text_of,
};
use vstd::prelude::*;

verus! {

/// The part of a name after its last slash or backslash.
pub open spec fn base(s: Seq<char>) -> Seq<char> {
    s.skip(last_component(s) as int)
}

/// Whether a character is a control character.
pub open spec fn is_control(c: char) -> bool {
    let n = c as u32;
    n <= 0x1f || 0x7f <= n <= 0x9f
}

/// Whether a name is fit for a file: neither empty nor a dot, with no two dots in
/// a row, no colon and no control character.
pub open spec fn clean(s: Seq<char>) -> bool {
    &&& s.len() > 0
    &&& s != "."@
    &&& !has_part(s, ".."@)
    &&& find(s, ':') == s.len()
    &&& forall|i: int| 0 <= i < s.len() ==> !is_control(#[trigger] s[i])
}

/// Whether a name ends as the files do that the window writes.
pub open spec fn known_format(s: Seq<char>) -> bool {
    extension(s) matches Some(e) && (same_ascii(e, "csv"@) || same_ascii(e, "json"@))
}

/// The name that a file is saved under.
pub open spec fn safe_name(name: Seq<char>) -> Seq<char> {
    if clean(base(name)) && known_format(base(name)) {
        base(name)
    } else {
        "iris-export.csv"@
    }
}

fn base_of(s: &Vec<char>) -> (r: Vec<char>)
    ensures
        r@ == base(s@),
{
    let mut n: usize = s.len();
    assert(s@.take(n as int) =~= s@);
    while n > 0 && s[n - 1] != '/' && s[n - 1] != '\\'
        invariant
            n <= s@.len(),
            last_component(s@) == last_component(s@.take(n as int)),
        decreases n,
    {
        assert(s@.take(n as int).drop_last() =~= s@.take(n - 1));
        n -= 1;
    }
    let r = copy_chars(s.as_slice(), n, s.len());
    assert(r@ =~= base(s@));
    r
}

fn is_clean(s: &Vec<char>) -> (r: bool)
    ensures
        r == clean(s@),
{
    proof {
        reveal_strlit(".");
    }
    if s.len() == 0 {
        return false;
    }
    if s.len() == 1 && s[0] == '.' {
        assert(s@ =~= "."@);
        return false;
    }
    assert(s@ != "."@);
    let dots = chars_of("..");
    if contains_text(s.as_slice(), dots.as_slice()) || find_char(s.as_slice(), ':') < s.len() {
        return false;
    }
    let mut i: usize = 0;
    while i < s.len()
        invariant
            i <= s@.len(),
            forall|j: int| 0 <= j < i ==> !is_control(#[trigger] s@[j]),
        decreases s@.len() - i,
    {
        let n: u32 = s[i] as u32;
        if n <= 0x1f || (0x7f <= n && n <= 0x9f) {
            assert(is_control(s@[i as int]));
            return false;
        }
        i += 1;
    }
    true
}

fn is_known_format(s: &Vec<char>) -> (r: bool)
    ensures
        r == known_format(s@),
{
    let k: usize = last_dot_of(s.as_slice());
    if 0 < k && k < s.len() {
        let e = copy_chars(s.as_slice(), k + 1, s.len());
        assert(e@ =~= s@.skip(k + 1));
        let csv = chars_of("csv");
        let json = chars_of("json");
        same_letters(e.as_slice(), csv.as_slice()) || same_letters(e.as_slice(), json.as_slice())
    } else {
        false
    }
}

/// The name that a file is saved under: the one asked for where it is harmless and
/// of a format that the window writes, and a fixed name where it is not.
fn safe_name_of(name: &str) -> (r: String)
    ensures
        r@ == safe_name(name@),
{
    let chars = chars_of(name);
    let b = base_of(&chars);
    if is_clean(&b) && is_known_format(&b) {
        text_of(b.as_slice())
    } else {
        owned("iris-export.csv")
    }
}

/// The path that a file is saved under: a safe name inside the folder.
pub fn save_download(dir: &str, name: &str) -> (r: String)
    ensures
        r@ == joined(dir@, safe_name(name@)),
{
    let safe = safe_name_of(name);
    join(dir, safe.as_str())
}

/// The path that a file is saved under on Windows: a safe name inside the folder.
pub fn save_download_windows(dir: &str, name: &str) -> (r: String)
    ensures
        r@ == path_windows::joined(dir@, safe_name(name@)),
{
    let safe = safe_name_of(name);
    proof {
        law_downloads_stay_in_their_folder(name@);
    }
    path_windows::join(dir, safe.as_str())
}

proof fn lemma_base(s: Seq<char>)
    ensures
        last_component(s) <= s.len(),
        forall|i: int| last_component(s) <= i < s.len() ==> s[i] != '/' && s[i] != '\\',
    decreases s.len(),
{
    if s.len() > 0 && s.last() != '/' && s.last() != '\\' {
        lemma_base(s.drop_last());
        assert forall|i: int| last_component(s) <= i < s.len() implies s[i] != '/' && s[i] != '\\' by {
            if i < s.len() - 1 {
                assert(s.drop_last()[i] == s[i]);
            }
        }
    }
}

/// Whatever name is asked for, the file lands in the folder itself: its name
/// holds no slash, no backslash and no colon, and is not the folder's own or its
/// parent's.
pub proof fn law_downloads_stay_in_their_folder(name: Seq<char>)
    ensures
        forall|i: int|
            0 <= i < safe_name(name).len() ==> (#[trigger] safe_name(name)[i]) != '/' && safe_name(
                name,
            )[i] != '\\',
        safe_name(name).len() > 0,
        safe_name(name) != "."@,
        safe_name(name) != ".."@,
        path_windows::is_plain(safe_name(name)),
{
    lemma_base(name);
    reveal_strlit("iris-export.csv");
    reveal_strlit(".");
    reveal_strlit("..");
    let b = base(name);
    if clean(b) && known_format(b) {
        assert forall|i: int| 0 <= i < b.len() implies (#[trigger] b[i]) != '/' && b[i]
            != '\\' by {
            assert(b[i] == name[last_component(name) + i]);
        }
        if b == ".."@ {
            assert(b.subrange(0int, 0int + ".."@.len()) =~= ".."@);
        }
        lemma_find(b, ':');
    }
    assert("."@ =~= crate::path::here());
    assert(".."@ =~= crate::path::up());
}

} // verus!
