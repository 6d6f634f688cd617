//! Finding an application's icon and handing it to the page.

use crate::path::{
    components, components_of, file_name, file_name_of, file_stem, join, joined, last_dot,
    last_dot_of, path_text, text_of_components,
};
use crate::text::{
    chars_of, copy_chars, has_prefix, lines, lines_of, owned, same_chars, starts_with, str_view,
    text_of, texts, trim_chars, trimmed, views, words, words_of,
};
use base64::Engine;
use vstd::prelude::*;

verus! {

/// `char::is_alphanumeric`'s result.
pub uninterp spec fn alphanumeric(c: char) -> bool;

/// `char::is_alphanumeric` tells whether a character is a letter or a number in
/// Unicode, which depends on the character alone.
pub assume_specification[ char::is_alphanumeric ](c: char) -> (r: bool)
    ensures
        r == alphanumeric(c),
;

/// The characters that `char::to_lowercase` yields.
pub uninterp spec fn lower(c: char) -> Seq<char>;

/// `char::to_lowercase` yields the lower-case form of a character, which is one
/// or more characters and depends on the character alone.
#[verifier::external_body]
fn lower_chars(c: char) -> (r: Vec<char>)
    ensures
        r@ == lower(c),
{
    c.to_lowercase().collect()
}

/// The character of a six-bit number in Base64.
pub open spec fn base64_char(n: int) -> char {
    if n < 26 {
        ('A' as u32 + n) as char
    } else if n < 52 {
        ('a' as u32 + n - 26) as char
    } else if n < 62 {
        ('0' as u32 + n - 52) as char
    } else if n == 62 {
        '+'
    } else {
        '/'
    }
}

/// The `i`th byte, or zero where there is none.
pub open spec fn byte_at(bytes: Seq<u8>, i: int) -> int {
    if i < bytes.len() {
        bytes[i] as int
    } else {
        0
    }
}

/// Bytes in Base64: four characters for every three of them, six bits each, with
/// equals signs where the last three are not full.
pub open spec fn base64_text(bytes: Seq<u8>) -> Seq<char>
    decreases bytes.len(),
{
    if bytes.len() == 0 {
        Seq::empty()
    } else {
        let (a, b, c) = (byte_at(bytes, 0), byte_at(bytes, 1), byte_at(bytes, 2));
        let first = seq![base64_char(a / 4), base64_char(a % 4 * 16 + b / 16)];
        let (third, fourth) = (base64_char(b % 16 * 4 + c / 64), base64_char(c % 64));
        if bytes.len() == 1 {
            first + seq!['=', '=']
        } else if bytes.len() == 2 {
            first + seq![third, '=']
        } else {
            first + seq![third, fourth] + base64_text(bytes.skip(3))
        }
    }
}

/// `Engine::encode` of `base64`'s `STANDARD` engine gives the bytes in Base64, in
/// the standard alphabet and with padding. Its result must fit an allocation.
#[verifier::external_body]
fn base64_of(bytes: &[u8]) -> (r: String)
    requires
        4 * (bytes@.len() / 3 + 1) <= isize::MAX,
    ensures
        r@ == base64_text(bytes@),
{
    base64::engine::general_purpose::STANDARD.encode(bytes)
}

/// The file that `png::Encoder` writes, or nothing where it fails.
pub uninterp spec fn png_file(rgba: Seq<u8>, width: nat, height: nat) -> Option<Seq<u8>>;

/// `png::Encoder`, given a size, RGBA with eight bits a channel, and the pixels,
/// writes a file into memory that depends on these alone.
#[verifier::external_body]
fn encode_png(rgba: &[u8], width: u32, height: u32) -> (r: Option<Vec<u8>>)
    requires
        rgba@.len() == 4 * width * height,
        4 * width * height <= i32::MAX,
    ensures
        (match r {
            Some(f) => Some(f@),
            None => None,
        }) == png_file(rgba@, width as nat, height as nat),
{
    let mut out = Vec::new();
    let mut enc = png::Encoder::new(std::io::Cursor::new(&mut out), width, height);
    enc.set_color(png::ColorType::Rgba);
    enc.set_depth(png::BitDepth::Eight);
    let mut writer = enc.write_header().ok()?;
    writer.write_image_data(rgba).ok()?;
    drop(writer);
    Some(out)
}

/// The value that a line gives to `key`.
pub open spec fn line_value(line: Seq<char>, key: Seq<char>) -> Option<Seq<char>> {
    if has_prefix(line, key) && key.len() < line.len() && line[key.len() as int] == '=' {
        Some(line.skip(key.len() as int + 1))
    } else {
        None
    }
}

/// The value of the first line that gives `key` one.
pub open spec fn first_value(ls: Seq<Seq<char>>, key: Seq<char>) -> Option<Seq<char>>
    decreases ls.len(),
{
    if ls.len() == 0 {
        None
    } else if line_value(ls[0], key) is Some {
        line_value(ls[0], key)
    } else {
        first_value(ls.drop_first(), key)
    }
}

/// The field `key` of a desktop entry: its first value, trimmed, where that is
/// not empty.
pub open spec fn field_of(text: Seq<char>, key: Seq<char>) -> Option<Seq<char>> {
    match first_value(lines(text), key) {
        Some(v) if trimmed(v).len() > 0 => Some(trimmed(v)),
        _ => None,
    }
}

/// A field of a desktop entry.
pub fn field(text: &[char], key: &str) -> (r: Option<Vec<char>>)
    ensures
        match r {
            Some(v) => field_of(text@, key@) == Some(v@),
            None => field_of(text@, key@) is None,
        },
{
    let ls = lines_of(text);
    let k = chars_of(key);
    let ghost all = lines(text@);
    let mut i: usize = 0;
    assert(all.skip(0) =~= all);
    while i < ls.len()
        invariant
            i <= ls@.len(),
            all == views(ls@),
            all == lines(text@),
            k@ == key@,
            first_value(all.skip(i as int), key@) == first_value(all, key@),
        decreases ls@.len() - i,
    {
        let line = ls[i].as_slice();
        assert(all.skip(i as int)[0] == line@);
        assert(all.skip(i as int).drop_first() =~= all.skip(i + 1));
        if starts_with(line, k.as_slice()) && k.len() < line.len() && line[k.len()] == '=' {
            let v = vstd::slice::slice_subrange(line, k.len() + 1, line.len());
            assert(v@ =~= line@.skip(k@.len() as int + 1));
            let t = trim_chars(v);
            if t.len() == 0 {
                return None;
            }
            let r = copy_chars(t, 0, t.len());
            assert(r@ =~= t@);
            return Some(r);
        }
        i += 1;
    }
    None
}

/// The letters and numbers of a text, in lower case.
pub open spec fn identifier(s: Seq<char>) -> Seq<char>
    decreases s.len(),
{
    if s.len() == 0 {
        Seq::empty()
    } else if alphanumeric(s.last()) {
        identifier(s.drop_last()) + lower(s.last())
    } else {
        identifier(s.drop_last())
    }
}

/// The letters and numbers of a text, in lower case.
pub fn normalized_identifier(s: &[char]) -> (r: Vec<char>)
    ensures
        r@ == identifier(s@),
{
    let mut out: Vec<char> = Vec::new();
    let mut i: usize = 0;
    while i < s.len()
        invariant
            i <= s@.len(),
            out@ == identifier(s@.take(i as int)),
        decreases s@.len() - i,
    {
        assert(s@.take(i + 1).drop_last() =~= s@.take(i as int));
        if s[i].is_alphanumeric() {
            let mut low = lower_chars(s[i]);
            out.append(&mut low);
        }
        i += 1;
    }
    assert(s@.take(i as int) =~= s@);
    out
}

/// Whether two characters are equal but for the case of an ASCII letter.
pub open spec fn same_letter(a: char, b: char) -> bool {
    ascii_lower(a) == ascii_lower(b)
}

/// The lower-case form of an ASCII letter; any other character as it is.
pub open spec fn ascii_lower(c: char) -> u32 {
    let n = c as u32;
    if 'A' as u32 <= n <= 'Z' as u32 {
        (n + 32) as u32
    } else {
        n
    }
}

/// Whether two texts are equal but for the case of ASCII letters.
pub open spec fn same_ignoring_case(a: Seq<char>, b: Seq<char>) -> bool {
    a.len() == b.len() && forall|i: int| 0 <= i < a.len() ==> same_letter(#[trigger] a[i], b[i])
}

fn lowered(c: char) -> (n: u32)
    ensures
        n == ascii_lower(c),
{
    let n: u32 = c as u32;
    if 65 <= n && n <= 90 {
        n + 32
    } else {
        n
    }
}

/// Whether two texts are equal but for the case of ASCII letters.
pub fn eq_ignore_case(a: &[char], b: &[char]) -> (r: bool)
    ensures
        r == same_ignoring_case(a@, b@),
{
    if a.len() != b.len() {
        return false;
    }
    let mut i: usize = 0;
    while i < a.len()
        invariant
            i <= a@.len(),
            a@.len() == b@.len(),
            forall|j: int| 0 <= j < i ==> same_letter(#[trigger] a@[j], b@[j]),
        decreases a@.len() - i,
    {
        if lowered(a[i]) != lowered(b[i]) {
            assert(!same_letter(a@[i as int], b@[i as int]));
            return false;
        }
        i += 1;
    }
    true
}

/// The base name of the program that a field starts: the file name of its first
/// word, or the word where it has none.
pub open spec fn program_of(value: Seq<char>) -> Seq<char> {
    let w = words(value);
    let first = if w.len() > 0 {
        w[0]
    } else {
        Seq::empty()
    };
    match file_name(components(first)) {
        Some(n) => n,
        None => first,
    }
}

/// Whether the field `key` of a desktop entry starts `binary`.
pub open spec fn starts_program(text: Seq<char>, key: Seq<char>, binary: Seq<char>) -> bool {
    field_of(text, key) is Some && program_of(field_of(text, key)->0) == binary
}

/// Whether the text after the last dot of a path is `appimage`, in any case.
pub open spec fn is_appimage(path: Seq<char>) -> bool {
    let k = last_dot(path) as int;
    k < path.len() && same_ignoring_case(path.skip(k + 1), "appimage"@)
}

/// The identifier of a bundle's file name.
pub open spec fn bundle_of(binary: Seq<char>) -> Seq<char> {
    match file_name(components(binary)) {
        Some(n) => identifier(file_stem(n)),
        None => Seq::empty(),
    }
}

/// Whether the field `key` of a desktop entry names the bundle: an identifier of
/// four bytes or more that the bundle's starts with.
pub open spec fn names_bundle(text: Seq<char>, key: Seq<char>, binary: Seq<char>) -> bool {
    field_of(text, key) is Some && ({
        let id = identifier(field_of(text, key)->0);
        vstd::utf8::encode_utf8(id).len() >= 4 && has_prefix(bundle_of(binary), id)
    })
}

/// Whether a desktop entry is that of the program at `path`, whose file name is
/// `binary`: it starts it, or the program is an AppImage that it names.
pub open spec fn entry_matches(text: Seq<char>, path: Seq<char>, binary: Seq<char>) -> bool {
    ||| starts_program(text, "Exec"@, binary)
    ||| starts_program(text, "TryExec"@, binary)
    ||| is_appimage(path) && (names_bundle(text, "Name"@, binary) || names_bundle(
        text,
        "StartupWMClass"@,
        binary,
    ))
}

fn starts(text: &[char], key: &str, binary: &[char]) -> (r: bool)
    ensures
        r == starts_program(text@, key@, binary@),
{
    match field(text, key) {
        Some(v) => {
            let w = words_of(v.as_slice());
            let ghost all = words(v@);
            assert(all.len() == w@.len());
            let empty: Vec<char> = Vec::new();
            let first = if w.len() > 0 {
                assert(all[0] == w@[0]@);
                w[0].as_slice()
            } else {
                empty.as_slice()
            };
            assert(first@ =~= if all.len() > 0 {
                all[0]
            } else {
                Seq::empty()
            });
            match file_name_of(first) {
                Some(n) => same_chars(n.as_slice(), binary),
                None => same_chars(first, binary),
            }
        },
        None => false,
    }
}

fn names(text: &[char], key: &str, binary: &[char], bundle: &[char]) -> (r: bool)
    requires
        bundle@ == bundle_of(binary@),
    ensures
        r == names_bundle(text@, key@, binary@),
{
    match field(text, key) {
        Some(v) => {
            let id = normalized_identifier(v.as_slice());
            let t = text_of(id.as_slice());
            t.as_str().as_bytes().len() >= 4 && starts_with(bundle, id.as_slice())
        },
        None => false,
    }
}

/// Whether a desktop entry is that of a program.
pub fn desktop_matches(text: &str, path: &str, binary: &str) -> (r: bool)
    ensures
        r == entry_matches(text@, path@, binary@),
{
    let t = chars_of(text);
    let b = chars_of(binary);
    if starts(t.as_slice(), "Exec", b.as_slice()) || starts(t.as_slice(), "TryExec", b.as_slice()) {
        return true;
    }
    let p = chars_of(path);
    if !appimage(p.as_slice()) {
        return false;
    }
    let bundle: Vec<char> = match file_name_of(b.as_slice()) {
        Some(n) => {
            let k: usize = last_dot_of(n.as_slice());
            let stem = if 0 < k && k < n.len() {
                vstd::slice::slice_subrange(n.as_slice(), 0, k)
            } else {
                n.as_slice()
            };
            assert(stem@ =~= file_stem(n@));
            normalized_identifier(stem)
        },
        None => Vec::new(),
    };
    names(t.as_slice(), "Name", b.as_slice(), bundle.as_slice()) || names(
        t.as_slice(),
        "StartupWMClass",
        b.as_slice(),
        bundle.as_slice(),
    )
}

fn appimage(path: &[char]) -> (r: bool)
    ensures
        r == is_appimage(path@),
{
    let k: usize = last_dot_of(path);
    if k == path.len() {
        return false;
    }
    let ext = vstd::slice::slice_subrange(path, k + 1, path.len());
    assert(ext@ =~= path@.skip(k + 1));
    let want = chars_of("appimage");
    eq_ignore_case(ext, want.as_slice())
}

/// The icon that the first matching desktop entry with one names.
pub open spec fn first_icon(
    desktops: Seq<Seq<char>>,
    path: Seq<char>,
    binary: Seq<char>,
) -> Option<Seq<char>>
    decreases desktops.len(),
{
    if desktops.len() == 0 {
        None
    } else if entry_matches(desktops[0], path, binary) && field_of(desktops[0], "Icon"@) is Some {
        field_of(desktops[0], "Icon"@)
    } else {
        first_icon(desktops.drop_first(), path, binary)
    }
}

/// The icon that the desktop entries name for a program.
pub fn icon_name_for(path: &str, binary: &str, desktops: &Vec<String>) -> (r: Option<String>)
    ensures
        match r {
            Some(n) => first_icon(texts(desktops@), path@, binary@) == Some(n@),
            None => first_icon(texts(desktops@), path@, binary@) is None,
        },
{
    let ghost all = texts(desktops@);
    let mut i: usize = 0;
    assert(all.skip(0) =~= all);
    while i < desktops.len()
        invariant
            i <= desktops@.len(),
            all == texts(desktops@),
            first_icon(all.skip(i as int), path@, binary@) == first_icon(all, path@, binary@),
        decreases desktops@.len() - i,
    {
        assert(all.skip(i as int)[0] == desktops@[i as int]@);
        assert(all.skip(i as int).drop_first() =~= all.skip(i + 1));
        if desktop_matches(desktops[i].as_str(), path, binary) {
            let t = chars_of(desktops[i].as_str());
            if let Some(icon) = field(t.as_slice(), "Icon") {
                return Some(text_of(icon.as_slice()));
            }
        }
        i += 1;
    }
    None
}

/// How many components the longest ancestor of a path has whose name is `usr`.
pub open spec fn usr_len(c: Seq<Seq<char>>) -> nat
    decreases c.len(),
{
    if c.len() == 0 {
        0
    } else if c.last() == "usr"@ {
        c.len()
    } else {
        usr_len(c.drop_last())
    }
}

/// The `usr` directory that a program was bundled in.
pub open spec fn usr_of(path: Seq<char>) -> Option<Seq<char>> {
    let c = components(path);
    if usr_len(c) > 0 {
        Some(path_text(c.take(usr_len(c) as int)))
    } else {
        None
    }
}

/// The `usr` directory that a program was bundled in.
pub fn bundled_usr(path: &str) -> (r: Option<String>)
    ensures
        match r {
            Some(u) => usr_of(path@) == Some(u@),
            None => usr_of(path@) is None,
        },
{
    let p = chars_of(path);
    let c = components_of(p.as_slice());
    let usr = chars_of("usr");
    let ghost all = components(path@);
    let mut n: usize = c.len();
    assert(all.take(n as int) =~= all);
    while n > 0
        invariant
            n <= c@.len(),
            all == views(c@),
            all == components(path@),
            usr@ == "usr"@,
            usr_len(all.take(n as int)) == usr_len(all),
        decreases n,
    {
        assert(all.take(n as int).last() == c@[n - 1]@);
        assert(all.take(n as int).drop_last() =~= all.take(n - 1));
        if same_chars(c[n - 1].as_slice(), usr.as_slice()) {
            return Some(text_of_components(&c, n));
        }
        n -= 1;
    }
    None
}

/// Where icon themes are, nearest first.
pub open spec fn theme_roots(path: Seq<char>, home: Option<Seq<char>>) -> Seq<Seq<char>> {
    let bundled = match usr_of(path) {
        Some(u) => seq![joined(u, "share/icons"@)],
        None => Seq::empty(),
    };
    let own = match home {
        Some(h) => seq![joined(h, ".local/share/icons"@), joined(h, ".icons"@)],
        None => Seq::empty(),
    };
    bundled + own + seq!["/usr/local/share/icons"@, "/usr/share/icons"@]
}

/// Where desktop entries are, nearest first.
pub open spec fn entry_dirs(path: Seq<char>, home: Option<Seq<char>>) -> Seq<Seq<char>> {
    let bundled = match usr_of(path) {
        Some(u) => seq![joined(u, "share/applications"@)],
        None => Seq::empty(),
    };
    let own = match home {
        Some(h) => seq![joined(h, ".local/share/applications"@)],
        None => Seq::empty(),
    };
    bundled + own + seq!["/usr/local/share/applications"@, "/usr/share/applications"@]
}

/// Where icon themes are, nearest first.
pub fn icon_roots(path: &str, home: Option<&str>) -> (r: Vec<String>)
    ensures
        texts(r@) == theme_roots(path@, str_view(home)),
{
    let mut out: Vec<String> = Vec::new();
    if let Some(u) = bundled_usr(path) {
        out.push(join(u.as_str(), "share/icons"));
    }
    if let Some(h) = home {
        out.push(join(h, ".local/share/icons"));
        out.push(join(h, ".icons"));
    }
    out.push(owned("/usr/local/share/icons"));
    out.push(owned("/usr/share/icons"));
    assert(texts(out@) =~= theme_roots(path@, str_view(home)));
    out
}

/// Where desktop entries are, nearest first.
pub fn desktop_dirs(path: &str, home: Option<&str>) -> (r: Vec<String>)
    ensures
        texts(r@) == entry_dirs(path@, str_view(home)),
{
    let mut out: Vec<String> = Vec::new();
    if let Some(u) = bundled_usr(path) {
        out.push(join(u.as_str(), "share/applications"));
    }
    if let Some(h) = home {
        out.push(join(h, ".local/share/applications"));
    }
    out.push(owned("/usr/local/share/applications"));
    out.push(owned("/usr/share/applications"));
    assert(texts(out@) =~= entry_dirs(path@, str_view(home)));
    out
}

/// Whether a directory entry is a desktop entry, by its extension.
pub open spec fn is_entry_name(name: Seq<char>) -> bool {
    match file_name(components(name)) {
        Some(n) => crate::path::extension(n) == Some("desktop"@),
        None => false,
    }
}

/// Whether a directory entry is a desktop entry.
pub fn is_desktop_file(name: &str) -> (r: bool)
    ensures
        r == is_entry_name(name@),
{
    let c = chars_of(name);
    extension_is(c.as_slice(), "desktop")
}

/// Whether the file name of a path has an extension.
fn extension_is(path: &[char], ext: &str) -> (r: bool)
    ensures
        r == (match file_name(components(path@)) {
            Some(n) => crate::path::extension(n) == Some(ext@),
            None => false,
        }),
{
    match file_name_of(path) {
        Some(n) => {
            let k: usize = last_dot_of(n.as_slice());
            if 0 < k && k < n.len() {
                let e = vstd::slice::slice_subrange(n.as_slice(), k + 1, n.len());
                assert(e@ =~= n@.skip(k + 1));
                let want = chars_of(ext);
                same_chars(e, want.as_slice())
            } else {
                false
            }
        },
        None => false,
    }
}

/// The sizes that a theme is searched for, best first.
pub open spec fn sizes() -> Seq<Seq<char>> {
    seq!["256x256"@, "128x128"@, "96x96"@, "64x64"@, "48x48"@, "scalable"@]
}

/// The file of an icon of one size in a theme.
pub open spec fn theme_file(
    base: Seq<char>,
    size: Seq<char>,
    name: Seq<char>,
    ext: Seq<char>,
) -> Seq<char> {
    joined(joined(joined(joined(base, "hicolor"@), size), "apps"@), name + ext)
}

/// An icon's files of one size and kind, in the order of the directories.
pub open spec fn sized_files(
    roots: Seq<Seq<char>>,
    size: Seq<char>,
    name: Seq<char>,
    ext: Seq<char>,
) -> Seq<Seq<char>> {
    roots.map_values(|base: Seq<char>| theme_file(base, size, name, ext))
}

/// An icon's files of one kind, of the first `n` sizes, the largest first.
pub open spec fn theme_files(
    roots: Seq<Seq<char>>,
    name: Seq<char>,
    ext: Seq<char>,
    n: int,
) -> Seq<Seq<char>>
    decreases n,
{
    if n <= 0 {
        Seq::empty()
    } else {
        theme_files(roots, name, ext, n - 1) + sized_files(roots, sizes()[n - 1], name, ext)
    }
}

/// An icon's files in the theme: the PNG files from the largest to the smallest,
/// and then the SVG files.
pub open spec fn all_theme_files(roots: Seq<Seq<char>>, name: Seq<char>) -> Seq<Seq<char>> {
    theme_files(roots, name, ".png"@, 6) + theme_files(roots, name, ".svg"@, 6)
}

/// Where an icon may be, best first: at the path that its name is, or else in the
/// theme and then among the plain images.
pub open spec fn icon_files(path: Seq<char>, name: Seq<char>, home: Option<Seq<char>>) -> Seq<
    Seq<char>,
> {
    if crate::path::is_absolute(name) {
        seq![name]
    } else {
        all_theme_files(theme_roots(path, home), name) + seq![
            "/usr/share/pixmaps/"@ + name + ".png"@,
            "/usr/share/pixmaps/"@ + name + ".svg"@,
        ]
    }
}

proof fn lemma_theme_files(roots: Seq<Seq<char>>, name: Seq<char>, ext: Seq<char>, n: int)
    requires
        0 <= n <= 6,
    ensures
        theme_files(roots, name, ext, n).len() == n * roots.len(),
        forall|k: int, j: int|
            0 <= k < n && 0 <= j < roots.len() ==> 0 <= #[trigger] place(roots, k, j) < n
                * roots.len() && theme_files(roots, name, ext, n)[place(roots, k, j)] == theme_file(
                roots[j],
                sizes()[k],
                name,
                ext,
            ),
    decreases n,
{
    let r = roots.len() as int;
    if n > 0 {
        lemma_theme_files(roots, name, ext, n - 1);
        assert((n - 1) * r + r == n * r) by (nonlinear_arith);
        let before = theme_files(roots, name, ext, n - 1);
        let last = sized_files(roots, sizes()[n - 1], name, ext);
        assert(before.len() == (n - 1) * r);
        assert forall|k: int, j: int| 0 <= k < n && 0 <= j < roots.len() implies 0
            <= #[trigger] place(roots, k, j) < n * roots.len() && theme_files(roots, name, ext, n)[place(
            roots,
            k,
            j,
        )] == theme_file(roots[j], sizes()[k], name, ext) by {
            let p = place(roots, k, j);
            if k < n - 1 {
                assert(0 <= p < before.len());
                assert((before + last)[p] == before[p]);
            } else {
                assert(p == before.len() + j);
                assert((before + last)[p] == last[j]);
            }
        }
    } else {
        assert(n * r == 0) by (nonlinear_arith)
            requires
                n == 0,
        ;
    }
}

/// Where the file of a size and a directory stands among those of its kind.
pub open spec fn place(roots: Seq<Seq<char>>, size: int, root: int) -> int {
    size * roots.len() + root
}

/// Where an icon is looked for by its name, a PNG file of the theme comes before
/// every smaller one, before every SVG file, and before every plain image.
pub proof fn law_larger_png_files_come_first(
    path: Seq<char>,
    name: Seq<char>,
    home: Option<Seq<char>>,
)
    requires
        !crate::path::is_absolute(name),
    ensures
        ({
            let roots = theme_roots(path, home);
            let files = icon_files(path, name, home);
            let n = 6 * roots.len() as int;
            &&& files.len() == 2 * n + 2
            &&& forall|k: int, j: int|
                0 <= k < 6 && 0 <= j < roots.len() ==> {
                    &&& 0 <= #[trigger] place(roots, k, j) < n
                    &&& files[place(roots, k, j)] == theme_file(roots[j], sizes()[k], name, ".png"@)
                    &&& files[n + place(roots, k, j)] == theme_file(
                        roots[j],
                        sizes()[k],
                        name,
                        ".svg"@,
                    )
                }
            &&& files[2 * n] == "/usr/share/pixmaps/"@ + name + ".png"@
            &&& files[2 * n + 1] == "/usr/share/pixmaps/"@ + name + ".svg"@
        }),
{
    let roots = theme_roots(path, home);
    let files = icon_files(path, name, home);
    let n = 6 * roots.len() as int;
    lemma_theme_files(roots, name, ".png"@, 6);
    lemma_theme_files(roots, name, ".svg"@, 6);
    let png = theme_files(roots, name, ".png"@, 6);
    let svg = theme_files(roots, name, ".svg"@, 6);
    assert forall|k: int, j: int| 0 <= k < 6 && 0 <= j < roots.len() implies {
        &&& 0 <= #[trigger] place(roots, k, j) < n
        &&& files[place(roots, k, j)] == theme_file(roots[j], sizes()[k], name, ".png"@)
        &&& files[n + place(roots, k, j)] == theme_file(roots[j], sizes()[k], name, ".svg"@)
    } by {
        let p = place(roots, k, j);
        assert(files[p] == png[p]);
        assert(files[n + p] == svg[p]);
    }
}

fn with_ext(name: &str, ext: &str) -> (r: String)
    ensures
        r@ == name@ + ext@,
{
    let mut r = owned(name);
    r.push_str(ext);
    r
}

fn theme_path(base: &str, size: &str, name: &str, ext: &str) -> (r: String)
    ensures
        r@ == theme_file(base@, size@, name@, ext@),
{
    let theme = join(base, "hicolor");
    let sized = join(theme.as_str(), size);
    let apps = join(sized.as_str(), "apps");
    let file = with_ext(name, ext);
    join(apps.as_str(), file.as_str())
}

fn size_name(i: usize) -> (s: &'static str)
    requires
        i < 6,
    ensures
        s@ == sizes()[i as int],
{
    if i == 0 {
        "256x256"
    } else if i == 1 {
        "128x128"
    } else if i == 2 {
        "96x96"
    } else if i == 3 {
        "64x64"
    } else if i == 4 {
        "48x48"
    } else {
        "scalable"
    }
}

/// Appends an icon's files of one kind, the largest first.
fn push_theme_files(out: &mut Vec<String>, roots: &Vec<String>, name: &str, ext: &str)
    ensures
        texts(final(out)@) == texts(old(out)@) + theme_files(texts(roots@), name@, ext@, 6),
{
    let ghost all = texts(roots@);
    let ghost start = texts(out@);
    let mut k: usize = 0;
    assert(texts(out@) =~= start + theme_files(all, name@, ext@, 0));
    while k < 6
        invariant
            k <= 6,
            all == texts(roots@),
            texts(out@) == start + theme_files(all, name@, ext@, k as int),
        decreases 6 - k,
    {
        let size = size_name(k);
        let ghost before = texts(out@);
        let ghost files = sized_files(all, size@, name@, ext@);
        let mut i: usize = 0;
        assert(texts(out@) =~= before + files.take(0));
        while i < roots.len()
            invariant
                i <= roots@.len(),
                all == texts(roots@),
                files == sized_files(all, size@, name@, ext@),
                texts(out@) == before + files.take(i as int),
            decreases roots@.len() - i,
        {
            let ghost was = texts(out@);
            let file = theme_path(roots[i].as_str(), size, name, ext);
            out.push(file);
            assert(all[i as int] == roots@[i as int]@);
            assert(files[i as int] == file@);
            assert(texts(out@) =~= was.push(file@));
            assert(was.push(file@) =~= before + files.take(i + 1));
            i += 1;
        }
        assert(files.take(i as int) =~= files);
        assert(texts(out@) =~= start + theme_files(all, name@, ext@, k + 1));
        k += 1;
    }
}

/// Where an icon may be, best first: the largest PNG file of the theme, else an
/// SVG file of the theme, else a plain image.
pub fn find_icon_file(path: &str, name: &str, home: Option<&str>) -> (r: Vec<String>)
    ensures
        texts(r@) == icon_files(path@, name@, str_view(home)),
{
    let mut out: Vec<String> = Vec::new();
    let n = chars_of(name);
    if n.len() > 0 && n[0] == '/' {
        out.push(owned(name));
        assert(texts(out@) =~= icon_files(path@, name@, str_view(home)));
        return out;
    }
    let roots = icon_roots(path, home);
    push_theme_files(&mut out, &roots, name, ".png");
    push_theme_files(&mut out, &roots, name, ".svg");
    assert(texts(out@) =~= all_theme_files(theme_roots(path@, str_view(home)), name@));
    let ghost before = texts(out@);
    let base = with_ext("/usr/share/pixmaps/", name);
    out.push(with_ext(base.as_str(), ".png"));
    out.push(with_ext(base.as_str(), ".svg"));
    assert(texts(out@) =~= before + seq![
        "/usr/share/pixmaps/"@ + name@ + ".png"@,
        "/usr/share/pixmaps/"@ + name@ + ".svg"@,
    ]);
    out
}

/// Where the icon of a program may be: of the name that its desktop entry gives,
/// or else of the name of its file. A path without a file name has none.
pub open spec fn icon_paths(
    path: Seq<char>,
    home: Option<Seq<char>>,
    desktops: Seq<Seq<char>>,
) -> Option<Seq<Seq<char>>> {
    match file_name(components(path)) {
        Some(stem) => Some(
            icon_files(
                path,
                match first_icon(desktops, path, stem) {
                    Some(n) => n,
                    None => stem,
                },
                home,
            ),
        ),
        None => None,
    }
}

/// Where the icon of a program may be, best first, given the desktop entries in
/// the order in which they were read.
pub fn icon_path(path: &str, home: Option<&str>, desktops: &Vec<String>) -> (r: Option<Vec<String>>)
    ensures
        match r {
            Some(v) => icon_paths(path@, str_view(home), texts(desktops@)) == Some(texts(v@)),
            None => icon_paths(path@, str_view(home), texts(desktops@)) is None,
        },
{
    let p = chars_of(path);
    match file_name_of(p.as_slice()) {
        Some(n) => {
            let stem = text_of(n.as_slice());
            match icon_name_for(path, stem.as_str(), desktops) {
                Some(name) => Some(find_icon_file(path, name.as_str(), home)),
                None => Some(find_icon_file(path, stem.as_str(), home)),
            }
        },
        None => None,
    }
}

/// The media type of an icon file, by its extension.
pub open spec fn media_type(file: Seq<char>) -> Seq<char> {
    match file_name(components(file)) {
        Some(n) if crate::path::extension(n) == Some("svg"@) => "image/svg+xml"@,
        _ => "image/png"@,
    }
}

/// A data URI: the media type and the bytes in Base64.
pub open spec fn data_uri_of(mime: Seq<char>, bytes: Seq<u8>) -> Seq<char> {
    "data:"@ + mime + ";base64,"@ + base64_text(bytes)
}

/// The data URI of an encoded text.
pub fn data_uri_text(mime: &str, encoded: &str) -> (r: String)
    ensures
        r@ == "data:"@ + mime@ + ";base64,"@ + encoded@,
{
    let mut r = owned("data:");
    r.push_str(mime);
    r.push_str(";base64,");
    r.push_str(encoded);
    r
}

/// The data URI of an icon file with the given contents.
pub fn icon_data_uri(file: &str, bytes: &[u8]) -> (r: String)
    requires
        4 * (bytes@.len() / 3 + 1) <= isize::MAX,
    ensures
        r@ == data_uri_of(media_type(file@), bytes@),
{
    let f = chars_of(file);
    let encoded = base64_of(bytes);
    if extension_is(f.as_slice(), "svg") {
        data_uri_text("image/svg+xml", encoded.as_str())
    } else {
        data_uri_text("image/png", encoded.as_str())
    }
}

/// Whether a pixel of a BGRA image has an alpha value.
pub open spec fn has_alpha(bgra: Seq<u8>) -> bool {
    exists|i: int| 0 <= i < bgra.len() / 4 && #[trigger] bgra[4 * i + 3] != 0
}

/// A BGRA image as RGBA. An image without any alpha is opaque.
pub open spec fn rgba_of(bgra: Seq<u8>) -> Seq<u8> {
    Seq::new(
        bgra.len(),
        |i: int|
            if i / 4 * 4 + 4 > bgra.len() {
                bgra[i]
            } else if i % 4 == 0 {
                bgra[i + 2]
            } else if i % 4 == 2 {
                bgra[i - 2]
            } else if i % 4 == 3 && !has_alpha(bgra) {
                255
            } else {
                bgra[i]
            },
    )
}

/// Turns BGRA pixels into RGBA.
pub fn to_rgba(bgra: &[u8]) -> (r: Vec<u8>)
    ensures
        r@ == rgba_of(bgra@),
{
    let n: usize = bgra.len();
    let mut alpha: bool = false;
    let mut i: usize = 0;
    while i < n / 4
        invariant
            n == bgra@.len(),
            i <= n / 4,
            alpha == (exists|j: int| 0 <= j < i && #[trigger] bgra@[4 * j + 3] != 0),
        decreases n / 4 - i,
    {
        if bgra[4 * i + 3] != 0 {
            assert(bgra@[4 * (i as int) + 3] != 0);
            alpha = true;
        }
        i += 1;
    }
    let mut out: Vec<u8> = Vec::new();
    let mut k: usize = 0;
    while k < n
        invariant
            n == bgra@.len(),
            alpha == has_alpha(bgra@),
            k <= n,
            out@ == rgba_of(bgra@).take(k as int),
        decreases n - k,
    {
        let v: u8 = if n - k / 4 * 4 < 4 {
            bgra[k]
        } else if k % 4 == 0 {
            bgra[k + 2]
        } else if k % 4 == 2 {
            bgra[k - 2]
        } else if k % 4 == 3 && !alpha {
            255
        } else {
            bgra[k]
        };
        out.push(v);
        assert(rgba_of(bgra@).take(k + 1) =~= rgba_of(bgra@).take(k as int).push(v));
        k += 1;
    }
    assert(rgba_of(bgra@).take(n as int) =~= rgba_of(bgra@));
    out
}

/// The PNG file of a BGRA image.
pub fn icon_png(bgra: &[u8], width: u32, height: u32) -> (r: Option<Vec<u8>>)
    requires
        bgra@.len() == 4 * width * height,
        4 * width * height <= i32::MAX,
    ensures
        (match r {
            Some(f) => Some(f@),
            None => None,
        }) == png_file(rgba_of(bgra@), width as nat, height as nat),
{
    let rgba = to_rgba(bgra);
    encode_png(rgba.as_slice(), width, height)
}

/// The alpha of a pixel stays where the image has any, and red and blue change
/// places.
pub proof fn law_rgba_swaps_red_and_blue(bgra: Seq<u8>, i: int)
    requires
        bgra.len() % 4 == 0,
        0 <= i < bgra.len() / 4,
    ensures
        rgba_of(bgra).len() == bgra.len(),
        rgba_of(bgra)[4 * i] == bgra[4 * i + 2],
        rgba_of(bgra)[4 * i + 1] == bgra[4 * i + 1],
        rgba_of(bgra)[4 * i + 2] == bgra[4 * i],
        rgba_of(bgra)[4 * i + 3] == (if has_alpha(bgra) {
            bgra[4 * i + 3]
        } else {
            255
        }),
{
}

/// The value of a digit of Base64.
pub open spec fn base64_value(c: char) -> int {
    let n = c as u32;
    if 'A' as u32 <= n <= 'Z' as u32 {
        n - 'A' as u32
    } else if 'a' as u32 <= n <= 'z' as u32 {
        n - 'a' as u32 + 26
    } else if '0' as u32 <= n <= '9' as u32 {
        n - '0' as u32 + 52
    } else if c == '+' {
        62
    } else {
        63
    }
}

/// Three bytes are four digits of Base64, the most significant first, and what
/// follows them does not matter; one or two bytes at the end are padded to four
/// characters.
pub proof fn law_base64_reads_back(a: u8, b: u8, c: u8, rest: Seq<u8>)
    ensures
        ({
            let t = base64_text(seq![a, b, c] + rest);
            &&& t.len() == 4 + base64_text(rest).len()
            &&& t.skip(4) == base64_text(rest)
            &&& base64_value(t[0]) * 0x4_0000 + base64_value(t[1]) * 0x1000 + base64_value(t[2])
                * 0x40 + base64_value(t[3]) == a * 0x1_0000 + b * 0x100 + c
        }),
        ({
            let t = base64_text(seq![a, b]);
            &&& t.len() == 4
            &&& t[3] == '='
            &&& base64_value(t[0]) * 0x1000 + base64_value(t[1]) * 0x40 + base64_value(t[2]) == (a
                * 0x100 + b) * 4
        }),
        ({
            let t = base64_text(seq![a]);
            &&& t.len() == 4
            &&& t[2] == '=' && t[3] == '='
            &&& base64_value(t[0]) * 0x40 + base64_value(t[1]) == a * 16
        }),
{
    let s = seq![a, b, c] + rest;
    let (x, y, z) = (a as int, b as int, c as int);
    assert(s.skip(3) =~= rest);
    lemma_base64_value(x / 4);
    lemma_base64_value(x % 4 * 16 + y / 16);
    lemma_base64_value(y % 16 * 4 + z / 64);
    lemma_base64_value(z % 64);
    lemma_base64_value(y % 16 * 4);
    lemma_base64_value(x % 4 * 16);
    assert(base64_text(s).skip(4) =~= base64_text(rest));
}

proof fn lemma_base64_value(n: int)
    requires
        0 <= n < 64,
    ensures
        base64_value(base64_char(n)) == n,
{
}

/// A field of an entry is what follows its key and the equals sign, on the first line
/// that begins so, without white space at its ends.
pub proof fn law_fields_follow_their_key(line: Seq<char>, key: Seq<char>, value: Seq<char>, rest: Seq<char>)
    requires
        !line.contains('\n'),
        line.len() > 0 ==> line.last() != '\r',
        !has_prefix(line, key + seq!['=']),
        !key.contains('\n'),
        !value.contains('\n'),
        value.len() > 0,
        !crate::text::is_white(value[0]),
        !crate::text::is_white(value.last()),
    ensures
        field_of(line + seq!['\n'] + rest, key) == field_of(rest, key),
        field_of(key + seq!['='] + value + seq!['\n'] + rest, key) == Some(value),
{
    crate::text::law_lines_end_at_line_feeds(line, rest);
    let ls = lines(line + seq!['\n'] + rest);
    assert(ls[0] == line);
    assert(ls.drop_first() =~= lines(rest));
    if line_value(line, key) is Some {
        let k = key.len() as int;
        assert(line.take(k + 1) =~= line.take(k).push(line[k]));
        assert(key + seq!['='] =~= key.push('='));
    }
    let own = key + seq!['='] + value;
    assert(!own.contains('\n')) by {
        if own.contains('\n') {
            let i = choose|i: int| 0 <= i < own.len() && own[i] == '\n';
            if i < key.len() {
                assert(key.contains(key[i]));
            } else if i > key.len() {
                assert(value.contains(value[i - key.len() - 1]));
            }
        }
    }
    assert(own.last() == value.last());
    assert(crate::text::is_white('\r'));
    crate::text::law_lines_end_at_line_feeds(own, rest);
    assert(lines(own + seq!['\n'] + rest)[0] == own);
    assert(own.take(key.len() as int) =~= key);
    assert(own.skip(key.len() as int + 1) =~= value);
    crate::text::law_trimmed_texts_stay(value);
}

/// A command names the program that its first word leads to, whatever its folder and
/// its arguments.
pub proof fn law_commands_name_their_program(dir: Seq<char>, name: Seq<char>, rest: Seq<char>)
    requires
        dir.len() > 0,
        crate::path::is_plain(name),
        forall|i: int| 0 <= i < dir.len() ==> !crate::text::is_white(#[trigger] dir[i]),
        forall|i: int| 0 <= i < name.len() ==> !crate::text::is_white(#[trigger] name[i]),
        rest.len() > 0 ==> crate::text::is_white(rest[0]),
    ensures
        program_of(dir + seq!['/'] + name + rest) == name,
{
    let w = dir + seq!['/'] + name;
    let e = Seq::<char>::empty();
    assert forall|i: int| 0 <= i < w.len() implies !crate::text::is_white(#[trigger] w[i]) by {
        if i < dir.len() {
            assert(w[i] == dir[i]);
        } else if i > dir.len() {
            assert(w[i] == name[i - dir.len() - 1]);
        }
    }
    crate::text::law_words_stand_between_white_space(e, w, rest);
    assert(e + w + rest =~= w + rest);
    assert(words(w + rest)[0] == w);
    crate::path::law_names_add_components(dir, name);
    assert(name.contains(name[0]));
    assert(components(dir).push(name).last() == name);
    assert(name != crate::path::root());
}

/// The icon of a program is that of the first entry that is for it and names one.
pub proof fn law_the_first_entry_gives_the_icon(
    before: Seq<Seq<char>>,
    one: Seq<char>,
    after: Seq<Seq<char>>,
    path: Seq<char>,
    binary: Seq<char>,
)
    requires
        forall|i: int|
            0 <= i < before.len() ==> !entry_matches(#[trigger] before[i], path, binary)
                || field_of(before[i], "Icon"@) is None,
        entry_matches(one, path, binary),
        field_of(one, "Icon"@) is Some,
    ensures
        first_icon(before + seq![one] + after, path, binary) == field_of(one, "Icon"@),
        first_icon(before, path, binary) is None,
    decreases before.len(),
{
    let all = before + seq![one] + after;
    if before.len() > 0 {
        let b = before.drop_first();
        assert forall|i: int| 0 <= i < b.len() implies !entry_matches(
            #[trigger] b[i],
            path,
            binary,
        ) || field_of(b[i], "Icon"@) is None by {
            assert(b[i] == before[i + 1]);
        }
        assert(!entry_matches(before[0], path, binary) || field_of(before[0], "Icon"@) is None);
        assert(all[0] == before[0]);
        assert(all.drop_first() =~= b + seq![one] + after);
        law_the_first_entry_gives_the_icon(b, one, after, path, binary);
    } else {
        assert(all[0] == one);
    }
}

/// An entry is for a program where one of its commands starts it. An entry for a
/// bundle may be known by name too, and others may not.
pub proof fn law_entries_are_for_what_they_start(text: Seq<char>, path: Seq<char>, binary: Seq<char>)
    ensures
        field_of(text, "Exec"@) is Some && program_of(field_of(text, "Exec"@)->0) == binary
            ==> entry_matches(text, path, binary),
        field_of(text, "TryExec"@) is Some && program_of(field_of(text, "TryExec"@)->0) == binary
            ==> entry_matches(text, path, binary),
        entry_matches(text, path, binary) && !is_appimage(path) ==> (field_of(text, "Exec"@) is Some
            && program_of(field_of(text, "Exec"@)->0) == binary) || (field_of(
            text,
            "TryExec"@,
        ) is Some && program_of(field_of(text, "TryExec"@)->0) == binary),
{
}

/// An identifier is made of the letters and digits of a name, in lower case.
pub proof fn law_identifiers_leave_the_rest_out(s: Seq<char>, c: char)
    ensures
        alphanumeric(c) ==> identifier(s.push(c)) == identifier(s) + lower(c),
        !alphanumeric(c) ==> identifier(s.push(c)) == identifier(s),
        identifier(Seq::empty()).len() == 0,
{
    assert(s.push(c).drop_last() =~= s);
}

/// A bundle's own folder of data is the one up to the last `usr` in its path.
pub proof fn law_the_last_usr_counts(front: Seq<Seq<char>>, rest: Seq<Seq<char>>)
    requires
        forall|i: int| 0 <= i < rest.len() ==> #[trigger] rest[i] != "usr"@,
    ensures
        usr_len(front + seq!["usr"@] + rest) == front.len() + 1,
        usr_len(rest) == 0,
    decreases rest.len(),
{
    let all = front + seq!["usr"@] + rest;
    if rest.len() > 0 {
        let r = rest.drop_last();
        assert(rest[rest.len() - 1] != "usr"@);
        law_the_last_usr_counts(front, r);
        assert(all.drop_last() =~= front + seq!["usr"@] + r);
    } else {
        assert(all.last() == "usr"@);
    }
}

/// A picture is SVG where its file's extension says so, and else PNG.
pub proof fn law_pictures_go_by_their_extension(
    dir: Seq<char>,
    stem: Seq<char>,
    ext: Seq<char>,
)
    requires
        dir.len() > 0,
        stem.len() > 0,
        crate::path::is_plain(stem + seq!['.'] + ext),
        !ext.contains('.'),
    ensures
        media_type(dir + seq!['/'] + (stem + seq!['.'] + ext)) == (if ext == "svg"@ {
            "image/svg+xml"@
        } else {
            "image/png"@
        }),
{
    let name = stem + seq!['.'] + ext;
    crate::path::law_names_add_components(dir, name);
    crate::path::law_extensions_follow_the_last_dot(stem, ext);
    assert(name.contains(name[0]));
    assert(components(dir).push(name).last() == name);
    assert(name != crate::path::root());
}

/// An entry is a file whose extension is `desktop`.
pub proof fn law_entries_are_known_by_extension(dir: Seq<char>, stem: Seq<char>, ext: Seq<char>)
    requires
        dir.len() > 0,
        stem.len() > 0,
        crate::path::is_plain(stem + seq!['.'] + ext),
        !ext.contains('.'),
    ensures
        is_entry_name(dir + seq!['/'] + (stem + seq!['.'] + ext)) == (ext == "desktop"@),
{
    let name = stem + seq!['.'] + ext;
    crate::path::law_names_add_components(dir, name);
    crate::path::law_extensions_follow_the_last_dot(stem, ext);
    assert(name.contains(name[0]));
    assert(components(dir).push(name).last() == name);
    assert(name != crate::path::root());
}

/// Two texts are the same but for case where their letters are, and letters beyond
/// the first 128 characters have none.
pub proof fn law_case_is_that_of_ascii(c: char, d: char)
    ensures
        same_ignoring_case(seq![c], seq![d]) == (c as u32 == d as u32 || ('A' as u32 <= c as u32
            <= 'Z' as u32 && d as u32 == c as u32 + 32) || ('A' as u32 <= d as u32 <= 'Z' as u32
            && c as u32 == d as u32 + 32)),
{
    let (s, t) = (seq![c], seq![d]);
    if same_ignoring_case(s, t) {
        assert(same_letter(s[0], t[0]));
    }
}

} // verus!
