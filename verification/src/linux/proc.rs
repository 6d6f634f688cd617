//! Processes: their images, and the sockets that they hold.

use crate::assoc::{has_key, lookup, put, Assoc};
use crate::bytes::same_bytes;
use crate::path::{
    components, components_of, file_name, file_name_of, last_dot_of, leads_through, path_text,
    same_path, text_of_components, within,
};
use crate::text::{
    after_prefix, before_suffix, chars_of, copy_chars, dec_text, find, find_char, find_in, find_text,
    has_prefix, lines, lines_of, parse_dec, parsed_dec, same, split, split_chars, starts_with,
    strip_prefix, strip_suffix, text_of, trim_chars, trimmed, utf8_text, views,
};
use crate::ui::icon::{eq_ignore_case, same_ignoring_case};
use vstd::prelude::*;

verus! {

/// Remembers which image a process runs.
///
/// A process that has no image is remembered too, until the cache is cleared.
pub struct PidCache {
    map: Assoc<u32, Option<String>>,
}

impl PidCache {
    /// The processes that are known.
    pub closed spec fn known(&self) -> Seq<(u32, Option<String>)> {
        self.map@
    }

    /// Nothing known.
    pub fn new() -> (c: PidCache)
        ensures
            c.known() == Seq::<(u32, Option<String>)>::empty(),
    {
        PidCache { map: Assoc::new() }
    }

    /// Whether a process is known, so that its image need not be looked up.
    pub fn cached(&self, pid: u32) -> (r: bool)
        ensures
            r == has_key(self.known(), pid),
    {
        self.map.contains(&pid)
    }

    /// The image of a process: the one that is known, or else the one that was
    /// looked up, which is known from then on.
    pub fn resolve(&mut self, pid: u32, image: Option<String>) -> (r: Option<String>)
        ensures
            match lookup(old(self).known(), pid) {
                Some(hit) => r == hit && final(self).known() == old(self).known(),
                None => r == image && final(self).known() == put(old(self).known(), pid, image),
            },
    {
        if let Some(hit) = self.map.get(&pid) {
            return crate::rule::clone_label(hit);
        }
        self.map.put(pid, crate::rule::clone_label(&image));
        image
    }

    /// Forgets every process.
    pub fn clear(&mut self)
        ensures
            final(self).known() == Seq::<(u32, Option<String>)>::empty(),
    {
        self.map.clear();
    }
}

impl Default for PidCache {
    fn default() -> (c: PidCache)
        ensures
            c.known() == Seq::<(u32, Option<String>)>::empty(),
    {
        PidCache::new()
    }
}

/// The entries of an environment block.
pub open spec fn entries(block: Seq<u8>) -> Seq<Seq<u8>>
    decreases block.len(),
    via entries_decreases
{
    let i = zero_at(block);
    if i >= block.len() {
        seq![block]
    } else {
        seq![block.take(i as int)] + entries(block.skip(i as int + 1))
    }
}

#[via_fn]
proof fn entries_decreases(block: Seq<u8>) {
    lemma_zero_at(block);
}

/// The position of the first zero byte, or the length.
pub open spec fn zero_at(s: Seq<u8>) -> nat
    decreases s.len(),
{
    if s.len() == 0 || s[0] == 0 {
        0
    } else {
        1 + zero_at(s.drop_first())
    }
}

proof fn lemma_zero_at(s: Seq<u8>)
    ensures
        zero_at(s) <= s.len(),
        zero_at(s) < s.len() ==> s[zero_at(s) as int] == 0,
        forall|j: int| 0 <= j < zero_at(s) ==> #[trigger] s[j] != 0,
    decreases s.len(),
{
    if s.len() > 0 && s[0] != 0 {
        let t = s.drop_first();
        lemma_zero_at(t);
        assert forall|j: int| 0 <= j < zero_at(s) implies #[trigger] s[j] != 0 by {
            if j > 0 {
                assert(s[j] == t[j - 1]);
            }
        }
    }
}

/// Whether bytes start with others.
pub open spec fn byte_prefix(s: Seq<u8>, p: Seq<u8>) -> bool {
    p.len() <= s.len() && s.take(p.len() as int) == p
}

/// What the first entry that starts with `name` says.
pub open spec fn first_entry(e: Seq<Seq<u8>>, name: Seq<u8>) -> Option<Seq<u8>>
    decreases e.len(),
{
    if e.len() == 0 {
        None
    } else if byte_prefix(e[0], name) {
        Some(e[0].skip(name.len() as int))
    } else {
        first_entry(e.drop_first(), name)
    }
}

/// The value of a variable, where it is UTF-8. `name` ends in the equals sign.
pub open spec fn variable_of(block: Seq<u8>, name: Seq<u8>) -> Option<Seq<char>> {
    match first_entry(entries(block), name) {
        Some(v) if vstd::utf8::valid_utf8(v) => Some(vstd::utf8::decode_utf8(v)),
        _ => None,
    }
}

/// The value of a variable in an environment block.
pub fn variable(block: &[u8], name: &[u8]) -> (r: Option<String>)
    ensures
        match r {
            Some(v) => variable_of(block@, name@) == Some(v@),
            None => variable_of(block@, name@) is None,
        },
{
    let mut at: usize = 0;
    assert(block@.skip(0) =~= block@);
    loop
        invariant
            at <= block@.len(),
            first_entry(entries(block@.skip(at as int)), name@) == first_entry(
                entries(block@),
                name@,
            ),
        decreases block@.len() - at,
    {
        let ghost rest = block@.skip(at as int);
        let mut end: usize = at;
        assert(block@.skip(at as int) =~= rest);
        while end < block.len() && block[end] != 0
            invariant
                at <= end <= block@.len(),
                rest == block@.skip(at as int),
                zero_at(rest) == end - at + zero_at(block@.skip(end as int)),
            decreases block@.len() - end,
        {
            assert(block@.skip(end as int).drop_first() =~= block@.skip(end + 1));
            end += 1;
        }
        let entry = vstd::slice::slice_subrange(block, at, end);
        assert(zero_at(rest) == end - at);
        assert(entry@ =~= rest.take(end - at));
        let ghost e = entries(rest);
        assert(e[0] == entry@) by {
            if end == block@.len() {
                assert(rest.take(end - at) =~= rest);
            }
        }
        if name.len() <= entry.len() {
            let head = vstd::slice::slice_subrange(entry, 0, name.len());
            assert(head@ =~= entry@.take(name@.len() as int));
            if same_bytes(head, name) {
                let v = vstd::slice::slice_subrange(entry, name.len(), entry.len());
                assert(v@ =~= entry@.skip(name@.len() as int));
                return utf8_text(v);
            }
        }
        if end == block.len() {
            assert(e.drop_first() =~= Seq::empty());
            assert(first_entry(e.drop_first(), name@) is None);
            return None;
        }
        proof {
            assert(rest.skip(end - at + 1) =~= block@.skip(end + 1));
            assert(e.drop_first() =~= entries(block@.skip(end + 1)));
        }
        at = end + 1;
    }
}

/// The AppImage that a process says it runs from. Any process can say so: that
/// `appdir` is a real mount is still to be seen.
pub struct AppImageClaim {
    pub appdir: String,
    pub appimage: String,
}

/// `APPDIR=`, as bytes.
pub open spec fn appdir_key() -> Seq<u8> {
    seq![0x41u8, 0x50, 0x50, 0x44, 0x49, 0x52, 0x3d]
}

/// `APPIMAGE=`, as bytes.
pub open spec fn appimage_key() -> Seq<u8> {
    seq![0x41u8, 0x50, 0x50, 0x49, 0x4d, 0x41, 0x47, 0x45, 0x3d]
}

/// Whether a path's name is that of an AppImage's mount.
pub open spec fn is_mount_name(c: Seq<Seq<char>>) -> bool {
    match file_name(c) {
        Some(n) => has_prefix(n, ".mount_"@),
        None => false,
    }
}

/// The directory and the file that a process claims: its image lies in the
/// directory, whose name is that of an AppImage's mount, and the file's path is
/// absolute.
pub open spec fn claim_of(target: Seq<char>, environ: Seq<u8>) -> Option<(Seq<char>, Seq<char>)> {
    match (variable_of(environ, appdir_key()), variable_of(environ, appimage_key())) {
        (Some(dir), Some(file)) => if is_mount_name(components(dir)) && within(
            components(target),
            components(dir),
        ) && crate::path::is_absolute(file) {
            Some((dir, file))
        } else {
            None
        },
        _ => None,
    }
}

/// The AppImage that a process claims in its environment.
pub fn appimage_from_environ(target: &str, environ: &[u8]) -> (r: Option<AppImageClaim>)
    ensures
        match r {
            Some(c) => claim_of(target@, environ@) == Some((c.appdir@, c.appimage@)),
            None => claim_of(target@, environ@) is None,
        },
{
    let dir_key: Vec<u8> = vec![0x41, 0x50, 0x50, 0x44, 0x49, 0x52, 0x3d];
    let file_key: Vec<u8> = vec![0x41, 0x50, 0x50, 0x49, 0x4d, 0x41, 0x47, 0x45, 0x3d];
    assert(dir_key@ =~= appdir_key());
    assert(file_key@ =~= appimage_key());
    let appdir = match variable(environ, dir_key.as_slice()) {
        Some(v) => v,
        None => {
            return None;
        },
    };
    let appimage = match variable(environ, file_key.as_slice()) {
        Some(v) => v,
        None => {
            return None;
        },
    };
    let d = chars_of(appdir.as_str());
    let dirs = components_of(d.as_slice());
    let t = chars_of(target);
    let targets = components_of(t.as_slice());
    let f = chars_of(appimage.as_str());
    if mount_name(d.as_slice()) && leads_through(&targets, &dirs) && f.len() > 0 && f[0] == '/' {
        Some(AppImageClaim { appdir, appimage })
    } else {
        None
    }
}

fn mount_name(path: &[char]) -> (r: bool)
    ensures
        r == is_mount_name(components(path@)),
{
    match file_name_of(path) {
        Some(n) => {
            let p = chars_of(".mount_");
            starts_with(n.as_slice(), p.as_slice())
        },
        None => false,
    }
}

/// Whether a line of a mount table says that a file system in user space is
/// mounted at `dir`.
pub open spec fn fuse_line(line: Seq<char>, dir: Seq<Seq<char>>) -> bool {
    let fields = split(line, ' ');
    let i = find_text(line, " - "@) as int;
    let tail = line.skip(i + 3);
    fields.len() > 4 && components(fields[4]) == dir && i < line.len() && has_prefix(
        tail.take(find(tail, ' ') as int),
        "fuse"@,
    )
}

/// Whether a mount table has a file system in user space at `dir`.
pub open spec fn fuse_mounted(mountinfo: Seq<char>, dir: Seq<char>) -> bool {
    exists|i: int|
        0 <= i < lines(mountinfo).len() && fuse_line(
            #[trigger] lines(mountinfo)[i],
            components(dir),
        )
}

fn line_mounts(line: &[char], dir: &Vec<Vec<char>>) -> (r: bool)
    ensures
        r == fuse_line(line@, views(dir@)),
{
    proof {
        reveal_strlit(" - ");
    }
    let fields = split_chars(line, ' ');
    let ghost all = split(line@, ' ');
    assert(all.len() == fields@.len());
    if fields.len() <= 4 {
        return false;
    }
    assert(all[4] == fields@[4]@);
    let point = components_of(fields[4].as_slice());
    if !same_path(&point, dir) {
        return false;
    }
    let dash = chars_of(" - ");
    let i: usize = find_in(line, dash.as_slice());
    if i == line.len() {
        return false;
    }
    let tail = vstd::slice::slice_subrange(line, i + 3, line.len());
    assert(tail@ =~= line@.skip(i as int + 3));
    let n: usize = find_char(tail, ' ');
    let fstype = vstd::slice::slice_subrange(tail, 0, n);
    assert(fstype@ =~= tail@.take(n as int));
    let fuse = chars_of("fuse");
    starts_with(fstype, fuse.as_slice())
}

/// Whether a mount table has a file system in user space at `dir`.
pub fn mountinfo_declares_fuse_mount(mountinfo: &str, dir: &str) -> (r: bool)
    ensures
        r == fuse_mounted(mountinfo@, dir@),
{
    let m = chars_of(mountinfo);
    let ls = lines_of(m.as_slice());
    let d = chars_of(dir);
    let dirs = components_of(d.as_slice());
    let ghost all = lines(mountinfo@);
    let mut i: usize = 0;
    while i < ls.len()
        invariant
            i <= ls@.len(),
            all == views(ls@),
            all == lines(mountinfo@),
            views(dirs@) == components(dir@),
            forall|j: int| 0 <= j < i ==> !fuse_line(#[trigger] all[j], components(dir@)),
        decreases ls@.len() - i,
    {
        assert(all[i as int] == ls@[i as int]@);
        if line_mounts(ls[i].as_slice(), &dirs) {
            assert(fuse_line(lines(mountinfo@)[i as int], components(dir@)));
            return true;
        }
        i += 1;
    }
    false
}

/// How many components the longest ancestor of a path has that is named like an
/// AppImage's mount.
pub open spec fn mount_len(c: Seq<Seq<char>>) -> nat
    decreases c.len(),
{
    if c.len() == 0 {
        0
    } else if is_mount_name(c) {
        c.len()
    } else {
        mount_len(c.drop_last())
    }
}

/// The mount that a path lies in, as components.
pub open spec fn mount_of(c: Seq<Seq<char>>) -> Option<Seq<Seq<char>>> {
    if mount_len(c) > 0 {
        Some(c.take(mount_len(c) as int))
    } else {
        None
    }
}

fn mount_depth(c: &Vec<Vec<char>>) -> (n: usize)
    ensures
        n == mount_len(views(c@)),
        n <= c@.len(),
{
    let ghost all = views(c@);
    let prefix = chars_of(".mount_");
    let mut n: usize = c.len();
    assert(all.take(n as int) =~= all);
    while n > 0
        invariant
            n <= c@.len(),
            all == views(c@),
            prefix@ == ".mount_"@,
            mount_len(all.take(n as int)) == mount_len(all),
        decreases n,
    {
        assert(all.take(n as int).last() == c@[n - 1]@);
        assert(all.take(n as int).drop_last() =~= all.take(n - 1));
        if crate::path::names_file(c[n - 1].as_slice()) && starts_with(
            c[n - 1].as_slice(),
            prefix.as_slice(),
        ) {
            return n;
        }
        n -= 1;
    }
    0
}

/// The AppImage's mount that a path lies in.
pub fn appimage_mount(target: &str) -> (r: Option<String>)
    ensures
        match r {
            Some(m) => mount_of(components(target@)) is Some && m@ == path_text(
                mount_of(components(target@))->0,
            ),
            None => mount_of(components(target@)) is None,
        },
{
    let t = chars_of(target);
    let c = components_of(t.as_slice());
    let n: usize = mount_depth(&c);
    if n > 0 {
        Some(text_of_components(&c, n))
    } else {
        None
    }
}

/// Whether a path is that of a browser engine's helper.
pub open spec fn is_helper(c: Seq<Seq<char>>) -> bool {
    &&& c.len() >= 2
    &&& file_name(c.drop_last()) is Some
    &&& has_prefix(c[c.len() - 2], "webkit2gtk-"@)
    &&& c.last() == "WebKitWebProcess"@ || c.last() == "WebKitNetworkProcess"@ || c.last()
        == "WebKitGPUProcess"@
}

/// Whether a path is that of a browser engine's helper, which works for its
/// parent process.
pub fn is_webkit_helper(target: &str) -> (r: bool)
    ensures
        r == is_helper(components(target@)),
{
    let t = chars_of(target);
    let c = components_of(t.as_slice());
    let ghost all = components(target@);
    assert(all.len() == c@.len());
    let n: usize = c.len();
    if n < 2 {
        return false;
    }
    assert(all[n - 2] == c@[n - 2]@ && all[n - 1] == c@[n - 1]@);
    assert(all.drop_last().last() == all[n - 2]);
    let dir = chars_of("webkit2gtk-");
    if !crate::path::names_file(c[n - 2].as_slice()) || !starts_with(
        c[n - 2].as_slice(),
        dir.as_slice(),
    ) {
        return false;
    }
    let name = text_of(c[n - 1].as_slice());
    same(name.as_str(), "WebKitWebProcess") || same(name.as_str(), "WebKitNetworkProcess") || same(
        name.as_str(),
        "WebKitGPUProcess",
    )
}

/// The parent that the first readable line names.
pub open spec fn first_parent(ls: Seq<Seq<char>>) -> Option<nat>
    decreases ls.len(),
{
    if ls.len() == 0 {
        None
    } else {
        let here = match after_prefix(ls[0], "PPid:"@) {
            Some(v) => parsed_dec(trimmed(v), u32::MAX as nat),
            None => None,
        };
        if here is Some {
            here
        } else {
            first_parent(ls.drop_first())
        }
    }
}

/// The parent in a process's status. Process zero is none.
pub open spec fn parent_of(status: Seq<char>) -> Option<nat> {
    match first_parent(lines(status)) {
        Some(p) if p != 0 => Some(p),
        _ => None,
    }
}

/// The parent of a process, from the text of its status.
pub fn parent_pid(status: &str) -> (r: Option<u32>)
    ensures
        match r {
            Some(p) => parent_of(status@) == Some(p as nat),
            None => parent_of(status@) is None,
        },
{
    let c = chars_of(status);
    let ls = lines_of(c.as_slice());
    let ghost all = lines(status@);
    let mut i: usize = 0;
    assert(all.skip(0) =~= all);
    while i < ls.len()
        invariant
            i <= ls@.len(),
            all == views(ls@),
            all == lines(status@),
            first_parent(all.skip(i as int)) == first_parent(all),
        decreases ls@.len() - i,
    {
        assert(all.skip(i as int)[0] == ls@[i as int]@);
        assert(all.skip(i as int).drop_first() =~= all.skip(i + 1));
        if let Some(v) = strip_prefix(ls[i].as_slice(), "PPid:") {
            if let Some(p) = parse_dec(trim_chars(v), u32::MAX as u64) {
                return if p != 0 {
                    Some(p as u32)
                } else {
                    None
                };
            }
        }
        i += 1;
    }
    None
}

/// The process that an entry of the process table names.
pub fn parse_pid(name: &str) -> (r: Option<u32>)
    ensures
        match r {
            Some(p) => parsed_dec(name@, u32::MAX as nat) == Some(p as nat),
            None => parsed_dec(name@, u32::MAX as nat) is None,
        },
{
    let c = chars_of(name);
    match parse_dec(c.as_slice(), u32::MAX as u64) {
        Some(p) => Some(p as u32),
        None => None,
    }
}

/// The socket that a link of an open file names.
pub open spec fn inode_of(link: Seq<char>) -> Option<nat> {
    match after_prefix(link, "socket:["@) {
        Some(rest) => match before_suffix(rest, "]"@) {
            Some(num) => parsed_dec(num, u64::MAX as nat),
            None => None,
        },
        None => None,
    }
}

/// The socket that a link of an open file names.
pub fn parse_socket_inode(link: &str) -> (r: Option<u64>)
    ensures
        match r {
            Some(n) => inode_of(link@) == Some(n as nat),
            None => inode_of(link@) is None,
        },
{
    let c = chars_of(link);
    match strip_prefix(c.as_slice(), "socket:[") {
        Some(rest) => match strip_suffix(rest, "]") {
            Some(num) => parse_dec(num, u64::MAX),
            None => None,
        },
        None => None,
    }
}

/// Sockets with their owners after one more process's links. The first process
/// seen with a socket owns it.
pub open spec fn owners_after(
    owners: Seq<(u64, u32)>,
    pid: u32,
    links: Seq<Seq<char>>,
) -> Seq<(u64, u32)>
    decreases links.len(),
{
    if links.len() == 0 {
        owners
    } else {
        let before = owners_after(owners, pid, links.drop_last());
        match inode_of(links.last()) {
            Some(n) if !has_key(before, n as u64) => put(before, n as u64, pid),
            _ => before,
        }
    }
}

/// Adds the sockets that a process holds, from the links of its open files.
pub fn index_pid_sockets(owners: &mut Assoc<u64, u32>, pid: u32, links: &Vec<String>)
    ensures
        final(owners)@ == owners_after(
            old(owners)@,
            pid,
            links@.map_values(|s: String| s@),
        ),
{
    let ghost all = links@.map_values(|s: String| s@);
    let mut i: usize = 0;
    assert(all.take(0) =~= Seq::empty());
    while i < links.len()
        invariant
            i <= links@.len(),
            all == links@.map_values(|s: String| s@),
            owners@ == owners_after(old(owners)@, pid, all.take(i as int)),
        decreases links@.len() - i,
    {
        assert(all.take(i + 1).drop_last() =~= all.take(i as int));
        assert(all.take(i + 1).last() == links@[i as int]@);
        if let Some(n) = parse_socket_inode(links[i].as_str()) {
            if !owners.contains(&n) {
                owners.put(n, pid);
            }
        }
        i += 1;
    }
    assert(all.take(i as int) =~= all);
}

/// What is read of one process. What could not be read is not there.
pub struct ProcFacts {
    /// Where the link to its image leads.
    pub exe: Option<String>,
    pub environ: Option<Vec<u8>>,
    pub mountinfo: Option<String>,
    /// Whether the file that its `APPIMAGE` variable names is a regular file.
    pub appimage_is_file: bool,
    /// Whether its image is a regular file.
    pub exe_is_file: bool,
}

/// What is known of a process's image.
#[derive(Debug, PartialEq, Eq)]
pub enum Image {
    Known(Option<String>),
    /// It depends on the next ancestor.
    MoreNeeded,
}

/// What is known of an image.
pub ghost enum ImageView {
    Known(Option<Seq<char>>),
    MoreNeeded,
}

impl View for Image {
    type V = ImageView;

    open spec fn view(&self) -> ImageView {
        match self {
            Image::Known(i) => ImageView::Known(crate::text::text_view(*i)),
            Image::MoreNeeded => ImageView::MoreNeeded,
        }
    }
}

/// An image's path without the mark of a deleted file.
pub open spec fn undeleted(exe: Seq<char>) -> Seq<char> {
    match before_suffix(exe, " (deleted)"@) {
        Some(p) => p,
        None => exe,
    }
}

/// The AppImage that a process proves to run from, when its image, or that of a
/// descendant of it, is `image`: one that it claims, whose directory is mounted
/// and whose file is a file.
pub open spec fn proven(image: Seq<char>, f: ProcFacts) -> Option<Seq<char>> {
    match f.environ {
        Some(e) => match (claim_of(image, e@), f.mountinfo) {
            (Some((dir, file)), Some(m)) => if fuse_mounted(m@, dir) && f.appimage_is_file {
                Some(file)
            } else {
                None
            },
            _ => None,
        },
        None => None,
    }
}

/// Whether a process is the AppImage outside its own mount that started it.
pub open spec fn is_bundle(f: ProcFacts, mount: Seq<Seq<char>>) -> bool {
    &&& f.exe is Some
    &&& f.exe_is_file
    &&& !within(components(f.exe->0@), mount)
    &&& file_name(components(f.exe->0@)) is Some
    &&& crate::path::extension(file_name(components(f.exe->0@))->0) is Some
    &&& same_ignoring_case(
        crate::path::extension(file_name(components(f.exe->0@))->0)->0,
        "appimage"@,
    )
}

/// What the ancestors from the `i`th on say of an image that lies in `mount`. At
/// most `left` of them are asked, and one without an image ends the search.
pub open spec fn ancestors_say(
    chain: Seq<ProcFacts>,
    complete: bool,
    i: int,
    left: nat,
    image: Seq<char>,
    mount: Seq<Seq<char>>,
) -> ImageView
    decreases left,
{
    if left == 0 {
        ImageView::Known(None)
    } else if i >= chain.len() {
        if complete {
            ImageView::Known(None)
        } else {
            ImageView::MoreNeeded
        }
    } else if proven(image, chain[i]) is Some {
        ImageView::Known(proven(image, chain[i]))
    } else if chain[i].exe is None {
        ImageView::Known(None)
    } else if is_bundle(chain[i], mount) {
        ImageView::Known(Some(chain[i].exe->0@))
    } else {
        ancestors_say(chain, complete, i + 1, (left - 1) as nat, image, mount)
    }
}

/// The image of the first process of a chain, each of which is the parent of the
/// one before. `complete` says that the last one has no parent.
///
/// A process in an AppImage counts as the AppImage, and a browser engine's helper
/// as its parent.
pub open spec fn image_of(chain: Seq<ProcFacts>, complete: bool) -> ImageView
    decreases chain.len(),
{
    if chain.len() == 0 {
        if complete {
            ImageView::Known(None)
        } else {
            ImageView::MoreNeeded
        }
    } else if chain[0].exe is None {
        ImageView::Known(None)
    } else {
        let own = undeleted(chain[0].exe->0@);
        if proven(own, chain[0]) is Some {
            ImageView::Known(proven(own, chain[0]))
        } else {
            let above = match mount_of(components(own)) {
                Some(m) => ancestors_say(chain, complete, 1, 12, own, m),
                None => ImageView::Known(None),
            };
            if above != ImageView::Known(None) {
                above
            } else if is_helper(components(own)) {
                match image_of(chain.drop_first(), complete) {
                    ImageView::Known(None) => ImageView::Known(Some(own)),
                    other => other,
                }
            } else {
                ImageView::Known(Some(own))
            }
        }
    }
}

fn proof_of(image: &str, f: &ProcFacts) -> (r: Option<String>)
    ensures
        crate::text::text_view(r) == proven(image@, *f),
{
    match (&f.environ, &f.mountinfo) {
        (Some(e), Some(m)) => match appimage_from_environ(image, e.as_slice()) {
            Some(claim) => if f.appimage_is_file && mountinfo_declares_fuse_mount(
                m.as_str(),
                claim.appdir.as_str(),
            ) {
                Some(claim.appimage)
            } else {
                None
            },
            None => None,
        },
        _ => None,
    }
}

fn bundle(f: &ProcFacts, mount: &Vec<Vec<char>>) -> (r: bool)
    ensures
        r == is_bundle(*f, views(mount@)),
{
    match &f.exe {
        Some(exe) => {
            let p = chars_of(exe.as_str());
            let c = components_of(p.as_slice());
            if !f.exe_is_file || leads_through(&c, mount) {
                return false;
            }
            match file_name_of(p.as_slice()) {
                Some(n) => {
                    let k: usize = last_dot_of(n.as_slice());
                    if 0 < k && k < n.len() {
                        let e = vstd::slice::slice_subrange(n.as_slice(), k + 1, n.len());
                        assert(e@ =~= n@.skip(k + 1));
                        let want = chars_of("appimage");
                        eq_ignore_case(e, want.as_slice())
                    } else {
                        false
                    }
                },
                None => false,
            }
        },
        None => false,
    }
}

/// What the ancestors of a process say of its image.
fn appimage_from_ancestors(
    chain: &Vec<ProcFacts>,
    complete: bool,
    from: usize,
    image: &str,
    mount: &Vec<Vec<char>>,
) -> (r: Image)
    ensures
        r@ == ancestors_say(chain@, complete, from as int, 12, image@, views(mount@)),
{
    let mut i: usize = from;
    let mut left: usize = 12;
    while left > 0
        invariant
            left <= 12,
            ancestors_say(chain@, complete, from as int, 12, image@, views(mount@))
                == ancestors_say(
                chain@,
                complete,
                i as int,
                left as nat,
                image@,
                views(mount@),
            ),
        decreases left,
    {
        if i >= chain.len() {
            return if complete {
                Image::Known(None)
            } else {
                Image::MoreNeeded
            };
        }
        if let Some(file) = proof_of(image, &chain[i]) {
            return Image::Known(Some(file));
        }
        if chain[i].exe.is_none() {
            return Image::Known(None);
        }
        if bundle(&chain[i], mount) {
            return Image::Known(crate::rule::clone_label(&chain[i].exe));
        }
        i += 1;
        left -= 1;
    }
    Image::Known(None)
}

/// The image of the `from`th process of a chain.
fn image_from(chain: &Vec<ProcFacts>, complete: bool, from: usize) -> (r: Image)
    requires
        from <= chain@.len(),
    ensures
        r@ == image_of(chain@.skip(from as int), complete),
    decreases chain@.len() - from,
{
    let ghost rest = chain@.skip(from as int);
    if from == chain.len() {
        return if complete {
            Image::Known(None)
        } else {
            Image::MoreNeeded
        };
    }
    assert(rest[0] == chain@[from as int]);
    let own = match &chain[from].exe {
        Some(exe) => {
            let p = chars_of(exe.as_str());
            match strip_suffix(p.as_slice(), " (deleted)") {
                Some(t) => text_of(t),
                None => exe.clone(),
            }
        },
        None => {
            return Image::Known(None);
        },
    };
    if let Some(file) = proof_of(own.as_str(), &chain[from]) {
        return Image::Known(Some(file));
    }
    let o = chars_of(own.as_str());
    let c = components_of(o.as_slice());
    let n: usize = mount_depth(&c);
    if n > 0 {
        let mut mount: Vec<Vec<char>> = Vec::new();
        let mut k: usize = 0;
        assert(views(mount@) =~= views(c@).take(0));
        while k < n
            invariant
                k <= n <= c@.len(),
                views(mount@) == views(c@).take(k as int),
            decreases n - k,
        {
            let ghost was = views(mount@);
            let piece = copy_chars(c[k].as_slice(), 0, c[k].len());
            assert(piece@ =~= c@[k as int]@);
            mount.push(piece);
            assert(views(mount@) =~= was.push(piece@));
            assert(views(c@).take(k + 1) =~= was.push(views(c@)[k as int]));
            k += 1;
        }
        proof {
            lemma_ancestors_skip(chain@, complete, from as int, 1, 12, own@, views(mount@));
        }
        match appimage_from_ancestors(chain, complete, from + 1, own.as_str(), &mount) {
            Image::Known(None) => {},
            other => {
                return other;
            },
        }
    }
    if is_webkit_helper(own.as_str()) {
        assert(rest.drop_first() =~= chain@.skip(from + 1));
        match image_from(chain, complete, from + 1) {
            Image::Known(None) => Image::Known(Some(own)),
            other => other,
        }
    } else {
        Image::Known(Some(own))
    }
}

proof fn lemma_ancestors_skip(
    chain: Seq<ProcFacts>,
    complete: bool,
    from: int,
    i: int,
    left: nat,
    image: Seq<char>,
    mount: Seq<Seq<char>>,
)
    requires
        0 <= from <= chain.len(),
        0 <= i,
    ensures
        ancestors_say(chain.skip(from), complete, i, left, image, mount) == ancestors_say(
            chain,
            complete,
            from + i,
            left,
            image,
            mount,
        ),
    decreases left,
{
    if i < chain.len() - from {
        assert(chain.skip(from)[i] == chain[from + i]);
        if left > 0 {
            lemma_ancestors_skip(chain, complete, from, i + 1, (left - 1) as nat, image, mount);
        }
    }
}

/// The image of a process, from what was read of it and of its ancestors so far.
pub fn image_path_of(chain: &Vec<ProcFacts>, complete: bool) -> (r: Image)
    ensures
        r@ == image_of(chain@, complete),
{
    assert(chain@.skip(0) =~= chain@);
    image_from(chain, complete, 0)
}

/// Reading one more ancestor never changes an image that is known.
pub proof fn law_a_known_image_stays(chain: Seq<ProcFacts>, more: ProcFacts, complete: bool)
    requires
        image_of(chain, false) !is MoreNeeded,
    ensures
        image_of(chain.push(more), complete) == image_of(chain, false),
    decreases chain.len(),
{
    if chain.len() > 0 && chain[0].exe is Some {
        let next = chain.push(more);
        let own = undeleted(chain[0].exe->0@);
        assert(next[0] == chain[0]);
        if proven(own, chain[0]) is None {
            if mount_of(components(own)) is Some {
                let m = mount_of(components(own))->0;
                lemma_ancestors_stay(chain, more, complete, 1, 12, own, m);
            }
            assert(next.drop_first() =~= chain.drop_first().push(more));
            let above = match mount_of(components(own)) {
                Some(m) => ancestors_say(chain, false, 1, 12, own, m),
                None => ImageView::Known(None),
            };
            if above == ImageView::Known(None) && is_helper(components(own)) {
                law_a_known_image_stays(chain.drop_first(), more, complete);
            }
        }
    }
}

proof fn lemma_ancestors_stay(
    chain: Seq<ProcFacts>,
    more: ProcFacts,
    complete: bool,
    i: int,
    left: nat,
    image: Seq<char>,
    mount: Seq<Seq<char>>,
)
    requires
        0 <= i,
        ancestors_say(chain, false, i, left, image, mount) !is MoreNeeded,
    ensures
        ancestors_say(chain.push(more), complete, i, left, image, mount) == ancestors_say(
            chain,
            false,
            i,
            left,
            image,
            mount,
        ),
    decreases left,
{
    if i < chain.len() {
        assert(chain.push(more)[i] == chain[i]);
        if left > 0 && proven(image, chain[i]) is None && chain[i].exe is Some && !is_bundle(
            chain[i],
            mount,
        ) {
            lemma_ancestors_stay(chain, more, complete, i + 1, (left - 1) as nat, image, mount);
        }
    }
}

/// The link of a socket names its inode, and a link without a socket's prefix names
/// none.
pub proof fn law_socket_links_name_their_inode(n: u64, link: Seq<char>)
    ensures
        inode_of("socket:["@ + dec_text(n as nat) + "]"@) == Some(n as nat),
        !has_prefix(link, "socket:["@) ==> inode_of(link) is None,
{
    let (a, b, d) = ("socket:["@, "]"@, dec_text(n as nat));
    let s = a + d + b;
    assert(s.take(a.len() as int) =~= a);
    assert(s.skip(a.len() as int) =~= d + b);
    assert((d + b).skip(d.len() as int) =~= b);
    assert((d + b).take(d.len() as int) =~= d);
    crate::text::law_decimal_round_trip(n as nat, u64::MAX as nat);
}

/// A process's sockets become its own, but a socket that has an owner keeps it.
pub proof fn law_sockets_keep_their_first_owner(
    owners: Seq<(u64, u32)>,
    pid: u32,
    links: Seq<Seq<char>>,
    inode: u64,
)
    requires
        crate::assoc::distinct(owners),
    ensures
        crate::assoc::distinct(owners_after(owners, pid, links)),
        lookup(owners_after(owners, pid, links), inode) == (if lookup(owners, inode) is Some {
            lookup(owners, inode)
        } else if exists|i: int|
            0 <= i < links.len() && inode_of(#[trigger] links[i]) == Some(inode as nat) {
            Some(pid)
        } else {
            None
        }),
    decreases links.len(),
{
    if links.len() > 0 {
        let front = links.drop_last();
        let before = owners_after(owners, pid, front);
        law_sockets_keep_their_first_owner(owners, pid, front, inode);
        match inode_of(links.last()) {
            Some(n) => {
                lemma_inode_fits(links.last());
                law_sockets_keep_their_first_owner(owners, pid, front, n as u64);
                crate::assoc::law_put(before, n as u64, pid, inode);
            },
            None => {},
        }
        assert(links[links.len() - 1] == links.last());
        if exists|i: int|
            0 <= i < front.len() && inode_of(#[trigger] front[i]) == Some(inode as nat) {
            let i = choose|i: int|
                0 <= i < front.len() && inode_of(#[trigger] front[i]) == Some(inode as nat);
            assert(links[i] == front[i]);
        }
        if exists|i: int|
            0 <= i < links.len() && inode_of(#[trigger] links[i]) == Some(inode as nat) {
            let i = choose|i: int|
                0 <= i < links.len() && inode_of(#[trigger] links[i]) == Some(inode as nat);
            if i < front.len() {
                assert(front[i] == links[i]);
            }
        }
    }
}

proof fn lemma_inode_fits(link: Seq<char>)
    requires
        inode_of(link) is Some,
    ensures
        inode_of(link)->0 <= u64::MAX,
{
}

/// The parent of a process is the number behind `PPid:` in its status; the lines
/// before it do not matter, and process zero is nobody's parent.
pub proof fn law_the_parent_is_named_in_the_status(
    line: Seq<char>,
    white: Seq<char>,
    n: u32,
    rest: Seq<char>,
)
    requires
        !line.contains('\n'),
        line.len() > 0 ==> line.last() != '\r',
        !has_prefix(line, "PPid:"@),
        crate::text::all_white(white),
        !white.contains('\n'),
    ensures
        parent_of(line + seq!['\n'] + rest) == parent_of(rest),
        parent_of("PPid:"@ + white + dec_text(n as nat) + seq!['\n'] + rest) == (if n == 0 {
            None
        } else {
            Some(n as nat)
        }),
{
    reveal_strlit("PPid:");
    let ls = lines(line + seq!['\n'] + rest);
    crate::text::law_lines_end_at_line_feeds(line, rest);
    assert(ls[0] == line);
    assert(ls.drop_first() =~= lines(rest));
    assert(after_prefix(line, "PPid:"@) is None);
    assert(first_parent(ls) == first_parent(lines(rest)));
    let (p, d) = ("PPid:"@, dec_text(n as nat));
    let own = p + white + d;
    crate::text::lemma_dec_text(n as nat);
    assert(!own.contains('\n')) by {
        if own.contains('\n') {
            let i = choose|i: int| 0 <= i < own.len() && own[i] == '\n';
            if i < p.len() {
                assert(own[i] == p[i]);
            } else if i < p.len() + white.len() {
                assert(white.contains(white[i - p.len()]));
            } else {
                assert(crate::text::is_digit(d[i - p.len() - white.len()]));
            }
        }
    }
    assert(crate::text::is_digit(d[d.len() - 1]));
    assert(own.last() == d[d.len() - 1]);
    crate::text::law_lines_end_at_line_feeds(own, rest);
    let ms = lines(own + seq!['\n'] + rest);
    assert(ms[0] == own);
    assert(own.take(p.len() as int) =~= p);
    assert(own.skip(p.len() as int) =~= white + d);
    assert(crate::text::is_digit(d[0]));
    lemma_trim_front(white, d);
    crate::text::law_decimal_round_trip(n as nat, u32::MAX as nat);
    assert(first_parent(ms) == Some(n as nat));
}

proof fn lemma_trim_front(white: Seq<char>, d: Seq<char>)
    requires
        crate::text::all_white(white),
        d.len() > 0,
        !crate::text::is_white(d[0]),
        !crate::text::is_white(d.last()),
    ensures
        trimmed(white + d) == d,
    decreases white.len(),
{
    let s = white + d;
    if white.len() > 0 {
        let w = white.drop_first();
        assert(crate::text::is_white(white[0]));
        assert forall|i: int| 0 <= i < w.len() implies crate::text::is_white(#[trigger] w[i]) by {
            assert(w[i] == white[i + 1]);
        }
        assert(s.drop_first() =~= w + d);
        lemma_trim_front(w, d);
    } else {
        assert(s =~= d);
    }
}

/// A variable of an environment is what follows its name and the equals sign, up to
/// the zero; entries that begin otherwise do not matter.
pub proof fn law_variables_are_read(
    other: Seq<u8>,
    name: Seq<u8>,
    value: Seq<u8>,
    rest: Seq<u8>,
)
    requires
        !other.contains(0),
        !name.contains(0),
        !value.contains(0),
        !byte_prefix(other, name),
    ensures
        variable_of(other + seq![0u8] + rest, name) == variable_of(rest, name),
        variable_of(other, name) is None,
        vstd::utf8::valid_utf8(value) ==> variable_of(name + value + seq![0u8] + rest, name)
            == Some(vstd::utf8::decode_utf8(value)),
        !vstd::utf8::valid_utf8(value) ==> variable_of(name + value + seq![0u8] + rest, name)
            is None,
{
    lemma_entry_ends(other, rest);
    let es = entries(other + seq![0u8] + rest);
    assert(es.drop_first() =~= entries(rest));
    let own = name + value;
    assert(!own.contains(0)) by {
        if own.contains(0) {
            let i = choose|i: int| 0 <= i < own.len() && own[i] == 0;
            if i < name.len() {
                assert(name.contains(name[i]));
            } else {
                assert(value.contains(value[i - name.len()]));
            }
        }
    }
    lemma_entry_ends(own, rest);
    assert(entries(own + seq![0u8] + rest)[0] == own);
    assert(own.take(name.len() as int) =~= name);
    assert(own.skip(name.len() as int) =~= value);
    assert(entries(other).drop_first() =~= Seq::empty());
    assert(first_entry(Seq::<Seq<u8>>::empty(), name) is None);
}

proof fn lemma_entry_ends(e: Seq<u8>, rest: Seq<u8>)
    requires
        !e.contains(0),
    ensures
        entries(e + seq![0u8] + rest) == seq![e] + entries(rest),
        entries(e) == seq![e],
{
    let s = e + seq![0u8] + rest;
    let k = e.len() as int;
    lemma_zero_at(s);
    lemma_zero_at(e);
    assert(s[k] == 0);
    assert forall|j: int| 0 <= j < k implies s[j] != 0 by {
        assert(s[j] == e[j]);
        assert(e.contains(e[j]));
    }
    assert forall|j: int| 0 <= j < k implies e[j] != 0 by {
        assert(e.contains(e[j]));
    }
    assert(zero_at(s) == k);
    assert(s.take(k) =~= e);
    assert(s.skip(k + 1) =~= rest);
}

/// A process is taken for a bundle only on proof: its variables name the bundle's
/// file, by an absolute path, and its mount, which the image lies in; the mount is
/// one of the kind that bundles make, and the file is there. On that proof it is.
pub proof fn law_bundles_are_believed_on_proof(
    image: Seq<char>,
    f: ProcFacts,
    dir: Seq<char>,
    file: Seq<char>,
)
    requires
        f.environ is Some,
        f.mountinfo is Some,
        variable_of(f.environ->0@, seq![65u8, 80, 80, 68, 73, 82, 61]) == Some(dir),
        variable_of(f.environ->0@, seq![65u8, 80, 80, 73, 77, 65, 71, 69, 61]) == Some(file),
    ensures
        proven(image, f) == (if f.appimage_is_file && fuse_mounted(f.mountinfo->0@, dir)
            && crate::path::is_absolute(file) && within(components(image), components(dir))
            && file_name(components(dir)) is Some && has_prefix(
            file_name(components(dir))->0,
            ".mount_"@,
        ) {
            Some(file)
        } else {
            None
        }),
{
    assert(appdir_key() =~= seq![65u8, 80, 80, 68, 73, 82, 61]);
    assert(appimage_key() =~= seq![65u8, 80, 80, 73, 77, 65, 71, 69, 61]);
}

/// Without an environment or a list of mounts nothing is proven.
pub proof fn law_nothing_is_proven_without_an_environment(image: Seq<char>, f: ProcFacts)
    requires
        f.environ is None || f.mountinfo is None,
    ensures
        proven(image, f) is None,
{
}

/// A mount of a bundle is one that its line says is made by `fuse`, at the bundle's
/// own directory.
pub proof fn law_mounts_are_read(line: Seq<char>, rest: Seq<char>, dir: Seq<char>)
    requires
        !line.contains('\n'),
        line.len() > 0 ==> line.last() != '\r',
    ensures
        fuse_mounted(line + seq!['\n'] + rest, dir) == (fuse_line(line, components(dir))
            || fuse_mounted(rest, dir)),
        fuse_line(line, components(dir)) ==> crate::text::has_part(line, " - fuse"@),
        fuse_line(line, components(dir)) ==> components(split(line, ' ')[4]) == components(dir),
        !fuse_mounted(Seq::empty(), dir),
{
    crate::text::law_lines_end_at_line_feeds(line, rest);
    let (all, own) = (lines(line + seq!['\n'] + rest), lines(rest));
    assert(all =~= seq![line] + own);
    let c = components(dir);
    if fuse_line(line, c) {
        assert(fuse_line(all[0], c));
        reveal_strlit(" - ");
        reveal_strlit("fuse");
        reveal_strlit(" - fuse");
        crate::text::law_texts_are_found_where_they_stand(line, " - "@);
        let i = find_text(line, " - "@) as int;
        let tail = line.skip(i + 3);
        let word = tail.take(find(tail, ' ') as int);
        crate::text::lemma_find(tail, ' ');
        let sub = line.subrange(i, i + 7);
        assert(line.skip(i).take(3) == " - "@);
        assert(word.take(4) == "fuse"@);
        assert forall|j: int| 0 <= j < 7 implies sub[j] == " - fuse"@[j] by {
            if j < 3 {
                assert(line.skip(i).take(3)[j] == sub[j]);
            } else {
                assert(word.take(4)[j - 3] == sub[j]);
            }
        }
        assert(sub =~= " - fuse"@);
    }
    if fuse_mounted(rest, dir) {
        let i = choose|i: int| 0 <= i < own.len() && fuse_line(#[trigger] own[i], c);
        assert(all[i + 1] == own[i]);
    }
    if fuse_mounted(line + seq!['\n'] + rest, dir) {
        let i = choose|i: int| 0 <= i < all.len() && fuse_line(#[trigger] all[i], c);
        if i > 0 {
            assert(own[i - 1] == all[i]);
        }
    }
}

/// A program runs from the file that its link names, without the mark of a deleted
/// file. A helper of the web view stands for the program that started it.
pub proof fn law_programs_run_from_their_file(chain: Seq<ProcFacts>, complete: bool, own: Seq<char>)
    requires
        chain.len() > 0,
        chain[0].exe is Some,
        chain[0].exe->0@ == own || chain[0].exe->0@ == own + " (deleted)"@,
        !crate::text::has_suffix(own, " (deleted)"@),
        proven(own, chain[0]) is None,
        mount_of(components(own)) is None,
    ensures
        !is_helper(components(own)) ==> image_of(chain, complete) == ImageView::Known(Some(own)),
        is_helper(components(own)) ==> image_of(chain, complete) == (match image_of(
            chain.drop_first(),
            complete,
        ) {
            ImageView::Known(None) => ImageView::Known(Some(own)),
            other => other,
        }),
{
    let mark = " (deleted)"@;
    assert((own + mark).skip(own.len() as int) =~= mark);
    assert((own + mark).take(own.len() as int) =~= own);
}

/// A program that lies in the mount of a bundle is the bundle that the nearest of
/// its twelve nearest ancestors, outside the mount, runs from.
pub proof fn law_mounted_programs_are_their_bundle(
    chain: Seq<ProcFacts>,
    complete: bool,
    mount: Seq<Seq<char>>,
    k: int,
)
    requires
        1 <= k < chain.len(),
        k <= 12,
        chain[0].exe is Some,
        mount_of(components(undeleted(chain[0].exe->0@))) == Some(mount),
        forall|i: int|
            0 <= i <= k ==> proven(undeleted(chain[0].exe->0@), #[trigger] chain[i]) is None,
        forall|i: int|
            1 <= i < k ==> (#[trigger] chain[i]).exe is Some && !is_bundle(chain[i], mount),
        is_bundle(chain[k], mount),
    ensures
        image_of(chain, complete) == ImageView::Known(Some(chain[k].exe->0@)),
        chain[k].exe_is_file,
        !within(components(chain[k].exe->0@), mount),
{
    let own = undeleted(chain[0].exe->0@);
    assert(proven(own, chain[0]) is None);
    lemma_nearest_bundle(chain, complete, 1, 12, own, mount, k);
}

proof fn lemma_nearest_bundle(
    chain: Seq<ProcFacts>,
    complete: bool,
    i: int,
    left: nat,
    image: Seq<char>,
    mount: Seq<Seq<char>>,
    k: int,
)
    requires
        1 <= i <= k < chain.len(),
        k - i < left,
        forall|j: int| 1 <= j <= k ==> proven(image, #[trigger] chain[j]) is None,
        forall|j: int|
            1 <= j < k ==> (#[trigger] chain[j]).exe is Some && !is_bundle(chain[j], mount),
        is_bundle(chain[k], mount),
    ensures
        ancestors_say(chain, complete, i, left, image, mount) == ImageView::Known(
            Some(chain[k].exe->0@),
        ),
    decreases k - i,
{
    assert(proven(image, chain[i]) is None);
    if i < k {
        lemma_nearest_bundle(chain, complete, i + 1, (left - 1) as nat, image, mount, k);
    }
}

} // verus!
