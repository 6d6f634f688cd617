//! When the window is to be drawn through X11.

use crate::text::{
    after_prefix, chars_of, lines, lines_of, same, str_view, strip_prefix, text_of, trim_chars,
    trimmed, views,
};
use vstd::prelude::*;

verus! {

/// What the session's variables say.
#[derive(Debug, Clone, Copy)]
pub struct Session<'a> {
    /// Whether the user sets a scale already.
    pub scaled: bool,
    /// Whether there is an X server.
    pub display: bool,
    /// The backend that is asked for.
    pub backend: Option<&'a str>,
    /// The kind of session.
    pub kind: Option<&'a str>,
}

impl<'a> Session<'a> {
    /// Whether drawing through X11 is possible, and nobody asked for something
    /// else.
    pub open spec fn may_fall_back(self) -> bool {
        &&& !self.scaled
        &&& self.display
        &&& (match self.backend {
            Some(b) => b@ == "x11"@,
            None => str_view(self.kind) == Some("wayland"@),
        })
    }
}

/// Whether drawing through X11 is possible, and nobody asked for something else.
pub fn may_fall_back(s: &Session) -> (r: bool)
    ensures
        r == s.may_fall_back(),
{
    if s.scaled || !s.display {
        return false;
    }
    match s.backend {
        Some(b) => same(b, "x11"),
        None => match s.kind {
            Some(k) => same(k, "wayland"),
            None => false,
        },
    }
}

/// The values that lines set the resolution to, in order, with the white space
/// round them taken off.
pub open spec fn resolutions(ls: Seq<Seq<char>>) -> Seq<Seq<char>>
    decreases ls.len(),
{
    if ls.len() == 0 {
        Seq::empty()
    } else {
        match after_prefix(ls.last(), "Xft.dpi:"@) {
            Some(v) => resolutions(ls.drop_last()).push(trimmed(v)),
            None => resolutions(ls.drop_last()),
        }
    }
}

/// The values that the X server's resources set the resolution to. The first one
/// that is a number counts.
pub fn dpi_values(resources: &str) -> (r: Vec<String>)
    ensures
        crate::text::texts(r@) == resolutions(lines(resources@)),
{
    let chars = chars_of(resources);
    let ls = lines_of(chars.as_slice());
    let ghost all = lines(resources@);
    let mut out: Vec<String> = Vec::new();
    let mut i: usize = 0;
    assert(crate::text::texts(out@) =~= resolutions(all.take(0)));
    while i < ls.len()
        invariant
            i <= ls@.len(),
            views(ls@) == all,
            crate::text::texts(out@) == resolutions(all.take(i as int)),
        decreases ls@.len() - i,
    {
        assert(all.len() == ls@.len());
        assert(all.take(i + 1).drop_last() =~= all.take(i as int));
        assert(all.take(i + 1).last() == ls@[i as int]@);
        let ghost before = out@;
        if let Some(v) = strip_prefix(ls[i].as_slice(), "Xft.dpi:") {
            let t = trim_chars(v);
            out.push(text_of(t));
            assert(crate::text::texts(out@) =~= crate::text::texts(before).push(trimmed(v@)));
        }
        i += 1;
    }
    assert(all.len() == ls@.len());
    assert(all.take(ls@.len() as int) =~= all);
    out
}

/// The resolutions are what stands behind `Xft.dpi:`, line by line.
pub proof fn law_resolutions_stand_behind_their_name(ls: Seq<Seq<char>>, v: Seq<char>, other: Seq<char>)
    requires
        !crate::text::has_prefix(other, "Xft.dpi:"@),
    ensures
        resolutions(ls.push("Xft.dpi:"@ + v)) == resolutions(ls).push(trimmed(v)),
        resolutions(ls.push(other)) == resolutions(ls),
        resolutions(Seq::empty()).len() == 0,
{
    let p = "Xft.dpi:"@;
    assert((p + v).take(p.len() as int) =~= p);
    assert((p + v).skip(p.len() as int) =~= v);
    assert(ls.push(p + v).drop_last() =~= ls);
    assert(ls.push(other).drop_last() =~= ls);
}

} // verus!
