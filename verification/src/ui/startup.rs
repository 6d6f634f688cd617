//! Starting at login.

use crate::path::{join, joined};
use crate::text::{chars_of, owned, str_view};
use vstd::prelude::*;

verus! {

/// The registry key that programs to start at login stand under.
pub const RUN_KEY: &'static str = "Software\\Microsoft\\Windows\\CurrentVersion\\Run";

/// The entry that starts the program at login, under the user's configuration.
pub open spec fn autostart_path(config: Option<Seq<char>>, home: Option<Seq<char>>) -> Option<
    Seq<char>,
> {
    match (config, home) {
        (Some(c), _) => Some(joined(joined(c, "autostart"@), "iris.desktop"@)),
        (None, Some(h)) => Some(
            joined(joined(joined(h, ".config"@), "autostart"@), "iris.desktop"@),
        ),
        (None, None) => None,
    }
}

/// The entry that starts the program at login, under the user's configuration.
pub fn autostart_file(config: Option<&str>, home: Option<&str>) -> (r: Option<String>)
    ensures
        match r {
            Some(p) => autostart_path(str_view(config), str_view(home)) == Some(p@),
            None => autostart_path(str_view(config), str_view(home)) is None,
        },
{
    let base = match config {
        Some(c) => owned(c),
        None => match home {
            Some(h) => join(h, ".config"),
            None => {
                return None;
            },
        },
    };
    let dir = join(base.as_str(), "autostart");
    Some(join(dir.as_str(), "iris.desktop"))
}

/// A character inside a quoted word of a desktop entry.
pub open spec fn escape(c: char) -> Seq<char> {
    if c == '\\' {
        seq!['\\', '\\']
    } else if c == '"' {
        seq!['\\', '"']
    } else {
        seq![c]
    }
}

/// A text inside a quoted word of a desktop entry.
pub open spec fn escaped(s: Seq<char>) -> Seq<char>
    decreases s.len(),
{
    if s.len() == 0 {
        Seq::empty()
    } else {
        escape(s[0]) + escaped(s.drop_first())
    }
}

/// The text of a quoted word: a backslash takes the next character as it is.
pub open spec fn unescaped(s: Seq<char>) -> Seq<char>
    decreases s.len(),
{
    if s.len() == 0 {
        Seq::empty()
    } else if s[0] == '\\' && s.len() > 1 {
        seq![s[1]] + unescaped(s.skip(2))
    } else {
        seq![s[0]] + unescaped(s.drop_first())
    }
}

fn push_escaped(out: &mut String, s: &str)
    ensures
        final(out)@ == old(out)@ + escaped(s@),
{
    let chars = chars_of(s);
    let ghost start = out@;
    let mut i: usize = 0;
    assert(chars@.skip(0) =~= chars@);
    while i < chars.len()
        invariant
            i <= chars@.len(),
            out@ + escaped(chars@.skip(i as int)) == start + escaped(chars@),
        decreases chars@.len() - i,
    {
        let ghost before = out@;
        let ghost rest = chars@.skip(i as int);
        assert(rest.drop_first() =~= chars@.skip(i + 1));
        let c: char = chars[i];
        if c == '\\' || c == '"' {
            out.push('\\');
        }
        out.push(c);
        assert(out@ =~= before + escape(c));
        i += 1;
        assert(out@ + escaped(chars@.skip(i as int)) =~= before + escaped(rest));
    }
    assert(chars@.skip(i as int) =~= Seq::empty());
    assert(out@ =~= start + escaped(chars@));
}

/// The entry that starts a program at login, in the tray.
pub fn autostart_entry(exe: &str) -> (s: String)
    ensures
        s@ == "[Desktop Entry]\nType=Application\nName=Iris\nExec=\""@ + escaped(exe@)
            + "\" --tray\nX-GNOME-Autostart-enabled=true\nTerminal=false\n"@,
{
    let mut s = owned("[Desktop Entry]\nType=Application\nName=Iris\nExec=\"");
    push_escaped(&mut s, exe);
    s.push_str("\" --tray\nX-GNOME-Autostart-enabled=true\nTerminal=false\n");
    s
}

/// The command that starts a program at login, in the tray.
pub fn run_command(exe: &str) -> (s: String)
    ensures
        s@ == "\""@ + exe@ + "\" --tray"@,
{
    let mut s = owned("\"");
    s.push_str(exe);
    s.push_str("\" --tray");
    s
}

/// The program in an entry is the one that was put there, whatever its path
/// holds.
pub proof fn law_entries_name_their_program(s: Seq<char>)
    ensures
        unescaped(escaped(s)) == s,
    decreases s.len(),
{
    if s.len() > 0 {
        law_entries_name_their_program(s.drop_first());
        let rest = escaped(s.drop_first());
        let all = escaped(s);
        if s[0] == '\\' || s[0] == '"' {
            assert(all.skip(2) =~= rest);
        } else {
            assert(all.drop_first() =~= rest);
        }
        assert(unescaped(all) =~= s);
    }
}

/// The entry stands in the configuration folder where there is one, and else in that
/// of the home folder.
pub proof fn law_the_entry_stands_in_the_configuration(
    config: Seq<char>,
    home: Option<Seq<char>>,
    at: Seq<char>,
)
    requires
        config.len() > 0,
        config.last() != '/',
        at.len() > 0,
        at.last() != '/',
    ensures
        autostart_path(Some(config), home) == Some(config + "/autostart/iris.desktop"@),
        autostart_path(None, Some(at)) == Some(at + "/.config/autostart/iris.desktop"@),
        autostart_path(None, None) is None,
{
    reveal_strlit("autostart");
    reveal_strlit("iris.desktop");
    reveal_strlit(".config");
    reveal_strlit("/autostart/iris.desktop");
    reveal_strlit("/.config/autostart/iris.desktop");
    let folder = config + seq!['/'] + "autostart"@;
    assert(joined(config, "autostart"@) =~= folder);
    assert(joined(folder, "iris.desktop"@) =~= config + "/autostart/iris.desktop"@);
    let own = at + seq!['/'] + ".config"@;
    assert(joined(at, ".config"@) =~= own);
    let deep = own + seq!['/'] + "autostart"@;
    assert(joined(own, "autostart"@) =~= deep);
    assert(joined(deep, "iris.desktop"@) =~= at + "/.config/autostart/iris.desktop"@);
}

} // verus!
