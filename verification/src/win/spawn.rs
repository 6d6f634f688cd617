//! Starting plugins with few rights.

use crate::linux::spawn::pair_views;
use crate::text::{chars_of, owned, same_ascii, same_letters};
use crate::utf16::{encoded, wide};
use vstd::prelude::*;

verus! {

/// The variables that a plugin keeps of this process's.
pub open spec fn kept_names() -> Seq<Seq<char>> {
    seq![
        "SystemRoot"@,
        "SystemDrive"@,
        "windir"@,
        "ComSpec"@,
        "PATH"@,
        "PATHEXT"@,
        "OS"@,
        "NUMBER_OF_PROCESSORS"@,
        "PROCESSOR_ARCHITECTURE"@,
        "PROCESSOR_IDENTIFIER"@,
        "PROCESSOR_LEVEL"@,
        "PROCESSOR_REVISION"@,
        "COMPUTERNAME"@,
        "TEMP"@,
        "TMP"@,
        "ALLUSERSPROFILE"@,
        "ProgramData"@,
        "ProgramFiles"@,
        "ProgramFiles(x86)"@,
        "ProgramW6432"@,
        "CommonProgramFiles"@,
        "CommonProgramFiles(x86)"@,
        "CommonProgramW6432"@,
    ]
}

fn keep_env() -> (r: Vec<&'static str>)
    ensures
        r@.len() == kept_names().len(),
        forall|i: int| 0 <= i < r@.len() ==> #[trigger] r@[i]@ == kept_names()[i],
{
    let mut r: Vec<&'static str> = Vec::new();
    r.push("SystemRoot");
    r.push("SystemDrive");
    r.push("windir");
    r.push("ComSpec");
    r.push("PATH");
    r.push("PATHEXT");
    r.push("OS");
    r.push("NUMBER_OF_PROCESSORS");
    r.push("PROCESSOR_ARCHITECTURE");
    r.push("PROCESSOR_IDENTIFIER");
    r.push("PROCESSOR_LEVEL");
    r.push("PROCESSOR_REVISION");
    r.push("COMPUTERNAME");
    r.push("TEMP");
    r.push("TMP");
    r.push("ALLUSERSPROFILE");
    r.push("ProgramData");
    r.push("ProgramFiles");
    r.push("ProgramFiles(x86)");
    r.push("ProgramW6432");
    r.push("CommonProgramFiles");
    r.push("CommonProgramFiles(x86)");
    r.push("CommonProgramW6432");
    r
}

/// Whether a plugin keeps a variable.
pub open spec fn keeps(name: Seq<char>) -> bool {
    exists|i: int| 0 <= i < kept_names().len() && same_ascii(name, #[trigger] kept_names()[i])
}

fn is_kept(name: &Vec<char>, keep: &Vec<&'static str>) -> (r: bool)
    requires
        keep@.len() == kept_names().len(),
        forall|i: int| 0 <= i < keep@.len() ==> #[trigger] keep@[i]@ == kept_names()[i],
    ensures
        r == keeps(name@),
{
    let mut i: usize = 0;
    while i < keep.len()
        invariant
            i <= keep@.len(),
            keep@.len() == kept_names().len(),
            forall|j: int| 0 <= j < keep@.len() ==> #[trigger] keep@[j]@ == kept_names()[j],
            forall|j: int| 0 <= j < i ==> !same_ascii(name@, #[trigger] kept_names()[j]),
        decreases keep@.len() - i,
    {
        let k = chars_of(keep[i]);
        assert(k@ == kept_names()[i as int]);
        if same_letters(name.as_slice(), k.as_slice()) {
            return true;
        }
        i += 1;
    }
    false
}

/// Whether a name comes before another.
pub open spec fn before(a: Seq<char>, b: Seq<char>) -> bool
    decreases a.len(),
{
    if b.len() == 0 {
        false
    } else if a.len() == 0 {
        true
    } else if a[0] != b[0] {
        (a[0] as u32) < (b[0] as u32)
    } else {
        before(a.drop_first(), b.drop_first())
    }
}

fn comes_before(a: &Vec<char>, b: &Vec<char>) -> (r: bool)
    ensures
        r == before(a@, b@),
{
    let mut i: usize = 0;
    assert(a@.skip(0) =~= a@);
    assert(b@.skip(0) =~= b@);
    while i < a.len() && i < b.len()
        invariant
            i <= a@.len(),
            i <= b@.len(),
            before(a@.skip(i as int), b@.skip(i as int)) == before(a@, b@),
        decreases a@.len() - i,
    {
        assert(a@.skip(i as int).drop_first() =~= a@.skip(i + 1));
        assert(b@.skip(i as int).drop_first() =~= b@.skip(i + 1));
        if a[i] != b[i] {
            return (a[i] as u32) < (b[i] as u32);
        }
        i += 1;
    }
    i < b.len()
}

/// Variables in order, with one more: in its place among them, or in place of the
/// one of its name.
pub open spec fn with_var(
    vars: Seq<(Seq<char>, Seq<char>)>,
    name: Seq<char>,
    value: Seq<char>,
) -> Seq<(Seq<char>, Seq<char>)>
    decreases vars.len(),
{
    if vars.len() == 0 || before(name, vars[0].0) {
        seq![(name, value)] + vars
    } else if name == vars[0].0 {
        seq![(name, value)] + vars.drop_first()
    } else {
        seq![vars[0]] + with_var(vars.drop_first(), name, value)
    }
}

/// The variables that are kept, in order.
pub open spec fn kept_vars(vars: Seq<(Seq<char>, Seq<char>)>) -> Seq<(Seq<char>, Seq<char>)>
    decreases vars.len(),
{
    if vars.len() == 0 {
        Seq::empty()
    } else {
        let front = kept_vars(vars.drop_last());
        let (name, value) = vars.last();
        if keeps(name) {
            with_var(front, name, value)
        } else {
            front
        }
    }
}

/// Variables with more of them, which count over what is there.
pub open spec fn merged(
    vars: Seq<(Seq<char>, Seq<char>)>,
    extra: Seq<(Seq<char>, Seq<char>)>,
) -> Seq<(Seq<char>, Seq<char>)>
    decreases extra.len(),
{
    if extra.len() == 0 {
        vars
    } else {
        let (name, value) = extra.last();
        with_var(merged(vars, extra.drop_last()), name, value)
    }
}

/// The block of variables: each as its name, an equals sign, its value and a
/// zero, and a zero at the end.
pub open spec fn block_of(vars: Seq<(Seq<char>, Seq<char>)>) -> Seq<u16> {
    entries_of(vars).push(0)
}

/// The variables of a block.
pub open spec fn entries_of(vars: Seq<(Seq<char>, Seq<char>)>) -> Seq<u16>
    decreases vars.len(),
{
    if vars.len() == 0 {
        Seq::empty()
    } else {
        let (name, value) = vars.last();
        entries_of(vars.drop_last()) + encoded(name + seq!['='] + value).push(0)
    }
}

fn put_var(vars: Vec<(String, String)>, name: &str, value: &str) -> (r: Vec<(String, String)>)
    ensures
        pair_views(r@) == with_var(pair_views(vars@), name@, value@),
{
    let ghost all = pair_views(vars@);
    let n = chars_of(name);
    let mut k: usize = 0;
    let mut same: bool = false;
    assert(all.skip(0) =~= all);
    assert(all.take(0) + with_var(all, name@, value@) =~= with_var(all, name@, value@));
    while k < vars.len()
        invariant_except_break
            !same,
        invariant
            k <= vars@.len(),
            n@ == name@,
            all == pair_views(vars@),
            all.take(k as int) + with_var(all.skip(k as int), name@, value@) == with_var(
                all,
                name@,
                value@,
            ),
        ensures
            same ==> k < vars@.len() && all[k as int].0 == name@ && !before(name@, name@),
            !same ==> k == vars@.len() || before(name@, all[k as int].0),
        decreases vars@.len() - k,
    {
        let ghost rest = all.skip(k as int);
        assert(rest[0] == all[k as int] && rest[0].0 == vars@[k as int].0@);
        assert(rest.drop_first() =~= all.skip(k + 1));
        let other = chars_of(vars[k].0.as_str());
        if comes_before(&n, &other) {
            break;
        }
        if crate::text::same_chars(n.as_slice(), other.as_slice()) {
            same = true;
            break;
        }
        assert(all.take(k + 1) =~= all.take(k as int).push(all[k as int]));
        assert(all.take(k as int) + with_var(rest, name@, value@) =~= all.take(k + 1) + with_var(
            all.skip(k + 1),
            name@,
            value@,
        ));
        k += 1;
    }
    let ghost rest = all.skip(k as int);
    let mut r = vars;
    if same {
        assert(rest[0] == all[k as int]);
        r.set(k, (owned(name), owned(value)));
        assert(pair_views(r@) =~= all.update(k as int, (name@, value@)));
        assert(pair_views(r@) =~= all.take(k as int) + with_var(rest, name@, value@));
    } else {
        r.insert(k, (owned(name), owned(value)));
        assert(pair_views(r@) =~= all.insert(k as int, (name@, value@)));
        assert(k < all.len() ==> rest[0] == all[k as int]);
        assert(pair_views(r@) =~= all.take(k as int) + with_var(rest, name@, value@));
    }
    r
}

/// A plugin's variables as one block: the standard ones of this process's, and
/// those that are given, which count over them. Nothing else of this process's
/// reaches the plugin.
pub fn build_environment(vars: &Vec<(String, String)>, extra: &Vec<(String, String)>) -> (out: Vec<
    u16,
>)
    ensures
        out@ == block_of(merged(kept_vars(pair_views(vars@)), pair_views(extra@))),
{
    let keep = keep_env();
    let ghost all = pair_views(vars@);
    let mut list: Vec<(String, String)> = Vec::new();
    let mut i: usize = 0;
    assert(pair_views(list@) =~= kept_vars(all.take(0)));
    while i < vars.len()
        invariant
            i <= vars@.len(),
            all == pair_views(vars@),
            keep@.len() == kept_names().len(),
            forall|j: int| 0 <= j < keep@.len() ==> #[trigger] keep@[j]@ == kept_names()[j],
            pair_views(list@) == kept_vars(all.take(i as int)),
        decreases vars@.len() - i,
    {
        assert(all.take(i + 1).drop_last() =~= all.take(i as int));
        assert(all.take(i + 1).last() == (vars@[i as int].0@, vars@[i as int].1@));
        let name = chars_of(vars[i].0.as_str());
        if is_kept(&name, &keep) {
            list = put_var(list, vars[i].0.as_str(), vars[i].1.as_str());
        }
        i += 1;
    }
    assert(all.take(i as int) =~= all);
    let ghost kept = kept_vars(all);
    let ghost more = pair_views(extra@);
    let mut j: usize = 0;
    assert(more.take(0) =~= Seq::empty());
    while j < extra.len()
        invariant
            j <= extra@.len(),
            more == pair_views(extra@),
            pair_views(list@) == merged(kept, more.take(j as int)),
        decreases extra@.len() - j,
    {
        assert(more.take(j + 1).drop_last() =~= more.take(j as int));
        assert(more.take(j + 1).last() == (extra@[j as int].0@, extra@[j as int].1@));
        list = put_var(list, extra[j].0.as_str(), extra[j].1.as_str());
        j += 1;
    }
    assert(more.take(j as int) =~= more);
    let ghost env = pair_views(list@);
    let mut out: Vec<u16> = Vec::new();
    let mut k: usize = 0;
    assert(out@ =~= entries_of(env.take(0)));
    while k < list.len()
        invariant
            k <= list@.len(),
            env == pair_views(list@),
            out@ == entries_of(env.take(k as int)),
        decreases list@.len() - k,
    {
        assert(env.take(k + 1).drop_last() =~= env.take(k as int));
        assert(env.take(k + 1).last() == (list@[k as int].0@, list@[k as int].1@));
        let mut entry = list[k].0.clone();
        entry.push('=');
        entry.push_str(list[k].1.as_str());
        assert(entry@ =~= list@[k as int].0@ + seq!['='] + list@[k as int].1@);
        let units = wide(entry.as_str());
        let mut u: usize = 0;
        let ghost front = out@;
        while u < units.len()
            invariant
                u <= units@.len(),
                out@ == front + units@.take(u as int),
            decreases units@.len() - u,
        {
            out.push(units[u]);
            u += 1;
            assert(out@ =~= front + units@.take(u as int));
        }
        assert(units@.take(u as int) =~= units@);
        k += 1;
    }
    assert(env.take(k as int) =~= env);
    out.push(0);
    out
}

/// The command line of a plugin: its path in quotes.
pub fn command_line(exe: &str) -> (s: String)
    ensures
        s@ == "\""@ + exe@ + "\""@,
{
    let mut s = owned("\"");
    s.push_str(exe);
    s.push_str("\"");
    s
}

/// What is done to start a plugin, in order.
#[derive(Debug, Clone, Copy, PartialEq, Eq, Structural)]
pub enum Stage {
    /// Opens this process's token.
    Open,
    /// Makes a token of it without its rights.
    Restrict,
    /// Lowers that token's integrity.
    Lower,
    /// Starts the plugin with it, suspended.
    Create,
}

/// What is held while a plugin is started.
#[derive(Debug, Clone, Copy, PartialEq, Eq, Structural)]
pub enum Handle {
    /// This process's token.
    Base,
    /// The token without rights.
    Restricted,
}

/// What comes next.
#[derive(Debug, Clone, Copy, PartialEq, Eq, Structural)]
pub enum Next {
    Do(Stage),
    Failed,
    /// The plugin is there, to be confined and let go.
    Started,
}

/// What is let go after a step, and what comes next.
#[derive(Debug, Clone, Copy, PartialEq, Eq, Structural)]
pub struct After {
    pub close: Option<Handle>,
    pub next: Next,
}

/// What is done after a step that succeeded or not.
pub open spec fn after(stage: Stage, ok: bool) -> After {
    match stage {
        Stage::Open => After {
            close: None,
            next: if ok {
                Next::Do(Stage::Restrict)
            } else {
                Next::Failed
            },
        },
        Stage::Restrict => After {
            close: Some(Handle::Base),
            next: if ok {
                Next::Do(Stage::Lower)
            } else {
                Next::Failed
            },
        },
        Stage::Lower => if ok {
            After { close: None, next: Next::Do(Stage::Create) }
        } else {
            After { close: Some(Handle::Restricted), next: Next::Failed }
        },
        Stage::Create => After {
            close: Some(Handle::Restricted),
            next: if ok {
                Next::Started
            } else {
                Next::Failed
            },
        },
    }
}

/// What is done after a step to start a plugin.
pub fn spawn_restricted(stage: Stage, ok: bool) -> (r: After)
    ensures
        r == after(stage, ok),
{
    match stage {
        Stage::Open => After {
            close: None,
            next: if ok {
                Next::Do(Stage::Restrict)
            } else {
                Next::Failed
            },
        },
        Stage::Restrict => After {
            close: Some(Handle::Base),
            next: if ok {
                Next::Do(Stage::Lower)
            } else {
                Next::Failed
            },
        },
        Stage::Lower => {
            if ok {
                After { close: None, next: Next::Do(Stage::Create) }
            } else {
                After { close: Some(Handle::Restricted), next: Next::Failed }
            }
        },
        Stage::Create => After {
            close: Some(Handle::Restricted),
            next: if ok {
                Next::Started
            } else {
                Next::Failed
            },
        },
    }
}

/// What a step holds once it succeeded.
pub open spec fn gained(stage: Stage, ok: bool) -> Set<Handle> {
    if !ok {
        Set::empty()
    } else {
        match stage {
            Stage::Open => set![Handle::Base],
            Stage::Restrict => set![Handle::Restricted],
            _ => Set::empty(),
        }
    }
}

/// What is held when a step begins.
pub open spec fn held_before(stage: Stage) -> Set<Handle> {
    match stage {
        Stage::Open => Set::empty(),
        Stage::Restrict => set![Handle::Base],
        Stage::Lower => set![Handle::Restricted],
        Stage::Create => set![Handle::Restricted],
    }
}

/// What is held after a step.
pub open spec fn held_after(stage: Stage, ok: bool) -> Set<Handle> {
    let held = held_before(stage).union(gained(stage, ok));
    match after(stage, ok).close {
        Some(h) => held.remove(h),
        None => held,
    }
}

/// However starting a plugin ends, no token is left open; and every step finds
/// what it needs.
pub proof fn law_tokens_are_let_go(stage: Stage, ok: bool)
    ensures
        match after(stage, ok).next {
            Next::Do(s) => held_after(stage, ok) == held_before(s),
            Next::Failed => held_after(stage, ok) == Set::<Handle>::empty(),
            Next::Started => held_after(stage, ok) == Set::<Handle>::empty(),
        },
{
    match after(stage, ok).next {
        Next::Do(s) => {
            assert(held_after(stage, ok) =~= held_before(s));
        },
        _ => {
            assert(held_after(stage, ok) =~= Set::<Handle>::empty());
        },
    }
}

/// What is done to confine a plugin, in order.
#[derive(Debug, Clone, Copy, PartialEq, Eq, Structural)]
pub enum JobStage {
    Create,
    /// Has the job end its members when it is closed.
    Limit,
    Assign,
}

/// What comes next of confining a plugin.
#[derive(Debug, Clone, Copy, PartialEq, Eq, Structural)]
pub enum JobNext {
    Do(JobStage),
    /// The plugin runs without a job; one that was made is closed.
    Without { close: bool },
    /// The plugin is in its job.
    Confined,
}

/// What is done after a step to confine a plugin.
pub fn confine_to_job(stage: JobStage, ok: bool) -> (r: JobNext)
    ensures
        r == match stage {
            JobStage::Create => if ok {
                JobNext::Do(JobStage::Limit)
            } else {
                JobNext::Without { close: false }
            },
            JobStage::Limit => if ok {
                JobNext::Do(JobStage::Assign)
            } else {
                JobNext::Without { close: true }
            },
            JobStage::Assign => if ok {
                JobNext::Confined
            } else {
                JobNext::Without { close: true }
            },
        },
{
    match stage {
        JobStage::Create => {
            if ok {
                JobNext::Do(JobStage::Limit)
            } else {
                JobNext::Without { close: false }
            }
        },
        JobStage::Limit => {
            if ok {
                JobNext::Do(JobStage::Assign)
            } else {
                JobNext::Without { close: true }
            }
        },
        JobStage::Assign => {
            if ok {
                JobNext::Confined
            } else {
                JobNext::Without { close: true }
            }
        },
    }
}

/// The code that a plugin ended with, once it has.
pub fn exit_code(alive: bool, code: Option<u32>) -> (r: Option<u32>)
    ensures
        r == (if alive {
            None
        } else {
            code
        }),
{
    if alive {
        None
    } else {
        code
    }
}

proof fn lemma_with_var(
    vars: Seq<(Seq<char>, Seq<char>)>,
    name: Seq<char>,
    value: Seq<char>,
    i: int,
)
    requires
        0 <= i < with_var(vars, name, value).len(),
    ensures
        with_var(vars, name, value)[i] == (name, value) || vars.contains(
            with_var(vars, name, value)[i],
        ),
    decreases vars.len(),
{
    let all = with_var(vars, name, value);
    if vars.len() == 0 || before(name, vars[0].0) {
        if i > 0 {
            assert(all[i] == vars[i - 1]);
        }
    } else if name == vars[0].0 {
        if i > 0 {
            assert(all[i] == vars[i]);
        }
    } else if i > 0 {
        lemma_with_var(vars.drop_first(), name, value, i - 1);
        if vars.drop_first().contains(all[i]) {
            let k = choose|k: int|
                0 <= k < vars.drop_first().len() && vars.drop_first()[k] == all[i];
            assert(vars[k + 1] == all[i]);
        }
    } else {
        assert(all[0] == vars[0]);
    }
}

proof fn lemma_kept_vars(vars: Seq<(Seq<char>, Seq<char>)>, i: int)
    requires
        0 <= i < kept_vars(vars).len(),
    ensures
        keeps(kept_vars(vars)[i].0),
    decreases vars.len(),
{
    if vars.len() > 0 {
        let front = kept_vars(vars.drop_last());
        let (name, value) = vars.last();
        if keeps(name) {
            lemma_with_var(front, name, value, i);
            let e = kept_vars(vars)[i];
            if e != (name, value) {
                let k = choose|k: int| 0 <= k < front.len() && front[k] == e;
                lemma_kept_vars(vars.drop_last(), k);
            }
        } else {
            lemma_kept_vars(vars.drop_last(), i);
        }
    }
}

/// A plugin has no variable but the standard ones and those that it was given.
pub proof fn law_plugins_learn_nothing_else(
    vars: Seq<(Seq<char>, Seq<char>)>,
    extra: Seq<(Seq<char>, Seq<char>)>,
    i: int,
)
    requires
        0 <= i < merged(kept_vars(vars), extra).len(),
    ensures
        keeps(merged(kept_vars(vars), extra)[i].0) || extra.contains(
            merged(kept_vars(vars), extra)[i],
        ),
    decreases extra.len(),
{
    let all = merged(kept_vars(vars), extra);
    if extra.len() == 0 {
        lemma_kept_vars(vars, i);
    } else {
        let front = merged(kept_vars(vars), extra.drop_last());
        let (name, value) = extra.last();
        lemma_with_var(front, name, value, i);
        if all[i] == (name, value) {
            assert(extra[extra.len() - 1] == all[i]);
        } else {
            let k = choose|k: int| 0 <= k < front.len() && front[k] == all[i];
            law_plugins_learn_nothing_else(vars, extra.drop_last(), k);
            if extra.drop_last().contains(all[i]) {
                let j = choose|j: int|
                    0 <= j < extra.drop_last().len() && extra.drop_last()[j] == all[i];
                assert(extra[j] == all[i]);
            }
        }
    }
}

/// A variable that is set has its value, and the others that were set stay.
pub proof fn law_variables_are_set(
    vars: Seq<(Seq<char>, Seq<char>)>,
    name: Seq<char>,
    value: Seq<char>,
    other: (Seq<char>, Seq<char>),
)
    requires
        other.0 != name,
    ensures
        with_var(vars, name, value).contains((name, value)),
        vars.contains(other) ==> with_var(vars, name, value).contains(other),
    decreases vars.len(),
{
    let out = with_var(vars, name, value);
    if vars.len() == 0 || before(name, vars[0].0) {
        assert(out[0] == (name, value));
        if vars.contains(other) {
            let i = choose|i: int| 0 <= i < vars.len() && vars[i] == other;
            assert(out[i + 1] == other);
        }
    } else if name == vars[0].0 {
        assert(out[0] == (name, value));
        if vars.contains(other) {
            let i = choose|i: int| 0 <= i < vars.len() && vars[i] == other;
            assert(out[i] == other);
        }
    } else {
        let rest = vars.drop_first();
        let tail = with_var(rest, name, value);
        law_variables_are_set(rest, name, value, other);
        let k = choose|k: int| 0 <= k < tail.len() && tail[k] == (name, value);
        assert(out[k + 1] == (name, value));
        if vars.contains(other) {
            let i = choose|i: int| 0 <= i < vars.len() && vars[i] == other;
            if i == 0 {
                assert(out[0] == other);
            } else {
                assert(rest[i - 1] == other);
                let j = choose|j: int| 0 <= j < tail.len() && tail[j] == other;
                assert(out[j + 1] == other);
            }
        }
    }
}

/// The variables that a plugin is given are in its environment, whatever was kept of
/// the service's, and the last value of a name counts.
pub proof fn law_given_variables_are_there(
    vars: Seq<(Seq<char>, Seq<char>)>,
    extra: Seq<(Seq<char>, Seq<char>)>,
    name: Seq<char>,
    value: Seq<char>,
    other: (Seq<char>, Seq<char>),
)
    requires
        other.0 != name,
    ensures
        merged(vars, extra.push((name, value))).contains((name, value)),
        merged(vars, extra).contains(other) ==> merged(vars, extra.push((name, value))).contains(
            other,
        ),
        merged(vars, Seq::empty()) == vars,
{
    assert(extra.push((name, value)).drop_last() =~= extra);
    law_variables_are_set(merged(vars, extra), name, value, other);
}

/// The names of the variables come in the order of their characters, and a name comes
/// before the longer ones that begin with it.
pub proof fn law_names_come_in_order(p: Seq<char>, a: char, b: char, x: Seq<char>, y: Seq<char>)
    requires
        (a as u32) < (b as u32),
    ensures
        before(p + seq![a] + x, p + seq![b] + y),
        !before(p + seq![b] + y, p + seq![a] + x),
        before(p, p + seq![a] + x),
        !before(p + seq![a] + x, p),
        !before(p, p),
    decreases p.len(),
{
    let (s, t) = (p + seq![a] + x, p + seq![b] + y);
    if p.len() > 0 {
        let q = p.drop_first();
        law_names_come_in_order(q, a, b, x, y);
        assert(s.drop_first() =~= q + seq![a] + x);
        assert(t.drop_first() =~= q + seq![b] + y);
        assert(s[0] == p[0] && t[0] == p[0]);
    } else {
        assert(s[0] == a && t[0] == b);
    }
}

/// An environment holds each variable with an equals sign and a zero behind it, and
/// one more zero at its end.
pub proof fn law_environments_end_in_two_zeros(
    vars: Seq<(Seq<char>, Seq<char>)>,
    name: Seq<char>,
    value: Seq<char>,
)
    ensures
        block_of(vars.push((name, value))) == entries_of(vars) + encoded(
            name + seq!['='] + value,
        ) + seq![0u16, 0u16],
{
    assert(vars.push((name, value)).drop_last() =~= vars);
    let e = encoded(name + seq!['='] + value);
    assert((entries_of(vars) + e.push(0)).push(0) =~= entries_of(vars) + e + seq![0u16, 0u16]);
}

} // verus!
