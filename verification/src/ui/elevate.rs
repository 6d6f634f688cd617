//! Running the engine's program with more rights: its command line, and what its
//! end means.

use crate::text::{
    chars_of, find, find_char, is_white, lemma_find, owned, push_dec, texts, white,
};
use crate::ui::rulectl::int_text;
use vstd::prelude::*;

verus! {

/// What failing to start the program for more rights means.
pub fn start_failure(not_found: bool, error: &str) -> (s: String)
    ensures
        s@ == (if not_found {
            "pkexec is not installed"@
        } else {
            "could not run pkexec: "@ + error@
        }),
{
    if not_found {
        owned("pkexec is not installed")
    } else {
        let mut s = owned("could not run pkexec: ");
        s.push_str(error);
        s
    }
}

/// The sentence for an exit code.
pub open spec fn failure(code: int) -> Seq<char> {
    "the engine reported failure (exit code "@ + int_text(code) + ")"@
}

fn failure_text(code: i64) -> (s: String)
    ensures
        s@ == failure(code as int),
{
    let mut s = owned("the engine reported failure (exit code ");
    if code < 0 {
        s.push_str("-");
        push_dec(&mut s, (-(code + 1)) as u64 + 1);
    } else {
        push_dec(&mut s, code as u64);
    }
    s.push_str(")");
    assert(s@ =~= failure(code as int));
    s
}

/// What the program's end means; one that a signal ended has no code.
pub fn exit_outcome(code: Option<i32>) -> (r: Result<(), String>)
    ensures
        r is Ok == (code == Some(0i32)),
        r is Err ==> r->Err_0@ == match code {
            Some(c) => if c == 126 {
                "the authentication prompt was dismissed"@
            } else if c == 127 {
                "authorization failed"@
            } else {
                failure(c as int)
            },
            None => "the elevated process was terminated"@,
        },
{
    match code {
        Some(c) => {
            if c == 0 {
                Ok(())
            } else if c == 126 {
                Err(owned("the authentication prompt was dismissed"))
            } else if c == 127 {
                Err(owned("authorization failed"))
            } else {
                Err(failure_text(c as i64))
            }
        },
        None => Err(owned("the elevated process was terminated")),
    }
}

/// What waiting for the program means, where its end is waited for and its code
/// read apart.
pub fn wait_outcome(ended: bool, got_code: bool, code: u32) -> (r: Result<(), String>)
    ensures
        r is Ok == (ended && got_code && code == 0),
        r is Err ==> r->Err_0@ == (if !ended {
            "the service operation timed out"@
        } else {
            failure(code as int)
        }),
{
    if !ended {
        return Err(owned("the service operation timed out"));
    }
    if got_code && code == 0 {
        Ok(())
    } else {
        Err(failure_text(code as i64))
    }
}

/// Whether an argument is to be put in quotes.
pub open spec fn quoted(arg: Seq<char>) -> bool {
    arg.len() == 0 || exists|i: int| 0 <= i < arg.len() && is_white(#[trigger] arg[i])
}

/// An argument as it stands in a command line.
pub open spec fn worded(arg: Seq<char>) -> Seq<char> {
    if quoted(arg) {
        seq!['"'] + arg + seq!['"']
    } else {
        arg
    }
}

/// Arguments as one command line, with a blank between two of them.
pub open spec fn command_line(args: Seq<Seq<char>>) -> Seq<char>
    decreases args.len(),
{
    if args.len() == 0 {
        Seq::empty()
    } else if args.len() == 1 {
        worded(args[0])
    } else {
        command_line(args.drop_last()) + seq![' '] + worded(args.last())
    }
}

/// Whether an argument holds a double quote.
pub open spec fn has_quote(arg: Seq<char>) -> bool {
    find(arg, '"') < arg.len()
}

fn needs_quotes(arg: &Vec<char>) -> (r: bool)
    ensures
        r == quoted(arg@),
{
    if arg.len() == 0 {
        return true;
    }
    let mut i: usize = 0;
    while i < arg.len()
        invariant
            i <= arg@.len(),
            forall|j: int| 0 <= j < i ==> !is_white(#[trigger] arg@[j]),
        decreases arg@.len() - i,
    {
        if white(arg[i]) {
            assert(is_white(arg@[i as int]));
            return true;
        }
        i += 1;
    }
    false
}

/// Arguments as one command line. An argument that is empty or holds white space
/// stands in quotes, and one that holds a quote is refused.
pub fn join_windows(args: &Vec<String>) -> (r: Result<String, String>)
    ensures
        r is Ok == (forall|i: int| 0 <= i < args@.len() ==> !has_quote(#[trigger] args@[i]@)),
        r is Ok ==> r->Ok_0@ == command_line(texts(args@)),
        r is Err ==> r->Err_0@ == "invalid argument"@,
{
    let ghost all = texts(args@);
    let mut out = String::new();
    let mut i: usize = 0;
    while i < args.len()
        invariant
            i <= args@.len(),
            all == texts(args@),
            out@ == command_line(all.take(i as int)),
            forall|j: int| 0 <= j < i ==> !has_quote(#[trigger] args@[j]@),
        decreases args@.len() - i,
    {
        let arg = chars_of(args[i].as_str());
        if find_char(arg.as_slice(), '"') < arg.len() {
            assert(has_quote(args@[i as int]@));
            return Err(owned("invalid argument"));
        }
        assert(all.take(i + 1).drop_last() =~= all.take(i as int));
        assert(all.take(i + 1).last() == arg@);
        let ghost before = out@;
        if i > 0 {
            out.push(' ');
        } else {
            assert(all.take(1)[0] == arg@);
        }
        let ghost front = out@;
        if needs_quotes(&arg) {
            out.push('"');
            out.push_str(args[i].as_str());
            out.push('"');
            assert(out@ =~= front + worded(arg@));
        } else {
            out.push_str(args[i].as_str());
            assert(out@ =~= front + worded(arg@));
        }
        assert(out@ =~= command_line(all.take(i + 1)));
        i += 1;
    }
    assert(all.take(args@.len() as int) =~= all);
    Ok(out)
}

/// The pieces of a text that is cut at the blanks outside quotes, without the
/// quotes. `inside` is whether a quote is open, and `piece` what the first piece
/// holds so far.
pub open spec fn cut(line: Seq<char>, inside: bool, piece: Seq<char>) -> Seq<Seq<char>>
    decreases line.len(),
{
    if line.len() == 0 {
        seq![piece]
    } else if line[0] == '"' {
        cut(line.drop_first(), !inside, piece)
    } else if line[0] == ' ' && !inside {
        seq![piece] + cut(line.drop_first(), false, Seq::empty())
    } else {
        cut(line.drop_first(), inside, piece.push(line[0]))
    }
}

/// The arguments of a command line.
pub open spec fn arguments(line: Seq<char>) -> Seq<Seq<char>> {
    if line.len() == 0 {
        Seq::empty()
    } else {
        cut(line, false, Seq::empty())
    }
}

proof fn lemma_cut_plain(a: Seq<char>, rest: Seq<char>, inside: bool, piece: Seq<char>)
    requires
        forall|i: int| 0 <= i < a.len() ==> #[trigger] a[i] != '"' && (inside || a[i] != ' '),
    ensures
        cut(a + rest, inside, piece) == cut(rest, inside, piece + a),
    decreases a.len(),
{
    if a.len() == 0 {
        assert(a + rest =~= rest);
        assert(piece + a =~= piece);
    } else {
        let tail = a.drop_first();
        assert forall|i: int| 0 <= i < tail.len() implies #[trigger] tail[i] != '"' && (inside
            || tail[i] != ' ') by {
            assert(tail[i] == a[i + 1]);
        }
        lemma_cut_plain(tail, rest, inside, piece.push(a[0]));
        assert((a + rest).drop_first() =~= tail + rest);
        assert((a + rest)[0] == a[0]);
        assert(piece.push(a[0]) + tail =~= piece + a);
    }
}

proof fn lemma_cut_worded(arg: Seq<char>, rest: Seq<char>)
    requires
        !has_quote(arg),
    ensures
        cut(worded(arg) + rest, false, Seq::empty()) == cut(rest, false, arg),
{
    lemma_find(arg, '"');
    assert(Seq::<char>::empty() + arg =~= arg);
    if quoted(arg) {
        let s = worded(arg) + rest;
        assert(s.drop_first() =~= arg + (seq!['"'] + rest));
        assert((seq!['"'] + rest).drop_first() =~= rest);
        lemma_cut_plain(arg, seq!['"'] + rest, true, Seq::empty());
    } else {
        assert forall|i: int| 0 <= i < arg.len() implies #[trigger] arg[i] != ' ' by {
            assert(!is_white(arg[i]));
        }
        lemma_cut_plain(arg, rest, false, Seq::empty());
    }
}

proof fn lemma_command_line_first(args: Seq<Seq<char>>)
    requires
        args.len() >= 2,
    ensures
        command_line(args) == worded(args[0]) + (seq![' '] + command_line(args.drop_first())),
    decreases args.len(),
{
    let (front, rest) = (args.drop_last(), args.drop_first());
    if args.len() == 2 {
        assert(command_line(front) == worded(args[0]));
        assert(command_line(rest) == worded(args[1]));
        assert(command_line(args) =~= worded(args[0]) + (seq![' '] + worded(args[1])));
    } else {
        lemma_command_line_first(front);
        assert(front.drop_first() =~= rest.drop_last());
        assert(command_line(args) =~= worded(args[0]) + (seq![' '] + command_line(rest)));
    }
}

proof fn lemma_cut_line(args: Seq<Seq<char>>)
    requires
        args.len() > 0,
        forall|i: int| 0 <= i < args.len() ==> !has_quote(#[trigger] args[i]),
    ensures
        cut(command_line(args), false, Seq::empty()) == args,
    decreases args.len(),
{
    assert(!has_quote(args[0]));
    if args.len() == 1 {
        lemma_cut_worded(args[0], Seq::empty());
        assert(worded(args[0]) + Seq::<char>::empty() =~= worded(args[0]));
        assert(args =~= seq![args[0]]);
    } else {
        let rest = args.drop_first();
        assert forall|i: int| 0 <= i < rest.len() implies !has_quote(#[trigger] rest[i]) by {
            assert(rest[i] == args[i + 1]);
        }
        lemma_command_line_first(args);
        lemma_cut_worded(args[0], seq![' '] + command_line(rest));
        assert((seq![' '] + command_line(rest)).drop_first() =~= command_line(rest));
        lemma_cut_line(rest);
        assert(seq![args[0]] + rest =~= args);
    }
}

/// Cutting a command line at the blanks outside quotes gives the arguments that
/// it was made of.
pub proof fn law_arguments_read_back(args: Seq<Seq<char>>)
    requires
        forall|i: int| 0 <= i < args.len() ==> !has_quote(#[trigger] args[i]),
    ensures
        arguments(command_line(args)) == args,
{
    if args.len() == 0 {
        assert(args =~= Seq::empty());
    } else {
        lemma_cut_line(args);
        if command_line(args).len() == 0 {
            if args.len() >= 2 {
                lemma_command_line_first(args);
            }
            assert(false);
        }
    }
}

} // verus!
