//! Command lines that the system's own rules split back into arguments.

use vstd::prelude::*;
use vstd::string::*;
use crate::text;

verus! {

/// `n` backslashes.
pub open spec fn backslashes(n: nat) -> Seq<char> {
    Seq::new(n, |i: int| '\\')
}

/// A text as it stands between quotes. `n` backslashes are pending: they are
/// doubled where a quote follows, and before the quote of the text itself
/// stands one more.
pub open spec fn escaped(s: Seq<char>, n: nat) -> Seq<char>
    decreases s.len(),
{
    if s.len() == 0 {
        backslashes(2 * n)
    } else if s[0] == '\\' {
        escaped(s.skip(1), n + 1)
    } else if s[0] == '"' {
        backslashes(2 * n + 1) + (seq!['"'] + escaped(s.skip(1), 0))
    } else {
        backslashes(n) + (seq![s[0]] + escaped(s.skip(1), 0))
    }
}

/// An argument of a command line, in quotes.
pub open spec fn quoted_arg(s: Seq<char>) -> Seq<char> {
    seq!['"'] + escaped(s, 0) + seq!['"']
}

/// Adds backslashes to a text.
fn push_backslashes(out: &mut String, count: usize)
    ensures
        final(out)@ == old(out)@ + backslashes(count as nat),
{
    let mut i: usize = 0;
    proof {
        assert(out@ + backslashes(0) =~= out@);
    }
    while i < count
        invariant
            i <= count,
            out@ == old(out)@ + backslashes(i as nat),
        decreases count - i,
    {
        out.push('\\');
        proof {
            assert(out@ =~= old(out)@ + backslashes((i + 1) as nat));
        }
        i += 1;
    }
}

/// Puts an argument of a command line in quotes: [`quoted_arg`], executable.
pub fn quote_windows_arg(value: &str) -> (out: String)
    ensures
        out@ == quoted_arg(value@),
{
    let chars = text::chars_of(value);
    let mut out = String::new();
    out.push('"');
    let mut i: usize = 0;
    let mut pending: usize = 0;
    let ghost whole = seq!['"'] + escaped(value@, 0);
    proof {
        assert(out@ =~= seq!['"']);
        assert(value@.skip(0) =~= value@);
    }
    while i < chars.len()
        invariant
            pending <= i <= chars@.len(),
            chars@ == value@,
            out@ + escaped(value@.skip(i as int), pending as nat) == whole,
        decreases chars@.len() - i,
    {
        let c: char = chars[i];
        let ghost rest = value@.skip(i as int);
        let ghost before = out@;
        proof {
            assert(rest[0] == c);
            assert(rest.skip(1) =~= value@.skip(i + 1));
        }
        if c == '\\' {
            pending = pending + 1;
        } else if c == '"' {
            let ghost n = pending as nat;
            push_backslashes(&mut out, pending);
            push_backslashes(&mut out, pending);
            out.push('\\');
            out.push('"');
            proof {
                assert(out@ =~= before + (backslashes(2 * n + 1) + seq!['"']));
                assert(out@ + escaped(rest.skip(1), 0) =~= before + (backslashes(2 * n + 1) + (
                seq!['"'] + escaped(rest.skip(1), 0))));
            }
            pending = 0;
        } else {
            let ghost n = pending as nat;
            push_backslashes(&mut out, pending);
            out.push(c);
            proof {
                assert(out@ + escaped(rest.skip(1), 0) =~= before + (backslashes(n) + (seq![c]
                    + escaped(rest.skip(1), 0))));
            }
            pending = 0;
        }
        i += 1;
    }
    let ghost before = out@;
    let ghost n = pending as nat;
    push_backslashes(&mut out, pending);
    push_backslashes(&mut out, pending);
    out.push('"');
    proof {
        assert(value@.skip(i as int) =~= Seq::<char>::empty());
        assert(out@ =~= (before + backslashes(2 * n)) + seq!['"']);
    }
    out
}

/// Arguments in quotes, each behind a space.
pub open spec fn more_args(args: Seq<Seq<char>>) -> Seq<char>
    decreases args.len(),
{
    if args.len() == 0 {
        Seq::empty()
    } else {
        seq![' '] + quoted_arg(args[0]) + more_args(args.skip(1))
    }
}

/// A command line: a command and its arguments.
pub open spec fn command_line(command: Seq<char>, args: Seq<Seq<char>>) -> Seq<char> {
    quoted_arg(command) + more_args(args)
}

/// Adds arguments to a command line.
fn push_args(line: &mut String, paths: &Vec<String>)
    ensures
        final(line)@ == old(line)@ + more_args(text::texts(paths@)),
{
    let ghost args = text::texts(paths@);
    let ghost whole = line@ + more_args(args);
    let mut i: usize = 0;
    proof {
        assert(args.skip(0) =~= args);
    }
    while i < paths.len()
        invariant
            i <= paths@.len(),
            args == text::texts(paths@),
            line@ + more_args(args.skip(i as int)) == whole,
        decreases paths@.len() - i,
    {
        let ghost before = line@;
        let ghost rest = args.skip(i as int);
        let quoted: String = quote_windows_arg(paths[i].as_str());
        line.push(' ');
        line.append(quoted.as_str());
        proof {
            assert(rest[0] == paths@[i as int]@);
            assert(rest.skip(1) =~= args.skip(i + 1));
            assert(line@ + more_args(rest.skip(1)) =~= before + (seq![' '] + quoted_arg(rest[0])
                + more_args(rest.skip(1))));
        }
        i += 1;
    }
    proof {
        assert(args.skip(i as int) =~= Seq::<Seq<char>>::empty());
        assert(line@ + Seq::<char>::empty() =~= line@);
    }
}

/// The command line of a command on paths.
pub fn build_args(subcommand: &str, paths: &Vec<String>) -> (line: String)
    ensures
        line@ == command_line(subcommand@, text::texts(paths@)),
{
    let mut line: String = quote_windows_arg(subcommand);
    push_args(&mut line, paths);
    line
}

/// The command line of a command on a destination and paths.
pub fn build_destination_args(subcommand: &str, destination: &str, paths: &Vec<String>) -> (line:
    String)
    ensures
        line@ == command_line(subcommand@, seq![destination@] + text::texts(paths@)),
{
    let mut line: String = quote_windows_arg(subcommand);
    let quoted: String = quote_windows_arg(destination);
    line.push(' ');
    line.append(quoted.as_str());
    let ghost args = seq![destination@] + text::texts(paths@);
    push_args(&mut line, paths);
    proof {
        assert(args.skip(1) =~= text::texts(paths@));
        assert(line@ =~= quoted_arg(subcommand@) + (seq![' '] + quoted_arg(destination@)
            + more_args(text::texts(paths@))));
    }
    line
}

// ---------------------------------------------------------------------------
// Reading back
// ---------------------------------------------------------------------------

/// What the system reads behind an opening quote: the argument up to the
/// closing quote, and what follows it. `n` backslashes have been read. Before
/// a quote they count for half, and an odd one makes the quote part of the
/// argument; elsewhere they stand for themselves.
pub open spec fn read_quoted(line: Seq<char>, n: nat) -> Option<(Seq<char>, Seq<char>)>
    decreases line.len(),
{
    if line.len() == 0 {
        None
    } else if line[0] == '\\' {
        read_quoted(line.skip(1), n + 1)
    } else if line[0] == '"' && n % 2 == 0 {
        Some((backslashes(n / 2), line.skip(1)))
    } else {
        let kept = if line[0] == '"' {
            backslashes(n / 2)
        } else {
            backslashes(n)
        };
        match read_quoted(line.skip(1), 0) {
            Some((argument, rest)) => Some((kept + (seq![line[0]] + argument), rest)),
            None => None,
        }
    }
}

/// The arguments that the system reads from a command line of quoted
/// arguments.
pub open spec fn read_line(line: Seq<char>) -> Seq<Seq<char>>
    decreases line.len(),
{
    if line.len() == 0 || line[0] != '"' {
        Seq::empty()
    } else {
        match read_quoted(line.skip(1), 0) {
            None => Seq::empty(),
            Some((argument, rest)) => seq![argument] + if 0 < rest.len() < line.len() && rest[0]
                == ' ' {
                read_line(rest.skip(1))
            } else {
                Seq::empty()
            },
        }
    }
}

/// Backslashes are counted while they are read.
proof fn lemma_read_backslashes(k: nat, line: Seq<char>, n: nat)
    ensures
        read_quoted(backslashes(k) + line, n) == read_quoted(line, n + k),
    decreases k,
{
    let whole = backslashes(k) + line;
    if k > 0 {
        lemma_read_backslashes((k - 1) as nat, line, n + 1);
        assert(whole[0] == '\\');
        assert(whole.skip(1) =~= backslashes((k - 1) as nat) + line);
    } else {
        assert(whole =~= line);
    }
}

/// An escaped text is read back up to the closing quote.
proof fn lemma_read_escaped(s: Seq<char>, n: nat, rest: Seq<char>)
    ensures
        read_quoted(escaped(s, n) + (seq!['"'] + rest), 0) == Some((backslashes(n) + s, rest)),
    decreases s.len(),
{
    let end = seq!['"'] + rest;
    let whole = escaped(s, n) + end;
    if s.len() == 0 {
        lemma_read_backslashes(2 * n, end, 0);
        assert(end.skip(1) =~= rest);
        assert((2 * n) / 2 == n);
        assert(backslashes(n) + s =~= backslashes(n));
    } else {
        let tail = s.skip(1);
        if s[0] == '\\' {
            lemma_read_escaped(tail, n + 1, rest);
            assert(backslashes(n + 1) + tail =~= backslashes(n) + s);
        } else if s[0] == '"' {
            let inner = seq!['"'] + (escaped(tail, 0) + end);
            assert(whole =~= backslashes(2 * n + 1) + inner);
            lemma_read_backslashes(2 * n + 1, inner, 0);
            lemma_read_escaped(tail, 0, rest);
            assert(inner.skip(1) =~= escaped(tail, 0) + end);
            assert(backslashes(0) + tail =~= tail);
            assert((2 * n + 1) / 2 == n);
            assert(backslashes(n) + (seq!['"'] + tail) =~= backslashes(n) + s);
        } else {
            let inner = seq![s[0]] + (escaped(tail, 0) + end);
            assert(whole =~= backslashes(n) + inner);
            lemma_read_backslashes(n, inner, 0);
            lemma_read_escaped(tail, 0, rest);
            assert(inner.skip(1) =~= escaped(tail, 0) + end);
            assert(backslashes(0) + tail =~= tail);
            assert(backslashes(n) + (seq![s[0]] + tail) =~= backslashes(n) + s);
        }
    }
}

/// The system reads back the command and the arguments that a command line was
/// made of, whatever quotes and backslashes they hold.
pub proof fn law_command_line_reads_back(command: Seq<char>, args: Seq<Seq<char>>)
    ensures
        read_line(command_line(command, args)) == seq![command] + args,
    decreases args.len(),
{
    let rest = more_args(args);
    let line = command_line(command, args);
    assert(line.skip(1) =~= escaped(command, 0) + (seq!['"'] + rest));
    lemma_read_escaped(command, 0, rest);
    assert(backslashes(0) + command =~= command);
    if args.len() > 0 {
        law_command_line_reads_back(args[0], args.skip(1));
        assert(rest[0] == ' ');
        assert(rest.skip(1) =~= command_line(args[0], args.skip(1)));
        assert(seq![args[0]] + args.skip(1) =~= args);
    } else {
        assert(seq![command] + Seq::<Seq<char>>::empty() =~= seq![command] + args);
    }
}

/// An argument without quotes and backslashes stands in quotes as it is, a
/// quote is marked by a backslash, and a backslash at the end is doubled.
pub proof fn law_ordinary_arguments_are_quoted(s: Seq<char>)
    requires
        forall|k: int| 0 <= k < s.len() ==> s[k] != '"' && s[k] != '\\',
    ensures
        escaped(s, 0) == s,
        quoted_arg(s) == seq!['"'] + s + seq!['"'],
        escaped(s + seq!['\\'], 0) == s + seq!['\\', '\\'],
        escaped(s + seq!['"'], 0) == s + seq!['\\', '"'],
        more_args(seq![s]) == seq![' '] + quoted_arg(s),
    decreases s.len(),
{
    reveal_with_fuel(escaped, 3);
    assert(backslashes(0) =~= Seq::<char>::empty());
    assert(backslashes(1) =~= seq!['\\']);
    assert(backslashes(2) =~= seq!['\\', '\\']);
    let slash = s + seq!['\\'];
    let quote = s + seq!['"'];
    if s.len() == 0 {
        assert(slash =~= seq!['\\'] && quote =~= seq!['"']);
        assert(slash.skip(1) =~= Seq::<char>::empty());
        assert(quote.skip(1) =~= Seq::<char>::empty());
        assert(escaped(s, 0) =~= s);
        assert(escaped(slash, 0) =~= s + seq!['\\', '\\']);
        assert(escaped(quote, 0) =~= s + seq!['\\', '"']);
    } else {
        let rest = s.skip(1);
        assert forall|k: int| 0 <= k < rest.len() implies rest[k] != '"' && rest[k] != '\\' by {
            assert(rest[k] == s[k + 1]);
        }
        law_ordinary_arguments_are_quoted(rest);
        assert(slash[0] == s[0] && slash.skip(1) =~= rest + seq!['\\']);
        assert(quote[0] == s[0] && quote.skip(1) =~= rest + seq!['"']);
        assert(escaped(s, 0) =~= s);
        assert(escaped(slash, 0) =~= s + seq!['\\', '\\']);
        assert(escaped(quote, 0) =~= s + seq!['\\', '"']);
    }
    reveal_with_fuel(more_args, 2);
    assert(seq![s].skip(1) =~= Seq::<Seq<char>>::empty());
    assert(more_args(seq![s]) =~= seq![' '] + quoted_arg(s));
}

} // verus!
