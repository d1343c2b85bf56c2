//! The decisions of the interactive loop: what a command line means, when
//! the loop restarts, and how a raw input line is trimmed.

use vstd::prelude::*;

verus! {

/// What one command line asks for.
#[derive(Clone, Copy, Debug, PartialEq, Eq, Structural)]
pub enum Command {
    /// End the process.
    Quit,
    /// Print the option reference and generate nothing.
    Help,
    /// Hand the line to the option parser and generate passwords.
    Generate,
}

/// The dispatch of one command line: the bare quit and help words are
/// recognized exactly; everything else is a generation command.
pub open spec fn spec_dispatch(line: Seq<char>) -> Command {
    if line == "!quit"@ || line == "quit"@ || line == "q"@ {
        Command::Quit
    } else if line == "!help"@ || line == "help"@ || line == "h"@ {
        Command::Help
    } else {
        Command::Generate
    }
}

/// Decides what a command line asks for.
pub fn dispatch_command(line: &String) -> (c: Command)
    ensures
        c == spec_dispatch(line@),
{
    if *line == String::from_str("!quit") || *line == String::from_str("quit") || *line
        == String::from_str("q") {
        Command::Quit
    } else if *line == String::from_str("!help") || *line == String::from_str("help") || *line
        == String::from_str("h") {
        Command::Help
    } else {
        Command::Generate
    }
}

/// Whether the answer to the restart prompt repeats the loop: any line
/// containing `r` or `R` anywhere does.
pub fn should_restart(line: &String) -> (r: bool)
    ensures
        r == (line@.contains('r') || line@.contains('R')),
{
    let s = line.as_str();
    let n = s.unicode_len();
    let mut i: usize = 0;
    while i < n
        invariant
            i <= n,
            n == line@.len(),
            s@ == line@,
            forall|j: int| 0 <= j < i ==> line@[j] != 'r' && line@[j] != 'R',
        decreases n - i,
    {
        let c = s.get_char(i);
        if c == 'r' || c == 'R' {
            assert(line@[i as int] == c);
            return true;
        }
        i = i + 1;
    }
    false
}

/// A raw input line without its trailing line break: one trailing `\n` is
/// removed first, then one trailing `\r`.
pub open spec fn spec_trim_newline(s: Seq<char>) -> Seq<char> {
    let t = if s.len() > 0 && s.last() == '\n' {
        s.drop_last()
    } else {
        s
    };
    if t.len() > 0 && t.last() == '\r' {
        t.drop_last()
    } else {
        t
    }
}

/// Removes the line break that reading a line leaves at its end.
pub fn trim_newline(line: &String) -> (r: String)
    ensures
        r@ == spec_trim_newline(line@),
{
    let s = line.as_str();
    let mut n = s.unicode_len();
    if n > 0 {
        if s.get_char(n - 1) == '\n' {
            n = n - 1;
        }
    }
    if n > 0 {
        if s.get_char(n - 1) == '\r' {
            n = n - 1;
        }
    }
    let t = s.substring_char(0, n);
    proof {
        assert(t@ =~= spec_trim_newline(line@));
    }
    String::from_str(t)
}

} // verus!
