use vstd::prelude::*;
use vstd::string::StringExecFns;

use crate::phrase::{lemma_split_nonempty, split_on, split_text};

verus! {

/// What `str::trim` leaves of a text.
pub uninterp spec fn trim_of(s: Seq<char>) -> Seq<char>;

/// Relies on `str::trim`: the result depends on the characters of the text
/// alone.
#[verifier::external_body]
fn trim(s: &str) -> (r: &str)
    ensures
        r@ == trim_of(s@),
{
    s.trim()
}

/// A console command line, read.
#[derive(Debug)]
pub enum Command {
    /// Nothing was typed.
    Empty,
    Clear,
    Help,
    /// `cheat`, with the phrase that follows it, if any.
    Cheat(Option<String>),
    Exit,
    Log,
    /// A first word that names no command.
    Unknown(String),
}

/// The space-separated words of a command line, once trimmed.
pub open spec fn command_args(line: Seq<char>) -> Seq<Seq<char>> {
    split_on(trim_of(line), ' ')
}

/// Whether `word` names a command.
pub open spec fn is_keyword(word: Seq<char>) -> bool {
    word == "clear"@ || word == "help"@ || word == "cheat"@ || word == "exit"@ || word == "log"@
}

/// The command that a list of words names.
pub open spec fn command_matches(r: Command, args: Seq<Seq<char>>) -> bool {
    match r {
        Command::Empty => false,
        Command::Clear => args[0] == "clear"@,
        Command::Help => args[0] == "help"@,
        Command::Exit => args[0] == "exit"@,
        Command::Log => args[0] == "log"@,
        Command::Cheat(arg) => args[0] == "cheat"@ && match arg {
            Some(phrase) => args.len() > 1 && phrase@ == args[1],
            None => args.len() <= 1,
        },
        Command::Unknown(word) => !is_keyword(args[0]) && word@ == args[0],
    }
}

/// Reads a command line: nothing typed is `Empty`; otherwise the first word of
/// the trimmed line names the command.
pub fn parse_command(line: &str) -> (r: Command)
    ensures
        line@.len() == 0 ==> r is Empty,
        line@.len() != 0 ==> command_matches(r, command_args(line@)),
{
    if line.is_empty() {
        return Command::Empty;
    }
    parse_args(trim(line))
}

/// Reads a trimmed command line: its first space-separated word names the
/// command, and `cheat` takes the second word as its phrase.
pub fn parse_args(trimmed: &str) -> (r: Command)
    ensures
        command_matches(r, split_on(trimmed@, ' ')),
{
    let mut args = split_text(trimmed, ' ');
    proof {
        lemma_split_nonempty(trimmed@, ' ');
    }
    let ghost views = args@.map_values(|w: String| w@);
    assert(views[0] == args@[0]@);
    if args[0] == String::from_str("clear") {
        Command::Clear
    } else if args[0] == String::from_str("help") {
        Command::Help
    } else if args[0] == String::from_str("exit") {
        Command::Exit
    } else if args[0] == String::from_str("log") {
        Command::Log
    } else if args[0] == String::from_str("cheat") {
        if args.len() > 1 {
            assert(views[1] == args@[1]@);
            let phrase = args.remove(1);
            Command::Cheat(Some(phrase))
        } else {
            Command::Cheat(None)
        }
    } else {
        let word = args.remove(0);
        Command::Unknown(word)
    }
}

} // verus!
