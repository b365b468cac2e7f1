//! What a command line asks for.

use crate::text::line_views;
use vstd::prelude::*;
use vstd::string::*;

verus! {

/// What a command line asks for. A date is given as the user wrote it; where
/// none is given, the time of the call is meant.
pub enum Command {
    /// Show how the program is used.
    Help,
    /// The command line has too few or too many words.
    Invalid,
    /// Create a log at `path`.
    New { path: String, date: Option<String> },
    /// Show the summary of the log at `path`.
    Summarize { path: String, verbose: bool },
    /// Insert an entry with `label` into the log at `path`.
    Insert { path: String, label: String, date: Option<String> },
}

/// A command as the contracts see it.
pub enum CommandView {
    Help,
    Invalid,
    New { path: Seq<char>, date: Option<Seq<char>> },
    Summarize { path: Seq<char>, verbose: bool },
    Insert { path: Seq<char>, label: Seq<char>, date: Option<Seq<char>> },
}

impl View for Command {
    type V = CommandView;

    open spec fn view(&self) -> CommandView {
        match self {
            Command::Help => CommandView::Help,
            Command::Invalid => CommandView::Invalid,
            Command::New { path, date } => CommandView::New { path: path@, date: date_view(*date) },
            Command::Summarize { path, verbose } => CommandView::Summarize {
                path: path@,
                verbose: *verbose,
            },
            Command::Insert { path, label, date } => CommandView::Insert {
                path: path@,
                label: label@,
                date: date_view(*date),
            },
        }
    }
}

/// The text of a date, where there is one.
pub open spec fn date_view(date: Option<String>) -> Option<Seq<char>> {
    match date {
        Some(text) => Some(text@),
        None => None,
    }
}

/// The third word of a command line, where there is one.
pub open spec fn third_word(words: Seq<Seq<char>>) -> Option<Seq<char>> {
    if words.len() == 3 {
        Some(words[2])
    } else {
        None
    }
}

/// What the words behind the program's name ask for. `--help` alone shows
/// the usage. Anything else takes two or three words: `--new`, a path and
/// perhaps a date; `--sum` or `--sumv` and a path; or a path, a label and
/// perhaps a date.
pub open spec fn command_of(words: Seq<Seq<char>>) -> CommandView {
    if words.len() == 1 && words[0] == "--help"@ {
        CommandView::Help
    } else if words.len() < 2 || words.len() > 3 {
        CommandView::Invalid
    } else if words[0] == "--new"@ {
        CommandView::New { path: words[1], date: third_word(words) }
    } else if words.len() == 2 && words[0] == "--sum"@ {
        CommandView::Summarize { path: words[1], verbose: false }
    } else if words.len() == 2 && words[0] == "--sumv"@ {
        CommandView::Summarize { path: words[1], verbose: true }
    } else {
        CommandView::Insert { path: words[0], label: words[1], date: third_word(words) }
    }
}

/// Whether `word` reads `text`.
fn reads(word: &String, text: &str) -> (same: bool)
    ensures
        same == (word@ == text@),
{
    *word == String::from_str(text)
}

/// Tells what the words behind the program's name ask for.
pub fn parse_command(words: &Vec<String>) -> (command: Command)
    ensures
        command@ == command_of(line_views(words@)),
{
    let ghost views = line_views(words@);
    let count: usize = words.len();
    if count == 1 && reads(&words[0], "--help") {
        assert(views[0] == words[0]@);
        return Command::Help;
    }
    if count < 2 || count > 3 {
        assert(count == 1 ==> views[0] == words[0]@);
        return Command::Invalid;
    }
    assert(views[0] == words[0]@ && views[1] == words[1]@);
    assert(count == 3 ==> views[2] == words[2]@);
    let date: Option<String> = if count == 3 {
        Some(words[2].clone())
    } else {
        None
    };
    assert(date_view(date) == third_word(views));
    if reads(&words[0], "--new") {
        Command::New { path: words[1].clone(), date }
    } else if count == 2 && reads(&words[0], "--sum") {
        Command::Summarize { path: words[1].clone(), verbose: false }
    } else if count == 2 && reads(&words[0], "--sumv") {
        Command::Summarize { path: words[1].clone(), verbose: true }
    } else {
        Command::Insert { path: words[0].clone(), label: words[1].clone(), date }
    }
}

} // verus!
