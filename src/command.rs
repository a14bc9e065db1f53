//! Commands of the directory, and how a line of input reads as one.
use vstd::prelude::*;

use crate::text::{split_words, words};

verus! {

/// One line of input, read as a command.
#[derive(Debug, PartialEq, Eq)]
pub enum Command {
    /// Add employee (first) to department (second).
    Add(String, String),
    /// List the employees of a department.
    ListDepartment(String),
    /// List every department with its employees.
    ListAll,
    /// Stop.
    Exit,
    /// Anything that is none of the above.
    Invalid,
}

/// A command, its texts as character sequences.
pub enum CommandView {
    Add(Seq<char>, Seq<char>),
    ListDepartment(Seq<char>),
    ListAll,
    Exit,
    Invalid,
}

impl View for Command {
    type V = CommandView;

    open spec fn view(&self) -> CommandView {
        match self {
            Command::Add(name, department) => CommandView::Add(name@, department@),
            Command::ListDepartment(department) => CommandView::ListDepartment(department@),
            Command::ListAll => CommandView::ListAll,
            Command::Exit => CommandView::Exit,
            Command::Invalid => CommandView::Invalid,
        }
    }
}

/// The word "to" in any mix of case.
pub open spec fn is_to_word(w: Seq<char>) -> bool {
    w == "to"@ || w == "To"@ || w == "tO"@ || w == "TO"@
}

/// The command that `line` spells, word by word:
/// `add <name> to <department>` (four words exactly),
/// `list all`, `list <department>` (words after the second ignored),
/// `exit` or `quit`; the verbs `add` and `list` may also be capitalised.
pub open spec fn parsed(line: Seq<char>) -> CommandView {
    let w = words(line);
    if w.len() == 0 {
        CommandView::Invalid
    } else if w[0] == "add"@ || w[0] == "Add"@ {
        if w.len() == 4 && is_to_word(w[2]) {
            CommandView::Add(w[1], w[3])
        } else {
            CommandView::Invalid
        }
    } else if w[0] == "list"@ || w[0] == "List"@ {
        if w.len() < 2 {
            CommandView::Invalid
        } else if w[1] == "all"@ {
            CommandView::ListAll
        } else {
            CommandView::ListDepartment(w[1])
        }
    } else if w[0] == "exit"@ || w[0] == "quit"@ {
        CommandView::Exit
    } else {
        CommandView::Invalid
    }
}

/// Whether `w` spells `literal`.
fn spells(w: &String, literal: &str) -> (r: bool)
    ensures
        r == (w@ == literal@),
{
    *w == String::from_str(literal)
}

/// Reads a line of input as a command.
pub fn parse_command(input: &str) -> (r: Command)
    ensures
        r@ == parsed(input@),
{
    let parts = split_words(input);
    assert(parts.deep_view().len() == parts.len());
    if parts.len() == 0 {
        return Command::Invalid;
    }
    assert(forall|i: int| 0 <= i < parts.len() ==> parts.deep_view()[i] == (#[trigger] parts[i])@);
    if spells(&parts[0], "add") || spells(&parts[0], "Add") {
        if parts.len() == 4 && (spells(&parts[2], "to") || spells(&parts[2], "To") || spells(
            &parts[2],
            "tO",
        ) || spells(&parts[2], "TO")) {
            Command::Add(parts[1].clone(), parts[3].clone())
        } else {
            Command::Invalid
        }
    } else if spells(&parts[0], "list") || spells(&parts[0], "List") {
        if parts.len() < 2 {
            Command::Invalid
        } else if spells(&parts[1], "all") {
            Command::ListAll
        } else {
            Command::ListDepartment(parts[1].clone())
        }
    } else if spells(&parts[0], "exit") || spells(&parts[0], "quit") {
        Command::Exit
    } else {
        Command::Invalid
    }
}

} // verus!
