//! The directory's command interpreter: each command changes the directory as
//! it says and answers with lines of text.
use vstd::prelude::*;

use crate::command::{parse_command, parsed, Command, CommandView};
use crate::directory::{has_employee, employees_in, well_formed, with_employee, AddResult, Company, Roster};

verus! {

/// The lines that list the commands understood.
pub open spec fn help() -> Seq<Seq<char>> {
    seq![
        ""@,
        "Available commands:"@,
        "- Add <name> to <department>"@,
        "- List <department>"@,
        "- List all"@,
        "- Exit"@,
    ]
}

/// One line per employee, each behind a bullet.
pub open spec fn bullets(l: Seq<Seq<char>>) -> Seq<Seq<char>> {
    l.map_values(|n: Seq<char>| "- "@ + n)
}

/// A department's heading after a blank line, then its employees.
pub open spec fn section(d: Seq<char>, l: Seq<Seq<char>>) -> Seq<Seq<char>> {
    seq![""@, d + " department:"@] + bullets(l)
}

/// The sections of all departments, in order.
pub open spec fn sections(v: Seq<Roster>) -> Seq<Seq<char>>
    decreases v.len(),
{
    if v.len() == 0 {
        seq![]
    } else {
        sections(v.drop_last()) + section(v.last().0, v.last().1)
    }
}

/// The answer to a command on directory `v`.
pub open spec fn reply(v: Seq<Roster>, c: CommandView) -> Seq<Seq<char>> {
    match c {
        CommandView::Add(e, d) => if has_employee(v, e, d) {
            seq![e + " is already in "@ + d]
        } else {
            seq!["Added "@ + e + " to "@ + d]
        },
        CommandView::ListDepartment(d) => match employees_in(v, d) {
            Some(l) => section(d, l),
            None => seq!["No employees found in "@ + d],
        },
        CommandView::ListAll => if v.len() == 0 {
            seq!["No employees in the company"@]
        } else {
            seq![""@, "All departments:"@] + sections(v)
        },
        CommandView::Exit => seq!["Goodbye!"@],
        CommandView::Invalid => seq!["Invalid command!"@] + help(),
    }
}

/// The directory after a command: only an `Add` changes it.
pub open spec fn next_directory(v: Seq<Roster>, c: CommandView) -> Seq<Roster> {
    match c {
        CommandView::Add(e, d) => with_employee(v, e, d),
        _ => v,
    }
}

/// Appends the lines that list the commands understood.
fn push_help(out: &mut Vec<String>)
    ensures
        final(out).deep_view() == old(out).deep_view() + help(),
{
    let ghost before = out.deep_view();
    out.push(String::from_str(""));
    out.push(String::from_str("Available commands:"));
    out.push(String::from_str("- Add <name> to <department>"));
    out.push(String::from_str("- List <department>"));
    out.push(String::from_str("- List all"));
    out.push(String::from_str("- Exit"));
    assert(out.deep_view() =~= before + help());
}

/// The lines that list the commands understood.
pub fn help_lines() -> (r: Vec<String>)
    ensures
        r.deep_view() == help(),
{
    let mut r: Vec<String> = Vec::new();
    push_help(&mut r);
    assert(r.deep_view() =~= Seq::<Seq<char>>::empty() + help());
    r
}

/// Appends a department's section.
fn push_section(out: &mut Vec<String>, department: &str, employees: &Vec<String>)
    ensures
        final(out).deep_view() == old(out).deep_view() + section(department@, employees.deep_view()),
{
    let ghost before = out.deep_view();
    out.push(String::from_str(""));
    let mut heading = String::from_str(department);
    heading.append(" department:");
    out.push(heading);
    let mut i: usize = 0;
    while i < employees.len()
        invariant
            i <= employees.len(),
            out.deep_view() == before + seq![""@, department@ + " department:"@] + bullets(
                employees.deep_view().take(i as int),
            ),
        decreases employees.len() - i,
    {
        let ghost mid = out.deep_view();
        let mut item = String::from_str("- ");
        item.append(employees[i].as_str());
        out.push(item);
        assert(bullets(employees.deep_view().take(i + 1)) =~= bullets(
            employees.deep_view().take(i as int),
        ).push("- "@ + employees.deep_view()[i as int]));
        assert(out.deep_view() =~= mid.push("- "@ + employees.deep_view()[i as int]));
        i = i + 1;
    }
    assert(employees.deep_view().take(i as int) =~= employees.deep_view());
    assert(out.deep_view() =~= before + section(department@, employees.deep_view()));
}

/// A directory that answers commands, until it is told to stop.
pub struct Interpreter {
    company: Company,
    stopped: bool,
}

impl Interpreter {
    /// The directory the interpreter holds.
    pub closed spec fn directory(&self) -> Seq<Roster> {
        self.company@
    }

    /// Whether an `Exit` was executed.
    pub closed spec fn has_stopped(&self) -> bool {
        self.stopped
    }

    /// The invariant: the directory is well formed.
    pub open spec fn inv(&self) -> bool {
        well_formed(self.directory())
    }

    /// A running interpreter over an empty directory.
    pub fn new() -> (r: Self)
        ensures
            r.inv(),
            r.directory() == Seq::<Roster>::empty(),
            !r.has_stopped(),
    {
        Interpreter { company: Company::new(), stopped: false }
    }

    /// Whether the interpreter has stopped.
    pub fn is_stopped(&self) -> (r: bool)
        ensures
            r == self.has_stopped(),
    {
        self.stopped
    }

    /// Executes `command` and returns the lines that answer it. Once stopped,
    /// the interpreter does nothing and answers nothing.
    pub fn execute(&mut self, command: Command) -> (r: Vec<String>)
        requires
            old(self).inv(),
        ensures
            final(self).inv(),
            old(self).has_stopped() ==> final(self).directory() == old(self).directory()
                && final(self).has_stopped() && r.len() == 0,
            !old(self).has_stopped() ==> final(self).directory() == next_directory(
                old(self).directory(),
                command@,
            ) && final(self).has_stopped() == (command@ is Exit) && r.deep_view() == reply(
                old(self).directory(),
                command@,
            ),
    {
        let mut out: Vec<String> = Vec::new();
        if self.stopped {
            return out;
        }
        let ghost v = self.company@;
        let ghost c = command@;
        match command {
            Command::Add(name, department) => {
                let mut added = String::from_str("Added ");
                added.append(name.as_str());
                added.append(" to ");
                added.append(department.as_str());
                let mut present = name.clone();
                present.append(" is already in ");
                present.append(department.as_str());
                match self.company.add_employee(name, department) {
                    AddResult::Added => out.push(added),
                    AddResult::AlreadyPresent => out.push(present),
                }
                assert(out.deep_view() =~= reply(v, c));
            },
            Command::ListDepartment(department) => {
                match self.company.list_department(department.as_str()) {
                    Some(l) => push_section(&mut out, department.as_str(), &l),
                    None => {
                        let mut none = String::from_str("No employees found in ");
                        none.append(department.as_str());
                        out.push(none);
                    },
                }
                assert(out.deep_view() =~= reply(v, c));
            },
            Command::ListAll => {
                let all = self.company.list_all();
                if all.len() == 0 {
                    out.push(String::from_str("No employees in the company"));
                    assert(out.deep_view() =~= reply(v, c));
                } else {
                    out.push(String::from_str(""));
                    out.push(String::from_str("All departments:"));
                    let ghost head = out.deep_view();
                    let mut i: usize = 0;
                    assert(v.take(0) =~= Seq::<Roster>::empty());
                    assert(head + sections(v.take(0)) =~= head);
                    while i < all.len()
                        invariant
                            i <= all.len(),
                            all.deep_view() == v,
                            out.deep_view() == head + sections(v.take(i as int)),
                        decreases all.len() - i,
                    {
                        assert(all.deep_view()[i as int] == (all[i as int].0@, all[i as int].1.deep_view()));
                        push_section(&mut out, all[i].0.as_str(), &all[i].1);
                        assert(v.take(i + 1).drop_last() =~= v.take(i as int));
                        assert(out.deep_view() =~= head + sections(v.take(i + 1)));
                        i = i + 1;
                    }
                    assert(v.take(i as int) =~= v);
                    assert(out.deep_view() =~= reply(v, c));
                }
            },
            Command::Exit => {
                self.stopped = true;
                out.push(String::from_str("Goodbye!"));
                assert(out.deep_view() =~= reply(v, c));
            },
            Command::Invalid => {
                out.push(String::from_str("Invalid command!"));
                push_help(&mut out);
                assert(out.deep_view() =~= reply(v, c));
            },
        }
        out
    }

    /// Reads `line` as a command and executes it.
    pub fn handle_line(&mut self, line: &str) -> (r: Vec<String>)
        requires
            old(self).inv(),
        ensures
            final(self).inv(),
            old(self).has_stopped() ==> final(self).directory() == old(self).directory()
                && final(self).has_stopped() && r.len() == 0,
            !old(self).has_stopped() ==> final(self).directory() == next_directory(
                old(self).directory(),
                parsed(line@),
            ) && final(self).has_stopped() == (parsed(line@) is Exit) && r.deep_view() == reply(
                old(self).directory(),
                parsed(line@),
            ),
    {
        self.execute(parse_command(line))
    }
}

} // verus!
