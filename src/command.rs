//! Commands and the parser that reads them from a line of text.
use vstd::prelude::*;
use crate::department::{dept_from_string, dept_of, Department};
use crate::text::{same_text, split_tokens, tokens};

verus! {

/// An employee, known by first name.
#[derive(Debug, PartialEq, Eq, PartialOrd, Ord)]
pub struct Employee {
    pub first_name: String,
}

impl View for Employee {
    type V = Seq<char>;

    open spec fn view(&self) -> Seq<char> {
        self.first_name@
    }
}

impl Employee {
    /// An employee with the given first name.
    pub fn new(first_name: String) -> (r: Employee)
        ensures
            r@ == first_name@,
    {
        Employee { first_name }
    }
}

/// A parsed line of input.
#[derive(Debug, PartialEq)]
pub enum Command {
    /// The line holds no token.
    Empty,
    /// End the session.
    Quit,
    /// Assign an employee to a department.
    Add(Employee, Department),
    /// List the employees of one department.
    List(Department),
    /// List every department that has employees.
    ListAll,
    /// The line was rejected, for the reason given.
    Illegal(&'static str),
}

/// What a `Command` means, with its texts as character sequences.
pub enum CommandView {
    Empty,
    Quit,
    Add(Seq<char>, Department),
    List(Department),
    ListAll,
    Illegal(Seq<char>),
}

impl View for Command {
    type V = CommandView;

    open spec fn view(&self) -> CommandView {
        match self {
            Command::Empty => CommandView::Empty,
            Command::Quit => CommandView::Quit,
            Command::Add(e, d) => CommandView::Add(e@, *d),
            Command::List(d) => CommandView::List(*d),
            Command::ListAll => CommandView::ListAll,
            Command::Illegal(m) => CommandView::Illegal(m@),
        }
    }
}

/// Error: No name follows `add`.
pub open spec fn missing_name_msg() -> Seq<char> {
    "You must provide an employee name."@
}

/// Error: The name is not followed by `to <DEPT>`.
pub open spec fn add_syntax_msg() -> Seq<char> {
    "Add command syntax: add <NAME> to <DEPT>"@
}

/// Error: The word after the name is not `to`.
pub open spec fn expected_to_msg() -> Seq<char> {
    "Expected 'to' separator."@
}

/// Error: Nothing follows `to`.
pub open spec fn missing_dept_msg() -> Seq<char> {
    "You must provide a department the employee belongs to."@
}

/// Error: The token names no department.
pub open spec fn dept_not_found_msg() -> Seq<char> {
    "Department not found."@
}

/// Error: Tokens follow the department of an `add`.
pub open spec fn too_many_msg() -> Seq<char> {
    "Found too many tokens for the add command."@
}

/// Error: The first token is no command.
pub open spec fn unknown_command_msg() -> Seq<char> {
    "Unknown command."@
}

/// The meaning of the tokens that follow `add`: `<NAME> to <DEPT>`, checked
/// left to right, the first problem found giving the error.
pub open spec fn add_meaning(a: Seq<Seq<char>>) -> CommandView {
    if a.len() == 0 {
        CommandView::Illegal(missing_name_msg())
    } else if a.len() == 1 {
        CommandView::Illegal(add_syntax_msg())
    } else if a[1] != "to"@ {
        CommandView::Illegal(expected_to_msg())
    } else if a.len() == 2 {
        CommandView::Illegal(missing_dept_msg())
    } else if dept_of(a[2]) is None {
        CommandView::Illegal(dept_not_found_msg())
    } else if a.len() > 3 {
        CommandView::Illegal(too_many_msg())
    } else {
        CommandView::Add(a[0], dept_of(a[2])->0)
    }
}

/// The meaning of a line split into tokens.
pub open spec fn command_meaning(t: Seq<Seq<char>>) -> CommandView {
    if t.len() == 0 {
        CommandView::Empty
    } else if t[0] == "add"@ {
        add_meaning(t.drop_first())
    } else if t[0] == "list"@ {
        if t.len() == 1 {
            CommandView::ListAll
        } else {
            match dept_of(t[1]) {
                Some(d) => CommandView::List(d),
                None => CommandView::Illegal(dept_not_found_msg()),
            }
        }
    } else if t[0] == "quit"@ {
        CommandView::Quit
    } else {
        CommandView::Illegal(unknown_command_msg())
    }
}

/// Parses the tokens that follow `add`.
pub fn add_cmd(args: &Vec<String>) -> (r: Command)
    ensures
        r@ == add_meaning(args@.map_values(|t: String| t@)),
{
    if args.len() == 0 {
        return Command::Illegal("You must provide an employee name.");
    }
    if args.len() == 1 {
        return Command::Illegal("Add command syntax: add <NAME> to <DEPT>");
    }
    if !same_text(args[1].as_str(), "to") {
        return Command::Illegal("Expected 'to' separator.");
    }
    if args.len() == 2 {
        return Command::Illegal("You must provide a department the employee belongs to.");
    }
    match dept_from_string(args[2].as_str()) {
        None => Command::Illegal("Department not found."),
        Some(dept) => {
            if args.len() > 3 {
                Command::Illegal("Found too many tokens for the add command.")
            } else {
                Command::Add(Employee::new(args[0].clone()), dept)
            }
        },
    }
}

/// Parses one line of input.
pub fn parse_user_input(input: &str) -> (r: Command)
    ensures
        r@ == command_meaning(tokens(input@)),
{
    let mut toks = split_tokens(input);
    let ghost t = toks@.map_values(|s: String| s@);
    if toks.len() == 0 {
        return Command::Empty;
    }
    let first = toks.remove(0);
    assert(toks@.map_values(|s: String| s@) =~= t.drop_first());
    if same_text(first.as_str(), "add") {
        add_cmd(&toks)
    } else if same_text(first.as_str(), "list") {
        if toks.len() == 0 {
            Command::ListAll
        } else {
            match dept_from_string(toks[0].as_str()) {
                Some(dept) => Command::List(dept),
                None => Command::Illegal("Department not found."),
            }
        }
    } else if same_text(first.as_str(), "quit") {
        Command::Quit
    } else {
        Command::Illegal("Unknown command.")
    }
}

} // verus!
