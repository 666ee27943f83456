use company_directory::command::{add_cmd, parse_user_input, Command, Employee};
use company_directory::department::{dept_from_string, Department};
use company_directory::text::{same_text, split_tokens, text_less};

fn is_illegal_command(cmd: &Command) -> bool {
    match cmd {
        Command::Illegal(_) => true,
        _ => false,
    }
}

#[test]
fn empty_command() {
    assert_eq!(parse_user_input("  \t  "), Command::Empty);
}

#[test]
fn illegal_command() {
    assert!(is_illegal_command(&parse_user_input("delete")));
    assert!(is_illegal_command(&parse_user_input("add kyle to kyle")));
    assert!(is_illegal_command(&parse_user_input("list foo")));
}

#[test]
fn blank_inputs_are_empty() {
    assert_eq!(parse_user_input(""), Command::Empty);
    assert_eq!(parse_user_input(" "), Command::Empty);
    assert_eq!(parse_user_input("\n\r\t \u{a0}\u{3000}"), Command::Empty);
}

#[test]
fn unknown_department_same_error() {
    for tok in ["foo", "hr", "FINANCE", "Sales2"] {
        assert_eq!(
            parse_user_input(&format!("list {}", tok)),
            Command::Illegal("Department not found.")
        );
        assert_eq!(
            parse_user_input(&format!("add Kyle to {}", tok)),
            Command::Illegal("Department not found.")
        );
    }
}

#[test]
fn malformed_add_messages() {
    assert_eq!(
        parse_user_input("add"),
        Command::Illegal("You must provide an employee name.")
    );
    assert_eq!(
        parse_user_input("add Kyle"),
        Command::Illegal("Add command syntax: add <NAME> to <DEPT>")
    );
    assert_eq!(
        parse_user_input("add Kyle to"),
        Command::Illegal("You must provide a department the employee belongs to.")
    );
    assert_eq!(
        parse_user_input("add Kyle into Finance"),
        Command::Illegal("Expected 'to' separator.")
    );
    assert_eq!(
        parse_user_input("add Kyle to Finance extra"),
        Command::Illegal("Found too many tokens for the add command.")
    );
    assert_eq!(
        parse_user_input("add Kyle to foo extra"),
        Command::Illegal("Department not found.")
    );
}

#[test]
fn well_formed_commands() {
    assert_eq!(
        parse_user_input("  add   Kyle\tto Finance  "),
        Command::Add(Employee::new("Kyle".to_string()), Department::Finance)
    );
    assert_eq!(parse_user_input("list"), Command::ListAll);
    assert_eq!(parse_user_input("list QA"), Command::List(Department::QA));
    assert_eq!(parse_user_input("quit"), Command::Quit);
    assert_eq!(parse_user_input("Quit"), Command::Illegal("Unknown command."));
    assert_eq!(parse_user_input("ADD Kyle to HR"), Command::Illegal("Unknown command."));
}

#[test]
fn add_cmd_on_tokens() {
    let args: Vec<String> = vec!["Ann".to_string(), "to".to_string(), "IT".to_string()];
    assert_eq!(add_cmd(&args), Command::Add(Employee::new("Ann".to_string()), Department::IT));
    assert_eq!(add_cmd(&Vec::new()), Command::Illegal("You must provide an employee name."));
}

#[test]
fn departments_by_name() {
    assert_eq!(dept_from_string("CustomerService"), Some(Department::CustomerService));
    assert_eq!(dept_from_string("Accounting"), Some(Department::Accounting));
    assert_eq!(dept_from_string("accounting"), None);
    assert_eq!(dept_from_string(""), None);
    assert_eq!(Department::Marketing.name(), "Marketing");
    assert_eq!(Department::at(2), Department::Finance);
    assert_eq!(Department::Sales.rank(), 7);
}

#[test]
fn tokens_split_on_unicode_whitespace() {
    assert_eq!(
        split_tokens(" a\u{3000}bc\u{2028}\u{85}d "),
        vec!["a".to_string(), "bc".to_string(), "d".to_string()]
    );
    assert_eq!(split_tokens("x_y"), vec!["x_y".to_string()]);
    assert!(split_tokens("   ").is_empty());
}

#[test]
fn text_comparisons() {
    assert!(same_text("Kyle", "Kyle"));
    assert!(!same_text("Kyle", "kyle"));
    assert!(text_less("Annie", "Kyle"));
    assert!(text_less("Ann", "Annie"));
    assert!(!text_less("Kyle", "Kyle"));
    assert!(!text_less("b", "B"));
}
