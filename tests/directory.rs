use company_directory::command::{parse_user_input, Command, Employee};
use company_directory::company::{add_employee, list_all, list_for_department, react, Company};
use company_directory::department::Department;

fn company_factory() -> Company {
    Company::new(String::from("Testers, Inc."))
}

#[test]
fn empty_company() {
    let cmd = parse_user_input("list");
    assert_eq!(react(&mut company_factory(), cmd), String::new());
}

#[test]
fn company_one_employee() {
    let cmd = parse_user_input("add Sam to HR");
    let mut comp = company_factory();
    react(&mut comp, cmd);
    let cmd = parse_user_input("list");
    assert_eq!(react(&mut comp, cmd), "HR\n\tSam\n\n".to_string());
}

#[test]
fn company_many_employees() {
    let mut comp = company_factory();
    for cmd in vec![
        parse_user_input("add Sam to HR"),
        parse_user_input("add Kyle to Finance"),
        parse_user_input("add Annie to Finance"),
        parse_user_input("add Bobby to Sales"),
    ] {
        react(&mut comp, cmd);
    }
    let cmd = parse_user_input("list");
    assert_eq!(
        react(&mut comp, cmd),
        "Finance\n\tAnnie\n\tKyle\n\nHR\n\tSam\n\nSales\n\tBobby\n\n".to_string()
    );
    let cmd = parse_user_input("list Finance");
    assert_eq!(react(&mut comp, cmd), "Annie\nKyle\n".to_string());
}

#[test]
fn add_confirms() {
    let mut comp = company_factory();
    let r = react(&mut comp, parse_user_input("add Sam to CustomerService"));
    assert_eq!(r, "Successfully added Sam into CustomerService.");
    assert_eq!(list_for_department(&comp, &Department::CustomerService), "Sam\n");
    assert_eq!(comp.name(), "Testers, Inc.");
}

#[test]
fn empty_department_message() {
    let mut comp = company_factory();
    assert_eq!(
        react(&mut comp, parse_user_input("list IT")),
        "There are no employees assigned to this department."
    );
    add_employee(&mut comp, Employee::new("Zed".to_string()), Department::QA);
    assert_eq!(
        list_for_department(&comp, &Department::IT),
        "There are no employees assigned to this department."
    );
    assert_eq!(list_all(&comp), "QA\n\tZed\n\n");
}

#[test]
fn empty_and_illegal_reactions() {
    let mut comp = company_factory();
    add_employee(&mut comp, Employee::new("Sam".to_string()), Department::HR);
    assert_eq!(react(&mut comp, parse_user_input("   ")), "");
    assert_eq!(react(&mut comp, Command::Illegal("Unknown command.")), "Unknown command.");
    assert_eq!(list_all(&comp), "HR\n\tSam\n\n");
}

#[test]
fn adding_twice_is_adding_once() {
    let mut once = company_factory();
    add_employee(&mut once, Employee::new("Sam".to_string()), Department::HR);
    let mut twice = company_factory();
    add_employee(&mut twice, Employee::new("Sam".to_string()), Department::HR);
    add_employee(&mut twice, Employee::new("Sam".to_string()), Department::HR);
    assert_eq!(list_all(&once), list_all(&twice));
    assert_eq!(list_for_department(&twice, &Department::HR), "Sam\n");
}

#[test]
fn insertion_order_does_not_matter() {
    let entries = [
        ("Sam", Department::HR),
        ("Kyle", Department::Finance),
        ("Annie", Department::Finance),
        ("Bobby", Department::Sales),
        ("Al", Department::Accounting),
    ];
    let mut forward = company_factory();
    for (n, d) in entries.iter() {
        add_employee(&mut forward, Employee::new(n.to_string()), *d);
    }
    let mut backward = company_factory();
    for (n, d) in entries.iter().rev() {
        add_employee(&mut backward, Employee::new(n.to_string()), *d);
    }
    let expected = "Accounting\n\tAl\n\nFinance\n\tAnnie\n\tKyle\n\nHR\n\tSam\n\nSales\n\tBobby\n\n";
    assert_eq!(list_all(&forward), expected);
    assert_eq!(list_all(&backward), expected);
}
