use rust_practice::command::Command;
use rust_practice::interpreter::{help_lines, Interpreter};

fn run(it: &mut Interpreter, line: &str) -> Vec<String> {
    it.handle_line(line)
}

#[test]
fn end_to_end_session() {
    let mut it = Interpreter::new();
    assert_eq!(run(&mut it, "add Sally to Engineering"), vec!["Added Sally to Engineering"]);
    assert_eq!(run(&mut it, "add Amir to Sales"), vec!["Added Amir to Sales"]);
    assert_eq!(run(&mut it, "add Sally to Engineering"), vec!["Sally is already in Engineering"]);
    assert_eq!(
        run(&mut it, "list all"),
        vec![
            "",
            "All departments:",
            "",
            "Engineering department:",
            "- Sally",
            "",
            "Sales department:",
            "- Amir",
        ]
    );
    assert!(!it.is_stopped());
    assert_eq!(run(&mut it, "exit"), vec!["Goodbye!"]);
    assert!(it.is_stopped());
}

#[test]
fn invalid_line_answers_with_help() {
    let mut it = Interpreter::new();
    let mut expected = vec!["Invalid command!".to_string()];
    expected.extend(help_lines());
    assert_eq!(run(&mut it, "banana"), expected);
    assert_eq!(
        help_lines(),
        vec![
            "",
            "Available commands:",
            "- Add <name> to <department>",
            "- List <department>",
            "- List all",
            "- Exit",
        ]
    );
    assert!(!it.is_stopped());
}

#[test]
fn listing_what_is_not_there() {
    let mut it = Interpreter::new();
    assert_eq!(run(&mut it, "list all"), vec!["No employees in the company"]);
    assert_eq!(run(&mut it, "list Sales"), vec!["No employees found in Sales"]);
    run(&mut it, "add Bo to Sales");
    assert_eq!(run(&mut it, "list Ops"), vec!["No employees found in Ops"]);
    assert_eq!(
        run(&mut it, "List Sales extra"),
        vec!["", "Sales department:", "- Bo"]
    );
}

#[test]
fn department_listing_is_sorted() {
    let mut it = Interpreter::new();
    run(&mut it, "add Zed to Ops");
    run(&mut it, "Add amy to Ops");
    run(&mut it, "add Carl TO Ops");
    assert_eq!(
        run(&mut it, "list Ops"),
        vec!["", "Ops department:", "- Carl", "- Zed", "- amy"]
    );
}

#[test]
fn stopped_interpreter_does_nothing() {
    let mut it = Interpreter::new();
    assert_eq!(it.execute(Command::Exit), vec!["Goodbye!"]);
    assert!(it.execute(Command::Add("A".to_string(), "B".to_string())).is_empty());
    assert!(run(&mut it, "list all").is_empty());
    assert!(it.is_stopped());
}

#[test]
fn quit_also_stops() {
    let mut it = Interpreter::new();
    assert_eq!(run(&mut it, "quit"), vec!["Goodbye!"]);
    assert!(it.is_stopped());
}
