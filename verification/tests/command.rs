use neap::repl::command::{
    ReplCommand, help_text, is_incomplete_input, parse_command, pattern_name, split_words, type_of,
};
use neap::syntax::parser::Parser;
use neap::types::infer::TypeChecker;
use neap::types::repr::Type;

#[test]
fn words_split_at_any_white_space() {
    assert_eq!(split_words("  :type  1 +\t2\n"), vec![":type", "1", "+", "2"]);
    assert!(split_words("   ").is_empty());
    assert_eq!(split_words("x\u{a0}y"), vec!["x", "y"]);
}

#[test]
fn command_quit_and_help() {
    assert!(matches!(parse_command(":quit"), ReplCommand::Quit));
    assert!(matches!(parse_command(":q"), ReplCommand::Quit));
    assert!(matches!(parse_command(":help"), ReplCommand::Help));
    assert!(matches!(parse_command(" :h extra"), ReplCommand::Help));
    assert!(matches!(parse_command(":clear"), ReplCommand::Clear));
}

#[test]
fn command_type_joins_the_expression() {
    match parse_command(":type   1   +  2") {
        ReplCommand::TypeOf(e) => assert_eq!(e, "1 + 2"),
        other => panic!("unexpected {:?}", other),
    }
    assert!(matches!(parse_command(":t"), ReplCommand::TypeUsage));
}

#[test]
fn command_unknown_keeps_the_word() {
    match parse_command(":frobnicate now") {
        ReplCommand::Unknown(c) => assert_eq!(c, ":frobnicate"),
        other => panic!("unexpected {:?}", other),
    }
    match parse_command("") {
        ReplCommand::Unknown(c) => assert_eq!(c, ""),
        other => panic!("unexpected {:?}", other),
    }
}

#[test]
fn help_lists_the_commands() {
    let h = help_text();
    assert!(h.starts_with("Neap REPL Commands:\n"));
    assert!(h.contains(":quit"));
    assert!(h.ends_with("  fun double n = n * 2   Function declaration\n"));
}

#[test]
fn incomplete_input_checks() {
    assert!(is_incomplete_input("1 +", "unexpected end of input: expected expression"));
    assert!(is_incomplete_input("let x = 1", "oops"));
    assert!(!is_incomplete_input("let x = 1 in x", "oops"));
    assert!(!is_incomplete_input("1 2", "oops"));
}

#[test]
fn pattern_name_of_variable_only() {
    let mut parser = Parser::new("x").unwrap();
    let p = parser.parse_pattern().unwrap();
    assert_eq!(pattern_name(&p), Ok("x".to_string()));
    let mut parser = Parser::new("(a, b)").unwrap();
    let p = parser.parse_pattern().unwrap();
    assert_eq!(pattern_name(&p), Err("Complex patterns not supported in REPL declarations".to_string()));
}

#[test]
fn type_of_reports_type_and_errors() {
    let mut checker = TypeChecker::new();
    assert_eq!(type_of(&mut checker, "1 + 2"), Ok(Type::int_type()));
    let e = type_of(&mut checker, "1 + true").unwrap_err();
    assert!(e.starts_with("Type error: "));
    let e = type_of(&mut checker, "(1").unwrap_err();
    assert!(e.starts_with("Parse error: "));
}
