use rylang::compiler::{Command, Compiler};
use rylang::parser::{Parser, StatementsError};
use rylang::syntax::{extract_args, ArgsError};

fn parser(contents: Option<&str>) -> Parser {
    Parser { filepath: "p.ry".to_string(), contents: contents.map(|c| c.to_string()), statements: None }
}

#[test]
fn statements_are_trimmed_and_nonempty() {
    let mut p = parser(Some("  let x = 1;\n\n ;print(x) ;  \n"));
    assert_eq!(p.get_statements(), Ok(()));
    assert_eq!(p.statements, Some(vec!["let x = 1".to_string(), "print(x)".to_string()]));
    assert_eq!(p.statement_lines(), vec!["0: let x = 1", "1: print(x)"]);
}

#[test]
fn trailing_text_is_refused() {
    let mut p = parser(Some("let x = 1; print(x)"));
    assert_eq!(p.get_statements(), Err(StatementsError::TrailingText));
    assert_eq!(p.statements, None);
    assert_eq!(StatementsError::TrailingText.message(), "non-whitespace content found after last ';'");
}

#[test]
fn no_contents_is_refused() {
    let mut p = parser(None);
    assert_eq!(p.get_statements(), Err(StatementsError::NoContents));
    assert_eq!(StatementsError::NoContents.message(), "contents is None");
    assert_eq!(p.statement_lines(), vec!["No statements loaded."]);
}

#[test]
fn read_command() {
    match Compiler::command_for("read(\"data.csv\")") {
        Ok(Some(Command::Read(p))) => assert_eq!(p, "data.csv"),
        _ => panic!("expected a read command"),
    }
}

#[test]
fn write_command() {
    match Compiler::command_for("  write( a, \"b,c\" ) ") {
        Ok(Some(Command::Write { statement, raw_args, args })) => {
            assert_eq!(statement, "  write( a, \"b,c\" ) ");
            assert_eq!(raw_args, " a, \"b,c\" ");
            assert_eq!(args, vec!["a", "b,c"]);
        }
        _ => panic!("expected a write command"),
    }
}

#[test]
fn other_statements_are_no_command() {
    assert!(matches!(Compiler::command_for("let x = 1"), Ok(None)));
    assert!(matches!(Compiler::command_for("print(x)"), Ok(None)));
    assert!(matches!(Compiler::command_for("9read(x)"), Ok(None)));
}

#[test]
fn read_command_errors() {
    match Compiler::command_for("read(a, b)") {
        Err(e) => assert_eq!(e, "read() expects exactly 1 argument, got 2 in statement: read(a, b)"),
        _ => panic!("expected an error"),
    }
    match Compiler::command_for("read(\" \")") {
        Err(e) => assert_eq!(e, "read() got an empty filepath in statement: read(\" \")"),
        _ => panic!("expected an error"),
    }
}

#[test]
fn compiler_checks_structure() {
    let mut p = parser(Some("read(\"a\"); write(b;\n"));
    p.get_statements().unwrap();
    let c = Compiler { data: None, parser: p };
    assert_eq!(c.fail_early(), vec!["write(b".to_string()]);
    assert!(c.check_parentheses_structure("{[()]}".to_string()));
    assert!(!c.check_parentheses_structure("{[(])}".to_string()));
    assert!(!c.check_parentheses_structure("'open".to_string()));
    assert_eq!(c.parse_args("\"x\\\",y\", z"), vec!["x\\\",y", "z"]);
    assert_eq!(c.clean_arg(" \"\" "), "");
}

#[test]
fn argument_text_between_parentheses() {
    let s: Vec<char> = "f(a, (b))".chars().collect();
    assert_eq!(extract_args(&s).ok(), Some("a, (b)".chars().collect::<Vec<char>>()));
    let t: Vec<char> = ")(".chars().collect();
    assert!(matches!(extract_args(&t), Err(ArgsError::Mismatched)));
    let u: Vec<char> = "f(".chars().collect();
    assert!(matches!(extract_args(&u), Err(ArgsError::MissingClose)));
    let v: Vec<char> = "f".chars().collect();
    assert!(matches!(extract_args(&v), Err(ArgsError::MissingOpen)));
}
