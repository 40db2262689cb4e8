use monkey::repl::{EvalSession, LineOutcome, Session};
use monkey::lexer::Lexer;
use monkey::parser::Parser;

fn value_of(outcome: LineOutcome) -> Option<String> {
    match outcome {
        LineOutcome::Value(v) => v,
        other => panic!("expected a value, got {:?}", other),
    }
}

#[test]
fn session_keeps_globals_between_lines() {
    let mut session = Session::new();
    let mut output: Vec<String> = Vec::new();
    assert_eq!(value_of(session.run_line("let a = 5;", &mut output)), Some("5".to_string()));
    assert_eq!(value_of(session.run_line("let b = a * 2;", &mut output)), Some("10".to_string()));
    assert_eq!(value_of(session.run_line("a + b", &mut output)), Some("15".to_string()));
    assert!(output.is_empty());
}

#[test]
fn session_keeps_functions_between_lines() {
    let mut session = Session::new();
    let mut output: Vec<String> = Vec::new();
    session.run_line("let add = fn(x, y) { x + y };", &mut output);
    assert_eq!(value_of(session.run_line("add(2, 3)", &mut output)), Some("5".to_string()));
}

#[test]
fn session_reports_parse_errors() {
    let mut session = Session::new();
    let mut output: Vec<String> = Vec::new();
    match session.run_line("let = 5;", &mut output) {
        LineOutcome::ParseErrors(errors) => {
            assert_eq!(errors[0], "expected next token to be IDENT, got ASSIGN instead");
        },
        other => panic!("expected parse errors, got {:?}", other),
    }
}

#[test]
fn session_reports_compile_errors() {
    let mut session = Session::new();
    let mut output: Vec<String> = Vec::new();
    match session.run_line("x + 1", &mut output) {
        LineOutcome::CompileError(e) => assert_eq!(e, "undefined variable x"),
        other => panic!("expected a compile error, got {:?}", other),
    }
}

#[test]
fn session_reports_runtime_errors() {
    let mut session = Session::new();
    let mut output: Vec<String> = Vec::new();
    match session.run_line("1 + true", &mut output) {
        LineOutcome::RuntimeError(e) => {
            assert_eq!(e, "unsupported types for binary operation: INTEGER BOOLEAN")
        },
        other => panic!("expected a runtime error, got {:?}", other),
    }
}

#[test]
fn session_collects_puts_output() {
    let mut session = Session::new();
    let mut output: Vec<String> = Vec::new();
    let v = value_of(session.run_line("puts(\"hello\", 42)", &mut output));
    assert_eq!(v, Some("null".to_string()));
    assert_eq!(output, vec!["hello".to_string(), "42".to_string()]);
}

#[test]
fn eval_session_keeps_bindings_between_lines() {
    let mut session = EvalSession::new();
    let mut output: Vec<String> = Vec::new();
    assert_eq!(value_of(session.run_line("let a = 5;", &mut output)), Some("5".to_string()));
    assert_eq!(value_of(session.run_line("a * a", &mut output)), Some("25".to_string()));
    assert_eq!(value_of(session.run_line("let f = fn(x) { x + a }; f(1)", &mut output)), Some("6".to_string()));
}

#[test]
fn eval_session_reports_errors_as_values() {
    let mut session = EvalSession::new();
    let mut output: Vec<String> = Vec::new();
    assert_eq!(
        value_of(session.run_line("-true", &mut output)),
        Some("ERROR: unknown operator: -BOOLEAN".to_string())
    );
}

#[test]
fn parser_records_error_messages() {
    let l = Lexer::new("let x 5; let = 10; let 838383;");
    let mut p = Parser::new(l);
    let errors = p.parse_program().unwrap_err();
    assert_eq!(errors[0], "expected next token to be ASSIGN, got INT instead");
    assert_eq!(errors[1], "expected next token to be IDENT, got ASSIGN instead");
    assert_eq!(errors[2], "no prefix parse function for ASSIGN found");
    assert_eq!(errors, p.errors);
    let reported = p.get_errors();
    assert_eq!(reported[0], "expected next token to be ASSIGN, got INT instead.");
    assert_eq!(reported[1], "expected next token to be IDENT, got ASSIGN instead.");
    assert_eq!(reported[2], "no prefix parse function for ASSIGN found");
    assert_eq!(p.get_errors(), reported);
}

#[test]
fn parser_records_integer_overflow() {
    let l = Lexer::new("99999999999999999999");
    let mut p = Parser::new(l);
    let errors = p.parse_program().unwrap_err();
    assert_eq!(errors[0], "could not parse 99999999999999999999 as integer");
    assert_eq!(p.get_errors(), errors);
}

#[test]
fn parse_program_fails_exactly_when_a_statement_fails() {
    let mut p = Parser::new(Lexer::new("let = 5;"));
    assert_eq!(
        p.parse_program().unwrap_err(),
        vec!["expected next token to be IDENT, got ASSIGN instead".to_string(), "no prefix parse function for ASSIGN found".to_string()]
    );
    let mut q = Parser::new(Lexer::new("let x = 5; x;"));
    assert_eq!(q.parse_program().unwrap().statements.len(), 2);
    assert!(q.errors.is_empty());
}
