//! Malformed source: every failure is a `SyntaxError` carrying the
//! offending character offset, and execution never begins.

use evideo_editor::run_code::run_code;
use evideo_editor::values::Value;
use evideo_editor::ScriptError;

fn expect_syntax(src: &str) -> (usize, String) {
    match run_code(src) {
        Err(ScriptError::Syntax { pos, message }) => (pos, message),
        other => panic!("expected SyntaxError, got {:?}", other),
    }
}

#[test]
fn unterminated_string_literal() {
    let (pos, message) = expect_syntax("log(\"abc");
    assert_eq!(pos, 4);
    assert_eq!(message, "unterminated string literal");
}

#[test]
fn unexpected_character() {
    let (pos, message) = expect_syntax("@;");
    assert_eq!(pos, 0);
    assert_eq!(message, "unexpected character");
}

#[test]
fn number_literal_too_large() {
    let (pos, message) = expect_syntax("log(99999999999999999999);");
    assert_eq!(pos, 4);
    assert_eq!(message, "number literal too large");
}

#[test]
fn number_one_past_i64_max_is_too_large() {
    let (_, message) = expect_syntax("return 9223372036854775808;");
    assert_eq!(message, "number literal too large");
}

#[test]
fn i64_max_literal_is_accepted() {
    let out = run_code("return 9223372036854775807;").unwrap();
    assert!(matches!(out.final_value, Value::Num(9223372036854775807)));
}

#[test]
fn missing_semicolon() {
    let (pos, message) = expect_syntax("log(\"a\")");
    assert_eq!(pos, 8);
    assert_eq!(message, "expected ';'");
}

#[test]
fn var_without_identifier() {
    let (pos, message) = expect_syntax("var = 5;");
    assert_eq!(pos, 4);
    assert_eq!(message, "expected identifier after 'var'");
}

#[test]
fn var_without_equals() {
    let (_, message) = expect_syntax("var x 5;");
    assert_eq!(message, "expected '='");
}

#[test]
fn unclosed_call() {
    let (_, message) = expect_syntax("log(\"a\";");
    assert_eq!(message, "expected ')' or ','");
}

#[test]
fn empty_source_is_a_valid_empty_program() {
    let out = run_code("").unwrap();
    assert!(matches!(out.final_value, Value::Undefined));
    assert_eq!(out.project.paths.len(), 0);
}

#[test]
fn parse_failure_returns_no_project() {
    // Parse-time failures abort before any evaluation: even statements
    // before the offence have no effect, there is no partial project.
    assert!(run_code("load_clip(\"a.mp4\"); @").is_err());
}

#[test]
fn call_arguments_are_primaries() {
    let out = run_code("var p = load_clip(\"a.mp4\"); create_variable(\"c\", p);").unwrap();
    assert_eq!(out.project.paths, vec!["a.mp4".to_string()]);
}
