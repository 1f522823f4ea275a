//! Scenarios run end to end through the script runner.

use evideo_editor::run_code::run_code;
use evideo_editor::values::Value;
use evideo_editor::ScriptError;

fn run_ok(src: &str) -> evideo_editor::RunOutcome {
    match run_code(src) {
        Ok(out) => out,
        Err(e) => panic!("script failed: {:?}", e),
    }
}

#[test]
fn bind_loaded_reference_to_name() {
    let out = run_ok("var p = load_clip(\"a.mp4\"); create_variable(\"clip1\", p);");
    assert_eq!(out.project.timeline.len(), 0);
    match out.project.get_variable("clip1") {
        Some(Value::Handle(h)) => assert_eq!(h.path, "a.mp4"),
        other => panic!("expected a handle, got {:?}", other),
    }
}

#[test]
fn load_clip_with_number_is_type_error() {
    match run_code("load_clip(5);") {
        Err(ScriptError::Type { message }) => {
            assert_eq!(message, "First argument of load_clip must be a string");
        }
        other => panic!("expected TypeError, got {:?}", other),
    }
}

#[test]
fn load_clip_failure_is_atomic() {
    // The failing call aborts the run; no partial project escapes.
    assert!(run_code("load_clip(\"a.mp4\"); load_clip(7); load_clip(\"b.mp4\");").is_err());
}

#[test]
fn log_emits_and_leaves_project_untouched() {
    let out = run_ok("log(\"hello\"); log(42);");
    assert_eq!(out.log, vec!["hello".to_string(), "42".to_string()]);
    assert_eq!(out.project.paths.len(), 0);
    assert_eq!(out.project.timeline.len(), 0);
    assert_eq!(out.project.variables.len(), 0);
}

#[test]
fn log_without_arguments_prints_undefined() {
    let out = run_ok("log();");
    assert_eq!(out.log, vec!["undefined".to_string()]);
}

#[test]
fn log_of_handle_shows_path() {
    let out = run_ok("var p = load_clip(\"a.mp4\"); log(p);");
    assert_eq!(out.log, vec!["clip(a.mp4)".to_string()]);
}

#[test]
fn load_clip_registers_each_path_once() {
    let out = run_ok("load_clip(\"a.mp4\"); load_clip(\"b.mp4\"); load_clip(\"a.mp4\");");
    assert_eq!(out.project.paths, vec!["a.mp4".to_string(), "b.mp4".to_string()]);
    assert_eq!(out.project.timeline.len(), 0);
}

#[test]
fn return_yields_final_value() {
    let out = run_ok("return 7;");
    assert!(matches!(out.final_value, Value::Num(7)));
}

#[test]
fn return_stops_execution() {
    let out = run_ok("log(\"before\"); return 1; log(\"after\");");
    assert_eq!(out.log, vec!["before".to_string()]);
    assert!(matches!(out.final_value, Value::Num(1)));
}

#[test]
fn run_without_return_yields_undefined() {
    let out = run_ok("log(\"x\");");
    assert!(matches!(out.final_value, Value::Undefined));
}

#[test]
fn unbound_identifier_is_reference_error() {
    match run_code("nope();") {
        Err(ScriptError::Reference { name }) => assert_eq!(name, "nope"),
        other => panic!("expected ReferenceError, got {:?}", other),
    }
}

#[test]
fn calling_a_number_is_type_error() {
    match run_code("var x = 5; x(\"a\");") {
        Err(ScriptError::Type { message }) => {
            assert_eq!(message, "called value is not a function");
        }
        other => panic!("expected TypeError, got {:?}", other),
    }
}

#[test]
fn create_variable_with_number_name_is_type_error() {
    match run_code("create_variable(1, 2);") {
        Err(ScriptError::Type { message }) => {
            assert_eq!(message, "First argument of create_variable must be a string");
        }
        other => panic!("expected TypeError, got {:?}", other),
    }
}

#[test]
fn create_variable_last_write_wins() {
    let out = run_ok("create_variable(\"k\", 1); create_variable(\"k\", 2);");
    assert_eq!(out.project.variables.len(), 1);
    match out.project.get_variable("k") {
        Some(Value::Num(2)) => {}
        other => panic!("expected 2, got {:?}", other),
    }
}

#[test]
fn redeclaration_in_same_scope_overwrites() {
    let out = run_ok("var x = 1; var x = \"two\"; create_variable(\"y\", x);");
    match out.project.get_variable("y") {
        Some(Value::Str(s)) => assert_eq!(s, "two"),
        other => panic!("expected \"two\", got {:?}", other),
    }
}

#[test]
fn create_variable_without_value_binds_undefined() {
    let out = run_ok("create_variable(\"only_name\");");
    assert!(matches!(
        out.project.get_variable("only_name"),
        Some(Value::Undefined)
    ));
}

#[test]
fn whitespace_and_comments_are_insignificant() {
    let out = run_ok("  // leading comment\n\tlog ( \"a\" ) ; // trailing\n// only comment\n");
    assert_eq!(out.log, vec!["a".to_string()]);
}

#[test]
fn expression_statement_value_is_discarded() {
    let out = run_ok("5; \"s\";");
    assert!(matches!(out.final_value, Value::Undefined));
    assert_eq!(out.project.variables.len(), 0);
}

#[test]
fn intrinsics_are_values_in_scope() {
    let out = run_ok("var f = log; create_variable(\"g\", f); log(f);");
    assert!(matches!(
        out.project.get_variable("g"),
        Some(Value::Intrinsic(evideo_editor::IntrinsicKind::Log))
    ));
    assert_eq!(out.log, vec!["function".to_string()]);
}

#[test]
fn negative_number_formatting_in_log() {
    let out = run_ok("create_variable(\"n\", 0); log(0);");
    assert_eq!(out.log, vec!["0".to_string()]);
}
