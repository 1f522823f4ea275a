//! Serialization: a project written out and read back is structurally
//! equal, and malformed input is rejected.

use evideo_editor::codec::{deserialize_project, serialize_project};
use evideo_editor::project::Project;
use evideo_editor::run_code::run_code;
use evideo_editor::values::Value;
use evideo_editor::IntrinsicKind;

fn assert_projects_equal(a: &Project, b: &Project) {
    assert_eq!(a.paths, b.paths);
    assert_eq!(a.timeline.len(), b.timeline.len());
    for (x, y) in a.timeline.iter().zip(b.timeline.iter()) {
        assert_eq!(x.start_time, y.start_time);
        assert_eq!(x.length, y.length);
        assert_eq!(x.path, y.path);
    }
    assert_eq!(a.variables.len(), b.variables.len());
    for (x, y) in a.variables.iter().zip(b.variables.iter()) {
        assert_eq!(x.name, y.name);
        assert_values_equal(&x.value, &y.value);
    }
}

fn assert_values_equal(a: &Value, b: &Value) {
    match (a, b) {
        (Value::Undefined, Value::Undefined) => {}
        (Value::Num(x), Value::Num(y)) => assert_eq!(x, y),
        (Value::Str(x), Value::Str(y)) => assert_eq!(x, y),
        (Value::Handle(x), Value::Handle(y)) => assert_eq!(x.path, y.path),
        (Value::Intrinsic(x), Value::Intrinsic(y)) => assert_eq!(x, y),
        (x, y) => panic!("values differ: {:?} vs {:?}", x, y),
    }
}

fn roundtrip(p: &Project) -> Project {
    let text = serialize_project(p);
    match deserialize_project(text.as_str()) {
        Some(q) => q,
        None => panic!("serialized form did not parse back: {:?}", text),
    }
}

#[test]
fn empty_project_round_trips() {
    let p = Project::new();
    let q = roundtrip(&p);
    assert_projects_equal(&p, &q);
}

#[test]
fn evaluated_project_round_trips() {
    let out = run_code(
        "var p = load_clip(\"a.mp4\"); create_variable(\"clip1\", p); \
         create_variable(\"title\", \"My cut\"); create_variable(\"count\", 3); \
         load_clip(\"b.mp4\");",
    )
    .unwrap();
    let q = roundtrip(&out.project);
    assert_projects_equal(&out.project, &q);
}

#[test]
fn project_with_timeline_round_trips() {
    let mut p = Project::new();
    p.append_clip("a.mp4".to_string());
    p.append_clip("b.mp4".to_string());
    p.append_clip("a.mp4".to_string());
    let q = roundtrip(&p);
    assert_projects_equal(&p, &q);
}

#[test]
fn every_value_kind_round_trips() {
    let mut p = Project::new();
    p.set_variable("u".to_string(), Value::Undefined);
    p.set_variable("neg".to_string(), Value::Num(-42));
    p.set_variable("min".to_string(), Value::Num(i64::MIN));
    p.set_variable("max".to_string(), Value::Num(i64::MAX));
    p.set_variable("empty".to_string(), Value::Str(String::new()));
    p.set_variable(
        "tricky".to_string(),
        Value::Str("3:abc\"def\\n–ü".to_string()),
    );
    p.set_variable(
        "h".to_string(),
        Value::Handle(evideo_editor::ClipHandle {
            path: "dir/with:colons.mp4".to_string(),
        }),
    );
    p.set_variable("f".to_string(), Value::Intrinsic(IntrinsicKind::LoadClip));
    let q = roundtrip(&p);
    assert_projects_equal(&p, &q);
}

#[test]
fn serialized_form_is_deterministic() {
    let mut p = Project::new();
    p.register_path("a.mp4".to_string());
    p.append_clip("a.mp4".to_string());
    assert_eq!(serialize_project(&p), serialize_project(&p));
}

#[test]
fn exact_serialized_form_of_small_project() {
    let mut p = Project::new();
    p.register_path("ab".to_string());
    assert_eq!(serialize_project(&p), "P1:2:ab0:0:");
}

#[test]
fn garbage_does_not_deserialize() {
    assert!(deserialize_project("").is_none());
    assert!(deserialize_project("Q").is_none());
    assert!(deserialize_project("P").is_none());
    assert!(deserialize_project("P1:").is_none());
    assert!(deserialize_project("Px").is_none());
}

#[test]
fn trailing_characters_are_rejected() {
    let p = Project::new();
    let mut text = serialize_project(&p);
    assert!(deserialize_project(text.as_str()).is_some());
    text.push('x');
    assert!(deserialize_project(text.as_str()).is_none());
}
