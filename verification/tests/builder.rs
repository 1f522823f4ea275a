//! The project builder: appends, derived start times, paths, variables.

use evideo_editor::project::{add_clip, Clip, Project, DEFAULT_CLIP_LENGTH};
use evideo_editor::values::Value;

#[test]
fn two_appends_yield_consecutive_clips() {
    let mut p = Project::new();
    p.append_clip("a.mp4".to_string());
    p.append_clip("b.mp4".to_string());
    assert_eq!(p.timeline.len(), 2);
    assert_eq!(p.timeline[0].start_time, 0);
    assert_eq!(p.timeline[0].length, 5);
    assert_eq!(p.timeline[0].path, "a.mp4");
    assert_eq!(p.timeline[1].start_time, 5);
    assert_eq!(p.timeline[1].length, 5);
    assert_eq!(p.timeline[1].path, "b.mp4");
}

#[test]
fn start_times_are_prefix_sums_of_lengths() {
    let mut p = Project::new();
    for name in ["a", "b", "c", "d", "e"] {
        p.append_clip(name.to_string());
    }
    // All lengths are the default constant, so clip i starts at 5 * i and
    // the first clip starts at zero.
    for (i, clip) in p.timeline.iter().enumerate() {
        assert_eq!(clip.start_time, DEFAULT_CLIP_LENGTH * i as i64);
        assert_eq!(clip.length, DEFAULT_CLIP_LENGTH);
    }
}

#[test]
fn appending_same_path_twice_gives_two_clips() {
    let mut p = Project::new();
    p.append_clip("a.mp4".to_string());
    p.append_clip("a.mp4".to_string());
    assert_eq!(p.timeline.len(), 2);
    assert_eq!(p.timeline[0].start_time, 0);
    assert_eq!(p.timeline[1].start_time, 5);
    assert_eq!(p.timeline[0].path, p.timeline[1].path);
}

#[test]
fn add_clip_on_bare_timeline() {
    let mut timeline: Vec<Clip> = Vec::new();
    add_clip(&mut timeline, "x.mp4".to_string());
    add_clip(&mut timeline, "y.mp4".to_string());
    assert_eq!(timeline[0].start_time, 0);
    assert_eq!(timeline[1].start_time, 5);
}

#[test]
fn clip_new_uses_default_length() {
    let c = Clip::new(30, "z.mp4".to_string());
    assert_eq!(c.start_time, 30);
    assert_eq!(c.length, DEFAULT_CLIP_LENGTH);
    assert_eq!(c.path, "z.mp4");
}

#[test]
fn register_path_deduplicates() {
    let mut p = Project::new();
    p.register_path("a.mp4".to_string());
    p.register_path("b.mp4".to_string());
    p.register_path("a.mp4".to_string());
    assert_eq!(p.paths, vec!["a.mp4".to_string(), "b.mp4".to_string()]);
}

#[test]
fn set_variable_overwrites_and_appends() {
    let mut p = Project::new();
    p.set_variable("a".to_string(), Value::Num(1));
    p.set_variable("b".to_string(), Value::Num(2));
    p.set_variable("a".to_string(), Value::Num(3));
    assert_eq!(p.variables.len(), 2);
    assert!(matches!(p.get_variable("a"), Some(Value::Num(3))));
    assert!(matches!(p.get_variable("b"), Some(Value::Num(2))));
    assert!(p.get_variable("c").is_none());
}
