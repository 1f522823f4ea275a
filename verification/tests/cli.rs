//! The command-line surface, parsed from a plain argument vector.

use evideo_editor::args::parse_arguments;

fn argv(parts: &[&str]) -> Vec<String> {
    parts.iter().map(|s| s.to_string()).collect()
}

#[test]
fn no_arguments_asks_for_help() {
    assert!(parse_arguments(&argv(&["video_editor"])).is_none());
}

#[test]
fn script_path_alone() {
    let a = parse_arguments(&argv(&["video_editor", "cut.vs"])).unwrap();
    assert_eq!(a.file_path.as_deref(), Some("cut.vs"));
    assert!(!a.gui_mode);
}

#[test]
fn gui_flag_alone() {
    let a = parse_arguments(&argv(&["video_editor", "--gui"])).unwrap();
    assert!(a.file_path.is_none());
    assert!(a.gui_mode);
}

#[test]
fn script_path_with_gui_flag() {
    let a = parse_arguments(&argv(&["video_editor", "cut.vs", "--gui"])).unwrap();
    assert_eq!(a.file_path.as_deref(), Some("cut.vs"));
    assert!(a.gui_mode);
}

#[test]
fn leading_flag_leaves_no_file_path() {
    let a = parse_arguments(&argv(&["video_editor", "--gui", "cut.vs"])).unwrap();
    assert!(a.file_path.is_none());
    assert!(a.gui_mode);
}

#[test]
fn unknown_flag_is_not_gui() {
    let a = parse_arguments(&argv(&["video_editor", "--verbose"])).unwrap();
    assert!(a.file_path.is_none());
    assert!(!a.gui_mode);
}
