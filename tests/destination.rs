use mumowrk::destination::{get_target_index, is_relative_from_default};
use mumowrk::error::EngineError;
use mumowrk::snapshot::{
    get_current_index, get_output_descriptor, get_output_descriptor_by_name, get_output_name_by_descriptor,
    OutputInfo, WorkspaceInfo,
};

fn ws(name: &str, visible: bool, focused: bool, output: &str) -> WorkspaceInfo {
    WorkspaceInfo {
        name: name.to_string(),
        visible,
        focused,
        output: output.to_string(),
        containers: vec![],
    }
}

fn main_at_three() -> Vec<WorkspaceInfo> {
    vec![
        ws("notes", false, false, "DP-1"),
        ws("main-0-2", false, false, "DP-1"),
        ws("side-0-8", true, false, "HDMI-1"),
        ws("main-0-3", true, true, "DP-1"),
        ws("main-1-3", true, false, "DP-2"),
    ]
}

#[test]
fn relative_and_absolute_destinations() {
    let w = main_at_three();
    assert_eq!(get_target_index(&w, "main", "+2"), Ok(5));
    assert_eq!(get_target_index(&w, "main", "-1"), Ok(2));
    assert_eq!(get_target_index(&w, "main", "7"), Ok(7));
    assert_eq!(get_target_index(&w, "side", "+1"), Ok(9));
}

#[test]
fn relative_destination_defaults_to_one() {
    let w = vec![ws("main-0-4", false, true, "DP-1"), ws("web", true, false, "DP-1")];
    assert_eq!(get_target_index(&w, "main", "+2"), Ok(3));
    assert_eq!(get_target_index(&w, "main", "-3"), Ok(-2));
    assert_eq!(get_target_index(&w, "other", "+0"), Ok(1));
}

#[test]
fn malformed_destination_is_a_parse_error() {
    let w = main_at_three();
    assert_eq!(get_target_index(&w, "main", "abc"), Err(EngineError::ParseError));
    assert_eq!(get_target_index(&w, "main", ""), Err(EngineError::ParseError));
    assert_eq!(get_target_index(&w, "main", "+"), Err(EngineError::ParseError));
    assert_eq!(get_target_index(&w, "main", "99999999999"), Err(EngineError::ParseError));
}

#[test]
fn destination_takes_the_leftmost_match() {
    let w = main_at_three();
    assert_eq!(get_target_index(&w, "main", "go+4now"), Ok(7));
    assert_eq!(get_target_index(&w, "main", "-x12"), Ok(12));
    assert_eq!(get_target_index(&w, "main", "--2"), Ok(1));
}

#[test]
fn destination_result_must_fit() {
    let w = vec![ws("main-0-2147483647", true, true, "DP-1")];
    assert_eq!(get_target_index(&w, "main", "+1"), Err(EngineError::ParseError));
    assert_eq!(get_target_index(&w, "main", "-1"), Ok(2147483646));
}

#[test]
fn current_index_label() {
    let w = main_at_three();
    assert_eq!(get_current_index(&w, "main"), "3");
    assert_eq!(get_current_index(&w, "side"), "8");
    assert_eq!(get_current_index(&w, "none"), "?");
}

fn output(name: &str, make: &str, model: &str, serial: &str, active: bool) -> OutputInfo {
    OutputInfo {
        name: name.to_string(),
        make: make.to_string(),
        model: model.to_string(),
        serial: serial.to_string(),
        active,
    }
}

#[test]
fn output_descriptors() {
    let outs = vec![
        output("DP-1", "Dell Inc.", "U2720Q", "ABC123", true),
        output("HDMI-1", "Goldstar", "LG TV", "", true),
        output("DP-2", "Dell Inc.", "U2720Q", "XYZ", false),
    ];
    assert_eq!(get_output_descriptor(&outs[0]), "Dell Inc. U2720Q ABC123");
    assert_eq!(get_output_descriptor(&outs[1]), "Goldstar LG TV Unknown");
    assert_eq!(get_output_descriptor_by_name(&outs, "HDMI-1"), Some("Goldstar LG TV Unknown".to_string()));
    assert_eq!(get_output_descriptor_by_name(&outs, "DP-2"), None);
    assert_eq!(get_output_name_by_descriptor(&outs, "Dell Inc. U2720Q ABC123"), Some("DP-1".to_string()));
    assert_eq!(get_output_name_by_descriptor(&outs, "Dell Inc. U2720Q XYZ"), None);
}

#[test]
fn relative_step_from_the_default_index() {
    let w = main_at_three();
    assert!(!is_relative_from_default(&w, "main", "+1"));
    assert!(is_relative_from_default(&w, "other", "+1"));
    assert!(is_relative_from_default(&w, "other", "-2"));
    assert!(!is_relative_from_default(&w, "other", "4"));
    assert!(!is_relative_from_default(&w, "other", "x"));
}
