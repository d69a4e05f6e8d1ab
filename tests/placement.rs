use mumowrk::command::{render_commands, get_assign_and_focus_workspace_command, get_focus_workspace_command, Command};
use mumowrk::config::{Config, MonitorGroup};
use mumowrk::error::EngineError;
use mumowrk::placement::{
    init_workspaces, move_container_to_workspace_group, plan_swap, swap_workspace_groups,
    switch_workspace_groups,
};
use mumowrk::snapshot::WorkspaceInfo;
use mumowrk::workspace_id::WorkspaceId;

fn ws(name: &str, visible: bool, focused: bool, output: &str) -> WorkspaceInfo {
    WorkspaceInfo { name: name.to_string(), visible, focused, output: output.to_string(), containers: vec![] }
}

fn names(v: &[&str]) -> Vec<String> {
    v.iter().map(|m| m.to_string()).collect()
}

fn config() -> Config {
    Config {
        groups: vec![
            MonitorGroup { name: "main".to_string(), monitors: names(&["DP-1", "DP-2"]) },
            MonitorGroup { name: "side".to_string(), monitors: names(&["HDMI-1"]) },
        ],
    }
}

fn text(r: Result<Vec<Command>, EngineError>) -> String {
    render_commands(&r.unwrap())
}

#[test]
fn command_texts() {
    let id = WorkspaceId::new("main", 1, 2);
    assert_eq!(get_assign_and_focus_workspace_command(&id, "DP-2"), "workspace main-1-2 output DP-2; workspace main-1-2");
    assert_eq!(get_focus_workspace_command(&id), "workspace main-1-2");
    let cs = vec![
        Command::Rename { from: "a".to_string(), to: "b".to_string() },
        Command::MoveContainerById { container: -5, workspace: "w".to_string() },
        Command::MoveWorkspaceToOutput { workspace: "w".to_string(), output: "DP-1".to_string() },
        Command::MoveContainer { workspace: "x".to_string() },
    ];
    assert_eq!(
        render_commands(&cs),
        "rename workspace \"a\" to \"b\"; [con_id=\"-5\"] move container to workspace w; workspace \"w\"; move workspace to output \"DP-1\"; move container to workspace x"
    );
    assert_eq!(render_commands(&vec![]), "");
}

#[test]
fn init_seeds_active_monitors_and_focuses_the_main_one() {
    let r = init_workspaces(&config(), &names(&["DP-2", "HDMI-1"]));
    assert_eq!(
        text(r),
        "workspace main-1-1 output DP-2; workspace main-1-1; workspace side-0-1 output HDMI-1; workspace side-0-1; workspace main-1-1"
    );
}

#[test]
fn init_errors() {
    assert_eq!(init_workspaces(&Config { groups: vec![] }, &names(&["DP-1"])).unwrap_err(), EngineError::ConfigError);
    assert_eq!(init_workspaces(&config(), &names(&["HDMI-1"])).unwrap_err(), EngineError::NoActiveMonitor);
}

#[test]
fn switch_moves_every_slot_and_keeps_the_focused_slot() {
    let w = vec![ws("main-0-1", true, false, "DP-1"), ws("main-1-1", true, true, "DP-2")];
    let r = switch_workspace_groups(&config(), &w, "main", "+1");
    assert_eq!(
        text(r),
        "workspace main-0-2 output DP-1; workspace main-0-2; workspace main-1-2 output DP-2; workspace main-1-2; workspace main-1-2"
    );
}

#[test]
fn switch_focus_from_an_unmanaged_workspace() {
    let w = vec![ws("web", true, true, "DP-1"), ws("main-1-1", true, false, "DP-2")];
    let r = switch_workspace_groups(&config(), &w, "main", "3");
    assert!(text(r).ends_with("; workspace main-0-3"));
    let w = vec![ws("web", true, true, "HDMI-1"), ws("main-1-1", true, false, "DP-2")];
    let r = switch_workspace_groups(&config(), &w, "main", "3");
    assert!(text(r).ends_with("; workspace web"));
}

#[test]
fn switch_to_the_current_index_names_the_same_workspaces() {
    let w = vec![ws("main-0-4", true, true, "DP-1"), ws("main-1-4", true, false, "DP-2")];
    let once = text(switch_workspace_groups(&config(), &w, "main", "+0"));
    assert_eq!(
        once,
        "workspace main-0-4 output DP-1; workspace main-0-4; workspace main-1-4 output DP-2; workspace main-1-4; workspace main-0-4"
    );
    assert_eq!(once, text(switch_workspace_groups(&config(), &w, "main", "4")));
}

#[test]
fn switch_errors() {
    let w = vec![ws("main-0-1", true, true, "DP-1")];
    assert_eq!(switch_workspace_groups(&config(), &w, "main", "x").unwrap_err(), EngineError::ParseError);
    assert_eq!(switch_workspace_groups(&config(), &w, "nope", "1").unwrap_err(), EngineError::GroupNotFound);
    let unfocused = vec![ws("main-0-1", true, false, "DP-1")];
    assert_eq!(switch_workspace_groups(&config(), &unfocused, "main", "1").unwrap_err(), EngineError::NoFocusedWorkspace);
}

#[test]
fn move_container_without_focus_change() {
    let w = vec![ws("main-1-2", true, true, "DP-2")];
    let r = move_container_to_workspace_group(&config(), &w, &names(&["DP-1", "DP-2"]), "+1", None, false);
    assert_eq!(text(r), "move container to workspace main-1-3");
}

#[test]
fn move_container_pulls_the_other_monitors() {
    let w = vec![ws("main-1-2", true, true, "DP-2")];
    let r = move_container_to_workspace_group(&config(), &w, &names(&["DP-1", "DP-2"]), "5", None, true);
    assert_eq!(
        text(r),
        "move container to workspace main-1-5; workspace main-0-5 output DP-1; workspace main-0-5; workspace main-1-5"
    );
}

#[test]
fn move_container_from_an_unmanaged_workspace() {
    let w = vec![ws("web", true, true, "DP-2")];
    let r = move_container_to_workspace_group(&config(), &w, &names(&["DP-2"]), "2", None, false);
    assert_eq!(text(r), "move container to workspace main-1-2");
    let r = move_container_to_workspace_group(&config(), &w, &names(&["DP-2"]), "2", Some("side"), false);
    assert_eq!(text(r), "move container to workspace side-1-2");
    let r = move_container_to_workspace_group(&config(), &w, &names(&["DP-2"]), "2", Some("nope"), false);
    assert_eq!(r.unwrap_err(), EngineError::GroupNotFound);
    let r = move_container_to_workspace_group(&config(), &w, &names(&[]), "2", None, false);
    assert_eq!(r.unwrap_err(), EngineError::NoActiveMonitor);
}

#[test]
fn swap_with_both_sides_goes_through_the_temporary_name() {
    let w = vec![
        ws("main-0-1", true, true, "DP-1"),
        ws("main-0-2", false, false, "DP-1"),
        ws("main-1-1", true, false, "DP-2"),
    ];
    let r = plan_swap(&config(), &w, &names(&["DP-1", "DP-2"]), 1, "2", None, "tmp-abc123");
    assert_eq!(
        text(r),
        "rename workspace \"main-0-2\" to \"tmp-abc123\"; rename workspace \"main-0-1\" to \"main-0-2\"; rename workspace \"tmp-abc123\" to \"main-0-1\"; rename workspace \"main-1-1\" to \"main-1-2\""
    );
}

#[test]
fn swap_with_only_the_target_renames_it() {
    let w = vec![ws("main-0-3", true, true, "DP-1")];
    let r = plan_swap(&config(), &w, &names(&["DP-1"]), 1, "3", None, "tmp-000000");
    assert_eq!(text(r), "rename workspace \"main-0-3\" to \"main-0-1\"");
}

#[test]
fn swap_with_nothing_renames_nothing() {
    let w = vec![ws("main-0-3", true, true, "DP-1")];
    let r = plan_swap(&config(), &w, &names(&["DP-1"]), 5, "6", None, "tmp-000000");
    assert!(r.unwrap().is_empty());
    let r = plan_swap(&config(), &w, &names(&["DP-1"]), 5, "6", Some("nope"), "tmp-000000");
    assert_eq!(r.unwrap_err(), EngineError::GroupNotFound);
}

#[test]
fn swap_draws_a_fresh_temporary_name() {
    let w = vec![ws("main-0-1", true, true, "DP-1"), ws("main-0-2", false, false, "DP-1")];
    let cs = swap_workspace_groups(&config(), &w, &names(&["DP-1"]), 1, "+1", None).unwrap();
    assert_eq!(cs.len(), 3);
    match &cs[0] {
        Command::Rename { from, to } => {
            assert_eq!(from, "main-0-2");
            assert_eq!(to.len(), 10);
            assert!(to.starts_with("tmp-"));
            assert!(to[4..].chars().all(|c| c.is_ascii_alphanumeric()));
        }
        _ => panic!("expected a rename"),
    }
}

#[test]
fn move_container_needs_a_configured_target_group() {
    let w = vec![ws("other-0-1", true, true, "DP-1")];
    let r = move_container_to_workspace_group(&config(), &w, &names(&["DP-1"]), "2", None, false);
    assert_eq!(r.unwrap_err(), EngineError::GroupNotFound);
    let r = move_container_to_workspace_group(&config(), &w, &names(&["DP-1"]), "2", Some("main"), false);
    assert_eq!(text(r), "move container to workspace main-0-2");
}
