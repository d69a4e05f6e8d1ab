use mumowrk::command::render_commands;
use mumowrk::config::{Config, MonitorGroup};
use mumowrk::error::EngineError;
use mumowrk::reconcile::{get_foreign_monitor, reorganize_everything};
use mumowrk::snapshot::WorkspaceInfo;

fn ws(name: &str, output: &str, containers: &[i64]) -> WorkspaceInfo {
    WorkspaceInfo {
        name: name.to_string(),
        visible: true,
        focused: false,
        output: output.to_string(),
        containers: containers.to_vec(),
    }
}

fn names(v: &[&str]) -> Vec<String> {
    v.iter().map(|m| m.to_string()).collect()
}

fn group(name: &str, monitors: &[&str]) -> MonitorGroup {
    MonitorGroup { name: name.to_string(), monitors: names(monitors) }
}

#[test]
fn placed_workspaces_stay() {
    let c = Config { groups: vec![group("main", &["DP-1", "DP-2"])] };
    let w = vec![ws("main-0-1", "DP-1", &[1]), ws("main-1-1", "DP-2", &[2]), ws("web", "DP-1", &[3])];
    assert!(reorganize_everything(&c, &w, &names(&["DP-1", "DP-2"])).unwrap().is_empty());
}

#[test]
fn workspace_returns_to_its_monitor() {
    let c = Config { groups: vec![group("main", &["DP-1", "DP-2"])] };
    let w = vec![ws("main-0-1", "DP-1", &[1]), ws("main-1-1", "DP-1", &[2])];
    let r = reorganize_everything(&c, &w, &names(&["DP-1", "DP-2"])).unwrap();
    assert_eq!(render_commands(&r), "workspace \"main-1-1\"; move workspace to output \"DP-2\"");
}

#[test]
fn workspace_of_an_unplugged_monitor_takes_a_free_slot() {
    let c = Config { groups: vec![group("main", &["DP-1", "DP-2", "DP-3"])] };
    let w = vec![ws("main-0-1", "DP-1", &[1]), ws("main-1-1", "DP-1", &[11])];
    let r = reorganize_everything(&c, &w, &names(&["DP-1", "DP-3"])).unwrap();
    assert_eq!(
        render_commands(&r),
        "workspace \"main-1-1\"; move workspace to output \"DP-3\"; rename workspace \"main-1-1\" to \"main-2-1\""
    );
}

#[test]
fn overflowing_workspace_merges_into_the_main_monitor() {
    let c = Config { groups: vec![group("main", &["DP-1", "DP-2"])] };
    let w = vec![ws("main-0-1", "DP-1", &[5]), ws("main-1-1", "DP-1", &[21, 22])];
    let r = reorganize_everything(&c, &w, &names(&["DP-1"])).unwrap();
    assert_eq!(
        render_commands(&r),
        "[con_id=\"21\"] move container to workspace main-0-1; [con_id=\"22\"] move container to workspace main-0-1"
    );
}

#[test]
fn foreign_monitor_is_used_once_per_workspace_group() {
    let c = Config { groups: vec![group("main", &["DP-1"]), group("side", &["HDMI-1"])] };
    let w = vec![
        ws("main-0-1", "DP-1", &[1]),
        ws("side-0-1", "DP-1", &[7]),
        ws("side-5-1", "DP-1", &[8, 9]),
        ws("side-0-2", "DP-1", &[10]),
    ];
    let r = reorganize_everything(&c, &w, &names(&["DP-1"])).unwrap();
    assert_eq!(
        render_commands(&r),
        "workspace \"side-0-1\"; move workspace to output \"DP-1\"; rename workspace \"side-0-1\" to \"side-999-1\"; \
[con_id=\"8\"] move container to workspace side-999-1; [con_id=\"9\"] move container to workspace side-999-1; \
workspace \"side-0-2\"; move workspace to output \"DP-1\"; rename workspace \"side-0-2\" to \"side-999-2\""
    );
}

#[test]
fn no_active_monitor_anywhere() {
    let c = Config { groups: vec![group("main", &["DP-1"])] };
    let w = vec![ws("main-0-1", "DP-1", &[1])];
    assert_eq!(reorganize_everything(&c, &w, &names(&[])).unwrap_err(), EngineError::NoActiveMonitor);
    assert!(reorganize_everything(&c, &vec![], &names(&[])).unwrap().is_empty());
}

#[test]
fn foreign_monitor_is_the_first_active_one() {
    let c = Config { groups: vec![group("main", &["DP-1", "DP-2"]), group("side", &["HDMI-1"])] };
    assert_eq!(get_foreign_monitor(&c, &names(&["HDMI-1", "DP-2"])), Some("DP-2".to_string()));
    assert_eq!(get_foreign_monitor(&c, &names(&["HDMI-1"])), Some("HDMI-1".to_string()));
    assert_eq!(get_foreign_monitor(&c, &names(&["VGA"])), None);
}
