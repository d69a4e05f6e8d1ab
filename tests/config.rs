use mumowrk::config::{Config, MonitorGroup};
use mumowrk::error::EngineError;

fn group(name: &str, monitors: &[&str]) -> MonitorGroup {
    MonitorGroup { name: name.to_string(), monitors: monitors.iter().map(|m| m.to_string()).collect() }
}

fn names(v: &[&str]) -> Vec<String> {
    v.iter().map(|m| m.to_string()).collect()
}

#[test]
fn main_monitor_is_the_first_active_one() {
    let g = group("main", &["DP-1", "DP-2", "DP-3"]);
    assert_eq!(g.get_main_monitor_index(&names(&["DP-3", "DP-2"])), Ok(1));
    assert_eq!(g.get_main_monitor_index(&names(&["DP-1"])), Ok(0));
    assert_eq!(g.get_main_monitor_index(&names(&["HDMI-1"])), Err(EngineError::NoActiveMonitor));
    assert_eq!(g.get_main_monitor_index(&names(&[])), Err(EngineError::NoActiveMonitor));
}

#[test]
fn monitor_slots() {
    let g = group("main", &["DP-1", "DP-2", "DP-1"]);
    assert_eq!(g.get_monitor_index("DP-2"), Some(1));
    assert_eq!(g.get_monitor_index("DP-1"), Some(0));
    assert_eq!(g.get_monitor_index("DP-9"), None);
    assert_eq!(g.get_name(), "main");
}

#[test]
fn groups_by_name_and_primary() {
    let c = Config { groups: vec![group("main", &["DP-1"]), group("side", &["HDMI-1"])] };
    assert_eq!(c.get_primary_group().unwrap().name, "main");
    assert_eq!(c.get_group("side").unwrap().monitors, names(&["HDMI-1"]));
    assert!(c.get_group("none").is_none());
    let empty = Config { groups: vec![] };
    assert_eq!(empty.get_primary_group().unwrap_err(), EngineError::ConfigError);
}
