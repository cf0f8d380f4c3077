use terminalsort::monitor::{select_monitor, unnamed_monitor};
use terminalsort::types::Monitor;

fn monitors() -> Vec<Monitor> {
    vec![
        Monitor { index: 0, name: "eDP-1".to_string(), x: 0, y: 0, width: 1920, height: 1080 },
        Monitor { index: 1, name: "DP-2".to_string(), x: 1920, y: 0, width: 2560, height: 1440 },
    ]
}

#[test]
fn selects_monitor_by_index() {
    let m = select_monitor(monitors(), 1).unwrap();
    assert_eq!(m.name, "DP-2");
    assert_eq!(m.x, 1920);
}

#[test]
fn missing_monitor_lists_available() {
    let err = select_monitor(monitors(), 5).unwrap_err();
    assert_eq!(
        err,
        "Monitor 5 not found. Available monitors:\n  0: eDP-1 (1920x1080)\n  1: DP-2 (2560x1440)"
    );
    assert_eq!(select_monitor(Vec::new(), 0).unwrap_err(), "Monitor 0 not found. Available monitors:\n");
}

#[test]
fn unnamed_monitors() {
    assert_eq!(unnamed_monitor(3), "Monitor 3");
}

#[test]
fn first_monitor_with_index_wins() {
    let mut ms = monitors();
    ms[1].index = 0;
    assert_eq!(select_monitor(ms, 0).unwrap().name, "eDP-1");
}
