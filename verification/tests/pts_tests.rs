use terminalsort::pts::resolved_every_window;
use terminalsort::pts::{
    find_pid, is_pts_device, match_probes, osc_title_sequence, parse_decimal, parse_ppid,
    probe_pid, probe_title,
};

#[test]
fn parse_ppid_standard() {
    let stat = "1234 (bash) S 5678 1234 1234 0 -1";
    assert_eq!(parse_ppid(stat), Some(5678));
}

#[test]
fn parse_ppid_comm_with_spaces() {
    let stat = "1234 (Web Content) S 5678 1234 1234 0 -1";
    assert_eq!(parse_ppid(stat), Some(5678));
}

#[test]
fn parse_ppid_comm_with_parens() {
    let stat = "1234 (foo (bar)) S 5678 1234 1234 0 -1";
    assert_eq!(parse_ppid(stat), Some(5678));
}

#[test]
fn parse_ppid_empty() {
    assert_eq!(parse_ppid(""), None);
}

#[test]
fn child_pts_filters_non_pts() {
    // This test verifies the filter logic — can't test /proc reads in CI
    // but the parse_ppid tests cover the critical parsing
}

#[test]
fn parse_ppid_rejects_bad_fields() {
    assert_eq!(parse_ppid("1234 (bash) S"), None);
    assert_eq!(parse_ppid("1234 (bash) S -5"), None);
    assert_eq!(parse_ppid("1234 (bash) S 99999999999"), None);
    assert_eq!(parse_ppid("1234 bash S 5678"), None);
    assert_eq!(parse_ppid("1 (x)\tR\n+42 0"), Some(42));
}

#[test]
fn decimal_parsing_follows_std() {
    for s in ["0", "42", "+7", "4294967295", "4294967296", "", "+", "-1", " 1", "1a", "٣"] {
        assert_eq!(parse_decimal(s), s.parse::<u32>().ok(), "input {s:?}");
    }
}

#[test]
fn pts_device_paths() {
    assert!(is_pts_device("/dev/pts/3"));
    assert!(!is_pts_device("/dev/tty1"));
    assert!(!is_pts_device("/dev/pts"));
}

#[test]
fn osc_sequence_wraps_title() {
    assert_eq!(osc_title_sequence("Opus 4.6"), "\x1b]2;Opus 4.6\x07");
}

#[test]
fn probe_titles_round_trip() {
    let t = probe_title(31337);
    assert_eq!(t, "__TERMINALSORT_PROBE_31337");
    assert_eq!(probe_pid(&t), Some(31337));
    assert_eq!(probe_pid("__TERMINALSORT_PROBE_x"), None);
    assert_eq!(probe_pid("bash"), None);
}

#[test]
fn probes_match_children() {
    let titles = vec![
        probe_title(20),
        "vim".to_string(),
        probe_title(10),
        probe_title(99),
    ];
    let pids = vec![10, 20, 10];
    assert_eq!(match_probes(&titles, &pids), vec![Some(1), None, Some(0), None]);
    assert_eq!(find_pid(&pids, 10), Some(0));
    assert_eq!(find_pid(&pids, 7), None);
}

#[test]
fn strategy_one_needs_every_window() {
    assert!(resolved_every_window(&[5, 6], &vec![true, true]));
    assert!(!resolved_every_window(&[5, 6], &vec![true, false]));
    assert!(resolved_every_window(&[], &vec![]));
}

#[test]
fn strategy_one_needs_distinct_windows() {
    assert!(!resolved_every_window(&[5, 6, 5], &vec![true, true, true]));
    assert!(resolved_every_window(&[5, 6, 7], &vec![true, true, true]));
}
