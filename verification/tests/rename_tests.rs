use terminalsort::rename::hex_id;
use terminalsort::rename::{any_alive, parse_window_id, title_count_error};

#[test]
fn window_ids_parse_as_hex() {
    assert_eq!(parse_window_id("0x04ef2087"), Some(0x04ef2087));
    assert_eq!(parse_window_id("0X04E8A215"), Some(0x04e8a215));
    assert_eq!(parse_window_id("04ef2087"), Some(0x04ef2087));
    assert_eq!(parse_window_id("0x0x1f"), Some(0x1f));
    assert_eq!(parse_window_id("0x"), None);
    assert_eq!(parse_window_id("0xzz"), None);
    assert_eq!(parse_window_id("0x100000000"), None);
}

#[test]
fn title_counts() {
    assert_eq!(title_count_error(2, 2, false), None);
    assert_eq!(
        title_count_error(2, 1, false),
        Some("Expected 2 title(s) for 2 window(s), got 1".to_string())
    );
    assert_eq!(
        title_count_error(3, 1, true),
        Some("Expected 3 title(s) for 3 window ID(s), got 1".to_string())
    );
}

#[test]
fn pinning_continues_while_alive() {
    assert!(any_alive(&vec![false, true]));
    assert!(!any_alive(&vec![false, false]));
    assert!(!any_alive(&vec![]));
}

#[test]
fn listed_ids_read_back() {
    for id in [0u32, 0x04ef2087, 0x0a0b0c0d, u32::MAX, 0x00000abc] {
        let shown = hex_id(id);
        assert_eq!(shown, format!("{:#010x}", id));
        assert_eq!(parse_window_id(&shown), Some(id));
    }
}
