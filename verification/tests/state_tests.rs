use terminalsort::state::SavedState;

#[test]
fn new_state_is_empty() {
    let s = SavedState::new();
    assert!(s.is_empty());
    assert!(!s.contains_profile("x"));
}

#[test]
fn remember_keeps_first_font() {
    let mut s = SavedState::new();
    assert!(s.remember_original("b1dcc9dd-5262-4d8d-a863-c897e6d979b9", "Monospace 12"));
    assert!(!s.remember_original("b1dcc9dd-5262-4d8d-a863-c897e6d979b9", "Monospace 8"));
    assert_eq!(
        s.original_font("b1dcc9dd-5262-4d8d-a863-c897e6d979b9"),
        Some("Monospace 12".to_string())
    );
    assert!(!s.is_empty());
    assert_eq!(s.profiles().len(), 1);
}

#[test]
fn insert_replaces() {
    let mut s = SavedState::new();
    s.insert("a".to_string(), "Mono 10".to_string());
    s.insert("b".to_string(), "Mono 11".to_string());
    s.insert("a".to_string(), "Mono 12".to_string());
    assert_eq!(s.profiles().len(), 2);
    assert_eq!(s.original_font("a"), Some("Mono 12".to_string()));
    assert_eq!(s.original_font("b"), Some("Mono 11".to_string()));
    assert_eq!(s.original_font("c"), None);
}
