use terminalsort::picker::{pick_mode, PickMode};
use terminalsort::picker::{cancels_picking, pick_prompt, Picker, Verdict};
use terminalsort::types::TerminalWindow;

#[test]
fn prompts() {
    assert_eq!(pick_prompt(1), "Click on 1 terminal window to select it (Escape to cancel)");
    assert_eq!(pick_prompt(3), "Click on 3 terminal windows to select them (Escape to cancel)");
}

#[test]
fn escape_cancels() {
    assert!(cancels_picking(9));
    assert!(!cancels_picking(36));
}

#[test]
fn picking_flow() {
    let mut p = Picker::new(2);
    assert!(!p.is_done());
    assert_eq!(p.judge(7, "firefox\0Firefox\0"), Verdict::NotTerminal);
    assert_eq!(p.judge(7, "gnome-terminal-server\0Gnome-terminal\0"), Verdict::Accept);
    p.select(TerminalWindow { id: 7, title: "a".to_string() });
    assert_eq!(p.judge(7, "gnome-terminal-server\0Gnome-terminal\0"), Verdict::AlreadySelected);
    assert_eq!(p.judge(8, "kitty\0kitty\0"), Verdict::Accept);
    p.select(TerminalWindow { id: 8, title: String::new() });
    assert!(p.is_done());
    assert_eq!(p.picked_count(), 2);
    let ws = p.into_selected();
    assert_eq!(ws[0].id, 7);
    assert_eq!(ws[1].display_title(), "(untitled)");
    assert_eq!(ws[0].display_title(), "a");
}

#[test]
fn pick_arguments() {
    assert_eq!(pick_mode("*"), Some(PickMode::All));
    assert_eq!(pick_mode("8"), Some(PickMode::Count(8)));
    assert_eq!(pick_mode("+2"), Some(PickMode::Count(2)));
    assert_eq!(pick_mode("**"), None);
    assert_eq!(pick_mode("two"), None);
    assert_eq!(pick_mode(""), None);
    assert_eq!(pick_mode("99999999999999999999"), None);
}
