use terminalsort::types::{FrameExtents, Rect};
use terminalsort::x11::{
    frame_extents_from_values, is_terminal_class, outer_geometry,
    window_pid_from_values, wm_class_fields, workarea_from_values,
};

#[test]
fn terminal_classes() {
    assert!(is_terminal_class("Gnome-terminal"));
    assert!(is_terminal_class("kitty"));
    assert!(is_terminal_class("KITTY"));
    assert!(!is_terminal_class("Firefox"));
    assert!(!is_terminal_class(""));
}

#[test]
fn raw_wm_class_values() {
    assert!(is_terminal_class("gnome-terminal-server\0Gnome-terminal\0"));
    assert!(is_terminal_class("kitty\0kitty\0"));
    assert!(!is_terminal_class("Navigator\0firefox\0"));
}

#[test]
fn wm_class_parts() {
    let (i, c) = wm_class_fields(&b"gnome-terminal-server\0Gnome-terminal\0".to_vec());
    assert_eq!(i, b"gnome-terminal-server".to_vec());
    assert_eq!(c, b"Gnome-terminal".to_vec());
    let (i, c) = wm_class_fields(&b"\0\0kitty\0".to_vec());
    assert_eq!(i, b"kitty".to_vec());
    assert_eq!(c, Vec::<u8>::new());
    let (i, c) = wm_class_fields(&Vec::new());
    assert!(i.is_empty() && c.is_empty());
}

#[test]
fn workarea_values() {
    assert_eq!(
        workarea_from_values(&vec![0, 27, 3840, 2133, 0, 27, 3840, 2133], 3840, 2160),
        Rect { x: 0, y: 27, width: 3840, height: 2133 }
    );
    assert_eq!(
        workarea_from_values(&vec![1, 2], 1024, 768),
        Rect { x: 0, y: 0, width: 1024, height: 768 }
    );
}

#[test]
fn frame_extent_values() {
    assert_eq!(
        frame_extents_from_values(&vec![26, 26, 23, 29]),
        FrameExtents { left: 26, right: 26, top: 23, bottom: 29 }
    );
    assert_eq!(
        frame_extents_from_values(&vec![]),
        FrameExtents { left: 0, right: 0, top: 0, bottom: 0 }
    );
}

#[test]
fn outer_geometry_adds_extents() {
    let ext = FrameExtents { left: 26, right: 26, top: 23, bottom: 29 };
    let r = outer_geometry(&Rect { x: 960, y: 0, width: 960, height: 1080 }, &ext);
    assert_eq!(r, Rect { x: 934, y: -23, width: 1012, height: 1132 });
}

#[test]
fn pid_values() {
    assert_eq!(window_pid_from_values(&vec![4242]), Some(4242));
    assert_eq!(window_pid_from_values(&vec![]), None);
}
