use terminalsort::layout::{clip_in_range, effective_area, LayoutError};
use terminalsort::tile::tile_layout;
use terminalsort::types::{Monitor, Rect};

fn monitor(x: i16, y: i16, width: u16, height: u16) -> Monitor {
    Monitor { index: 0, name: "DP-1".to_string(), x, y, width, height }
}

#[test]
fn workarea_clips_panel() {
    let mon = monitor(1920, 0, 1920, 1080);
    let workarea = Rect { x: 0, y: 32, width: 3840, height: 1048 };
    assert!(clip_in_range(&mon, &workarea));
    assert_eq!(effective_area(&mon, &workarea), Rect { x: 1920, y: 32, width: 1920, height: 1048 });
}

#[test]
fn disjoint_workarea_gives_empty_area() {
    let mon = monitor(0, 0, 800, 600);
    let workarea = Rect { x: 1000, y: 0, width: 500, height: 600 };
    assert_eq!(effective_area(&mon, &workarea), Rect { x: 1000, y: 0, width: 0, height: 600 });
}

#[test]
fn overflowing_workarea_is_out_of_range() {
    let mon = monitor(0, 0, 800, 600);
    let workarea = Rect { x: i32::MAX, y: 0, width: 10, height: 600 };
    assert!(!clip_in_range(&mon, &workarea));
}

#[test]
fn tile_on_clipped_monitor() {
    let mon = monitor(0, 0, 1920, 1080);
    let workarea = Rect { x: 0, y: 40, width: 1920, height: 1040 };
    let rects = tile_layout("v2", &mon, &workarea, 2).unwrap();
    assert_eq!(rects[0], Rect { x: 0, y: 40, width: 1920, height: 520 });
    assert_eq!(rects[1], Rect { x: 0, y: 560, width: 1920, height: 520 });
}

#[test]
fn tile_reports_layout_errors() {
    let mon = monitor(0, 0, 1920, 1080);
    let workarea = Rect { x: 0, y: 0, width: 1920, height: 1080 };
    let err = tile_layout("h3", &mon, &workarea, 2).unwrap_err();
    assert!(matches!(err, LayoutError::WindowCountMismatch { .. }));
}
