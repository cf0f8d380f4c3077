use terminalsort::layout::{calculate_layout, layout_in_range, LayoutError};
use terminalsort::types::{FrameExtents, Rect};

const NO_FRAME: FrameExtents = FrameExtents { left: 0, right: 0, top: 0, bottom: 0 };

#[test]
fn h2_splits_horizontally() {
    let rects = calculate_layout("h2", 0, 0, 1920, 1080, 2, &NO_FRAME).unwrap();
    assert_eq!(rects.len(), 2);
    assert_eq!(rects[0], Rect { x: 0, y: 0, width: 960, height: 1080 });
    assert_eq!(rects[1], Rect { x: 960, y: 0, width: 960, height: 1080 });
}

#[test]
fn v2_splits_vertically() {
    let rects = calculate_layout("v2", 0, 0, 1920, 1080, 2, &NO_FRAME).unwrap();
    assert_eq!(rects.len(), 2);
    assert_eq!(rects[0], Rect { x: 0, y: 0, width: 1920, height: 540 });
    assert_eq!(rects[1], Rect { x: 0, y: 540, width: 1920, height: 540 });
}

#[test]
fn h3_splits_three_horizontal() {
    let rects = calculate_layout("h3", 0, 0, 1920, 1080, 3, &NO_FRAME).unwrap();
    assert_eq!(rects.len(), 3);
    assert_eq!(rects[0], Rect { x: 0, y: 0, width: 640, height: 1080 });
    assert_eq!(rects[1], Rect { x: 640, y: 0, width: 640, height: 1080 });
    assert_eq!(rects[2], Rect { x: 1280, y: 0, width: 640, height: 1080 });
}

#[test]
fn v3_splits_three_vertical() {
    let rects = calculate_layout("v3", 0, 0, 1920, 1080, 3, &NO_FRAME).unwrap();
    assert_eq!(rects.len(), 3);
    assert_eq!(rects[0], Rect { x: 0, y: 0, width: 1920, height: 360 });
    assert_eq!(rects[1], Rect { x: 0, y: 360, width: 1920, height: 360 });
    assert_eq!(rects[2], Rect { x: 0, y: 720, width: 1920, height: 360 });
}

#[test]
fn grid_4_makes_2x2() {
    let rects = calculate_layout("grid", 0, 0, 1920, 1080, 4, &NO_FRAME).unwrap();
    assert_eq!(rects.len(), 4);
    assert_eq!(rects[0], Rect { x: 0, y: 0, width: 960, height: 540 });
    assert_eq!(rects[1], Rect { x: 960, y: 0, width: 960, height: 540 });
    assert_eq!(rects[2], Rect { x: 0, y: 540, width: 960, height: 540 });
    assert_eq!(rects[3], Rect { x: 960, y: 540, width: 960, height: 540 });
}

#[test]
fn grid_6_makes_2x3() {
    let rects = calculate_layout("grid", 0, 0, 1800, 1000, 6, &NO_FRAME).unwrap();
    assert_eq!(rects.len(), 6);
    // 3 cols, 2 rows -> each cell 600x500
    assert_eq!(rects[0], Rect { x: 0, y: 0, width: 600, height: 500 });
    assert_eq!(rects[5], Rect { x: 1200, y: 500, width: 600, height: 500 });
}

#[test]
fn grid_8_makes_2x4() {
    let rects = calculate_layout("grid", 0, 0, 1920, 1080, 8, &NO_FRAME).unwrap();
    assert_eq!(rects.len(), 8);
    // 2 rows, 4 cols -> each cell 480x540
    assert_eq!(rects[0], Rect { x: 0, y: 0, width: 480, height: 540 });
    assert_eq!(rects[3], Rect { x: 1440, y: 0, width: 480, height: 540 });
    assert_eq!(rects[4], Rect { x: 0, y: 540, width: 480, height: 540 });
    assert_eq!(rects[7], Rect { x: 1440, y: 540, width: 480, height: 540 });
}

#[test]
fn grid_with_monitor_offset() {
    let rects = calculate_layout("grid", 1920, 0, 1920, 1080, 4, &NO_FRAME).unwrap();
    assert_eq!(rects[0], Rect { x: 1920, y: 0, width: 960, height: 540 });
    assert_eq!(rects[3], Rect { x: 2880, y: 540, width: 960, height: 540 });
}

#[test]
fn grid_with_frame_extents() {
    // 37px title bar like kitty on a typical WM
    let frame = FrameExtents { left: 0, right: 0, top: 37, bottom: 0 };
    let rects = calculate_layout("grid", 0, 0, 1920, 1080, 4, &frame).unwrap();
    assert_eq!(rects.len(), 4);
    // 2 rows, 2 cols: cell_h = (1080 - 2*37) / 2 = 503
    assert_eq!(rects[0], Rect { x: 0, y: 37, width: 960, height: 503 });
    assert_eq!(rects[1], Rect { x: 960, y: 37, width: 960, height: 503 });
    // Row 1: y = 37 + 1*(503+37) = 577
    assert_eq!(rects[2], Rect { x: 0, y: 577, width: 960, height: 503 });
    assert_eq!(rects[3], Rect { x: 960, y: 577, width: 960, height: 503 });
}

#[test]
fn v2_with_frame_extents() {
    let frame = FrameExtents { left: 0, right: 0, top: 37, bottom: 0 };
    let rects = calculate_layout("v2", 0, 0, 1920, 1080, 2, &frame).unwrap();
    assert_eq!(rects.len(), 2);
    // cell_h = (1080 - 2*37) / 2 = 503
    assert_eq!(rects[0], Rect { x: 0, y: 37, width: 1920, height: 503 });
    assert_eq!(rects[1], Rect { x: 0, y: 577, width: 1920, height: 503 });
}

#[test]
fn h2_wrong_count_errors() {
    let err = calculate_layout("h2", 0, 0, 1920, 1080, 3, &NO_FRAME).unwrap_err();
    assert!(matches!(err, LayoutError::WindowCountMismatch { .. }));
}

#[test]
fn grid_needs_at_least_2() {
    let err = calculate_layout("grid", 0, 0, 1920, 1080, 1, &NO_FRAME).unwrap_err();
    assert!(matches!(err, LayoutError::WindowCountMismatch { .. }));
}

#[test]
fn unknown_layout_errors() {
    let err = calculate_layout("potato", 0, 0, 1920, 1080, 2, &NO_FRAME).unwrap_err();
    assert!(matches!(err, LayoutError::UnknownLayout(_)));
}

#[test]
fn grid_9_makes_3x3() {
    let rects = calculate_layout("grid", 0, 0, 1800, 900, 9, &NO_FRAME).unwrap();
    assert_eq!(rects.len(), 9);
    assert_eq!(rects[0], Rect { x: 0, y: 0, width: 600, height: 300 });
    assert_eq!(rects[4], Rect { x: 600, y: 300, width: 600, height: 300 });
    assert_eq!(rects[8], Rect { x: 1200, y: 600, width: 600, height: 300 });
}

#[test]
fn grid_10_makes_2x5() {
    let rects = calculate_layout("grid", 0, 0, 2000, 1000, 10, &NO_FRAME).unwrap();
    assert_eq!(rects.len(), 10);
    assert_eq!(rects[4], Rect { x: 1600, y: 0, width: 400, height: 500 });
    assert_eq!(rects[5], Rect { x: 0, y: 500, width: 400, height: 500 });
}

#[test]
fn grid_3_stretches_short_last_row() {
    // 3 windows: 2 rows x 2 cols, the single window of the last row spans the width
    let rects = calculate_layout("grid", 0, 0, 1921, 1080, 3, &NO_FRAME).unwrap();
    assert_eq!(rects.len(), 3);
    assert_eq!(rects[0], Rect { x: 0, y: 0, width: 960, height: 540 });
    assert_eq!(rects[1], Rect { x: 960, y: 0, width: 960, height: 540 });
    assert_eq!(rects[2], Rect { x: 0, y: 540, width: 1921, height: 540 });
}

#[test]
fn grid_5_last_cell_takes_remainder() {
    // 5 windows: 2 rows x 3 cols; the last row holds 2 windows sharing 1000 px
    let rects = calculate_layout("grid", 10, 20, 1001, 600, 5, &NO_FRAME).unwrap();
    assert_eq!(rects[3], Rect { x: 10, y: 320, width: 500, height: 300 });
    assert_eq!(rects[4], Rect { x: 510, y: 320, width: 501, height: 300 });
}

#[test]
fn grid_13_caps_columns_at_6() {
    // 13 windows: 2 rows would need 7 columns, so 3 rows x 5 columns
    let rects = calculate_layout("grid", 0, 0, 1500, 900, 13, &NO_FRAME).unwrap();
    assert_eq!(rects.len(), 13);
    assert_eq!(rects[5], Rect { x: 0, y: 300, width: 300, height: 300 });
    assert_eq!(rects[12], Rect { x: 1000, y: 600, width: 500, height: 300 });
}

#[test]
fn h3_with_frame_and_odd_width() {
    let frame = FrameExtents { left: 0, right: 0, top: 30, bottom: 10 };
    let rects = calculate_layout("h3", 5, 7, 1000, 800, 3, &frame).unwrap();
    assert_eq!(rects[0], Rect { x: 5, y: 37, width: 333, height: 760 });
    assert_eq!(rects[2], Rect { x: 671, y: 37, width: 333, height: 760 });
}

#[test]
fn v3_with_frame() {
    let frame = FrameExtents { left: 0, right: 0, top: 20, bottom: 4 };
    let rects = calculate_layout("v3", 0, 100, 800, 900, 3, &frame).unwrap();
    // cell_h = (900 - 3*24) / 3 = 276, stride 300
    assert_eq!(rects[0], Rect { x: 0, y: 120, width: 800, height: 276 });
    assert_eq!(rects[1], Rect { x: 0, y: 420, width: 800, height: 276 });
    assert_eq!(rects[2], Rect { x: 0, y: 720, width: 800, height: 276 });
}

#[test]
fn frames_taller_than_monitor_give_zero_height() {
    let frame = FrameExtents { left: 0, right: 0, top: 600, bottom: 600 };
    let rects = calculate_layout("h2", 0, 0, 100, 1000, 2, &frame).unwrap();
    assert_eq!(rects[0], Rect { x: 0, y: 600, width: 50, height: 0 });
}

#[test]
fn mismatch_error_fields_and_message() {
    let err = calculate_layout("v3", 0, 0, 1920, 1080, 5, &NO_FRAME).unwrap_err();
    match &err {
        LayoutError::WindowCountMismatch { layout, expected, got } => {
            assert_eq!(layout, "v3");
            assert_eq!(expected, "exactly 3");
            assert_eq!(*got, 5);
        }
        _ => panic!("expected a count mismatch"),
    }
    assert_eq!(
        err.message(),
        "Layout 'v3' requires exactly 3 windows, but 5 were selected. Try 'grid' for 5 windows."
    );
}

#[test]
fn grid_mismatch_message() {
    let err = calculate_layout("grid", 0, 0, 1920, 1080, 0, &NO_FRAME).unwrap_err();
    assert_eq!(
        err.message(),
        "Layout 'grid' requires at least 2 windows, but 0 were selected. Try 'grid' for 0 windows."
    );
}

#[test]
fn unknown_layout_message() {
    let err = calculate_layout("H2", 0, 0, 1920, 1080, 2, &NO_FRAME).unwrap_err();
    match &err {
        LayoutError::UnknownLayout(name) => assert_eq!(name, "H2"),
        _ => panic!("expected an unknown layout"),
    }
    assert_eq!(err.message(), "Unknown layout 'H2'. Available: h2, v2, h3, v3, grid");
}

#[test]
fn layout_in_range_accepts_ordinary_monitors() {
    let area = Rect { x: 1920, y: 32, width: 1920, height: 1048 };
    let frame = FrameExtents { left: 0, right: 0, top: 37, bottom: 0 };
    assert!(layout_in_range("h2", &area, 2, &frame));
    assert!(layout_in_range("v3", &area, 3, &frame));
    assert!(layout_in_range("grid", &area, 9, &frame));
    // A count that the layout refuses is answered before any arithmetic.
    assert!(layout_in_range("h2", &Rect { x: i32::MAX, y: 0, width: 100, height: 100 }, 3, &frame));
    assert!(layout_in_range("spiral", &area, 4, &frame));
}

#[test]
fn layout_in_range_refuses_overflow() {
    let frame = FrameExtents { left: 0, right: 0, top: 0, bottom: 0 };
    let area = Rect { x: i32::MAX - 10, y: 0, width: 100, height: 100 };
    assert!(!layout_in_range("h2", &area, 2, &frame));
    let tall = Rect { x: 0, y: i32::MAX - 10, width: 100, height: 100 };
    assert!(!layout_in_range("v2", &tall, 2, &frame));
    // More cells than can be allocated.
    let area = Rect { x: 0, y: 0, width: 1920, height: 1080 };
    assert!(!layout_in_range("grid", &area, usize::MAX, &frame));
}
