use terminalsort::layout::calculate_layout;
use terminalsort::types::{FrameExtents, Rect};

fn inside(r: &Rect, x: i32, y: i32, w: u32, h: u32, f: &FrameExtents) -> bool {
    let (rx, ry, rw, rh) = (r.x as i64, r.y as i64, r.width as i64, r.height as i64);
    x as i64 <= rx
        && rx + rw <= x as i64 + w as i64
        && y as i64 <= ry - f.top as i64
        && ry + rh + f.bottom as i64 <= y as i64 + h as i64
}

fn apart(a: &Rect, b: &Rect, f: &FrameExtents) -> bool {
    let (ax, ay, aw, ah) = (a.x as i64, a.y as i64, a.width as i64, a.height as i64);
    let (bx, by, bw, bh) = (b.x as i64, b.y as i64, b.width as i64, b.height as i64);
    ax + aw <= bx
        || bx + bw <= ax
        || ay + ah + f.bottom as i64 <= by - f.top as i64
        || by + bh + f.bottom as i64 <= ay - f.top as i64
}

#[test]
fn grid_cells_tile_without_overlap() {
    let frame = FrameExtents { left: 0, right: 0, top: 23, bottom: 5 };
    for count in 2..=40usize {
        let (x, y, w, h) = (-1280, 200, 2561, 1437);
        let rects = calculate_layout("grid", x, y, w, h, count, &frame).unwrap();
        assert_eq!(rects.len(), count);
        for (i, a) in rects.iter().enumerate() {
            assert!(inside(a, x, y, w, h, &frame), "count {count} cell {i}");
            for (j, b) in rects.iter().enumerate() {
                if i != j {
                    assert!(apart(a, b, &frame), "count {count} cells {i} {j}");
                }
            }
        }
    }
}

#[test]
fn grid_shape_prefers_few_rows() {
    for count in 2..=60usize {
        let rects = calculate_layout("grid", 0, 0, 3600, 3600, count, &FrameExtents {
            left: 0,
            right: 0,
            top: 0,
            bottom: 0,
        })
        .unwrap();
        let mut rows: Vec<i32> = rects.iter().map(|r| r.y).collect();
        rows.dedup();
        let per_row = rects.iter().filter(|r| r.y == rects[0].y).count();
        let root = (count as f64).sqrt().round() as usize;
        if root * root == count {
            assert_eq!((rows.len(), per_row), (root, root), "count {count}");
        } else {
            assert!(per_row <= 6, "count {count}");
            let fewest = (2..=count).find(|r| count.div_ceil(*r) <= 6).unwrap();
            assert_eq!(rows.len(), fewest, "count {count}");
        }
    }
}

#[test]
fn short_last_row_spans_width() {
    let rects = calculate_layout("grid", 100, 0, 1003, 900, 7, &FrameExtents {
        left: 0,
        right: 0,
        top: 0,
        bottom: 0,
    })
    .unwrap();
    let last = rects.last().unwrap();
    assert_eq!(last.x as i64 + last.width as i64, 100 + 1003);
}

#[test]
fn horizontal_cells_are_adjacent() {
    let frame = FrameExtents { left: 0, right: 0, top: 30, bottom: 8 };
    let rects = calculate_layout("h3", 50, 10, 1900, 1000, 3, &frame).unwrap();
    for k in 0..2 {
        assert_eq!(rects[k].x + rects[k].width as i32, rects[k + 1].x);
    }
    for r in &rects {
        assert_eq!(r.y - 30, 10);
        assert_eq!(r.y + r.height as i32 + 8, 1010);
    }
}

#[test]
fn vertical_cells_stack() {
    let frame = FrameExtents { left: 0, right: 0, top: 30, bottom: 8 };
    let rects = calculate_layout("v3", 50, 10, 1900, 1000, 3, &frame).unwrap();
    for k in 0..2 {
        assert_eq!(rects[k].y + rects[k].height as i32 + 38, rects[k + 1].y);
    }
    for r in &rects {
        assert!(inside(r, 50, 10, 1900, 1000, &frame));
    }
}

#[test]
fn moving_the_monitor_moves_the_cells() {
    let frame = FrameExtents { left: 0, right: 0, top: 12, bottom: 3 };
    for (name, count) in [("h2", 2usize), ("v3", 3), ("grid", 7), ("grid", 9)] {
        let a = calculate_layout(name, 0, 0, 1999, 1201, count, &frame).unwrap();
        let b = calculate_layout(name, -3000, 250, 1999, 1201, count, &frame).unwrap();
        assert_eq!(a.len(), b.len());
        for (p, q) in a.iter().zip(b.iter()) {
            assert_eq!(Rect { x: p.x - 3000, y: p.y + 250, width: p.width, height: p.height }, *q);
        }
    }
    let e1 = calculate_layout("h2", 0, 0, 10, 10, 3, &frame).unwrap_err();
    let e2 = calculate_layout("h2", 7, 7, 10, 10, 3, &frame).unwrap_err();
    assert_eq!(e1.message(), e2.message());
}

#[test]
fn wide_area_offsets_wrap() {
    // a width past i32::MAX makes the third cell's offset wrap negative:
    // the tiling law excludes such areas
    let rects = calculate_layout("h3", 0, 0, 4_000_000_000, 100, 3, &FrameExtents {
        left: 0,
        right: 0,
        top: 0,
        bottom: 0,
    })
    .unwrap();
    assert!(rects[2].x < 0);
}
