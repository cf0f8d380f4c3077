//! What the layouts promise about the cells they produce.
use vstd::prelude::*;

use crate::layout::{
    accepts_count, cells_allocatable, g_row32, g_rows32, ceil_div, error_message, frame_v, g_cell_fits, g_cell_h, g_col, g_fits,
    g_in_row, g_rect, g_rects, g_row, g_short, g_stride, g_width, g_x, g_x_off, g_y, grid_cols,
    grid_rows, h_cell_h, h_cell_w, h_fits, h_rect, h_rects, h_x, is_square,
    layout_fits, layout_kind, layout_outcome, lemma_ceil_div, lemma_div_mod,
    lemma_grid_shape, lemma_mul_div_le, lemma_rows_from_bounds, lemma_rows_from_fewest, max_int, rows_from, sat_sub,
    square, square_root, top_row_y, v_cell_h, v_fits, v_rect, v_rects, v_stride, v_y,
    LayoutError, LayoutKind,
};
use crate::types::{FrameExtents, Rect};

verus! {

/// The area lies in the coordinate range of screen positions: its size and
/// its far edges fit in `i32`.
pub open spec fn on_screen(area: Rect) -> bool {
    &&& area.width <= i32::MAX
    &&& area.height <= i32::MAX
    &&& area.x + area.width <= i32::MAX
    &&& area.y + area.height <= i32::MAX
}

/// The area's width and height fit in `i32`.
pub open spec fn sized(area: Rect) -> bool {
    area.width <= i32::MAX && area.height <= i32::MAX
}

/// Rows of cells a layout uses for `count` windows.
pub open spec fn layout_rows(kind: LayoutKind, count: nat) -> nat {
    match kind {
        LayoutKind::Horizontal(_) => 1,
        LayoutKind::Vertical(n) => n,
        LayoutKind::Grid => grid_rows(count),
    }
}

/// The decorations of every row fit in the area's height, and the rows can
/// be counted in a `u32`, or else a grid's rows do not advance (their
/// numbers wrap in `u32` arithmetic, and only rows of no height keep apart).
pub open spec fn decorations_fit(kind: LayoutKind, area: Rect, count: nat, frame: FrameExtents) -> bool {
    &&& layout_rows(kind, count) <= u32::MAX || (kind matches LayoutKind::Grid && g_stride(
        area,
        count,
        frame,
    ) == 0)
    &&& layout_rows(kind, count) * frame_v(frame) <= area.height
}

/// Past `u32::MAX` rows a grid's row numbers wrap in `u32` arithmetic; the
/// computation stays in range only when the rows do not advance, or advance
/// by one from coordinate zero.
pub open spec fn wrapped_rows_fit(area: Rect, count: nat, frame: FrameExtents) -> bool {
    ||| g_stride(area, count, frame) == 0
    ||| g_stride(area, count, frame) == 1 && top_row_y(area, frame) == 0
}

/// The area, and one more set of decorations per row and one over, stay in
/// the `i32` coordinate range; a grid's cells can be allocated, and its rows
/// counted in a `u32`, or else they wrap harmlessly.
pub open spec fn within_screen(kind: LayoutKind, area: Rect, count: nat, frame: FrameExtents) -> bool {
    let extra = (layout_rows(kind, count) + 1) * frame_v(frame);
    &&& area.width <= i32::MAX
    &&& area.x + area.width <= i32::MAX
    &&& area.height + extra <= i32::MAX
    &&& area.y + area.height + extra <= i32::MAX
    &&& (kind matches LayoutKind::Grid ==> cells_allocatable(count) && (grid_rows(count)
        <= u32::MAX || g_rows32(count) != 0 && wrapped_rows_fit(area, count, frame)))
}

/// The window, with its title bar and bottom border, lies inside the area.
pub open spec fn framed_inside(r: Rect, area: Rect, frame: FrameExtents) -> bool {
    &&& area.x <= r.x
    &&& r.x + r.width <= area.x + area.width
    &&& area.y <= r.y - frame.top
    &&& r.y + r.height + frame.bottom <= area.y + area.height
}

/// Two windows, decorations included, do not overlap.
pub open spec fn framed_disjoint(a: Rect, b: Rect, frame: FrameExtents) -> bool {
    ||| a.x + a.width <= b.x
    ||| b.x + b.width <= a.x
    ||| a.y + a.height + frame.bottom <= b.y - frame.top
    ||| b.y + b.height + frame.bottom <= a.y - frame.top
}

/// The cells lie inside the area with their decorations and no two overlap.
pub open spec fn tiles(cells: Seq<Rect>, area: Rect, frame: FrameExtents) -> bool {
    &&& forall|i: int| 0 <= i < cells.len() ==> framed_inside(#[trigger] cells[i], area, frame)
    &&& forall|i: int, j: int|
        0 <= i < cells.len() && 0 <= j < cells.len() && i != j ==> framed_disjoint(
            #[trigger] cells[i],
            #[trigger] cells[j],
            frame,
        )
}

// ---------------------------------------------------------------------------
// Grid cells
// ---------------------------------------------------------------------------

/// The width one cell of window `i`'s row is given.
pub open spec fn g_unit(area: Rect, count: nat, i: int) -> int {
    if g_short(count, i) {
        (area.width as int) / g_in_row(count, i)
    } else {
        (area.width as int) / (grid_cols(count) as int)
    }
}

/// How far the rows of a grid reach down: the height, or the decorations
/// alone where they do not fit in it.
pub open spec fn g_reach(area: Rect, count: nat, frame: FrameExtents) -> int {
    max_int(area.height as int, grid_rows(count) * frame_v(frame))
}

proof fn lemma_grid_column(area: Rect, count: nat, frame: FrameExtents, i: int)
    requires
        2 <= count,
        area.width <= i32::MAX,
        0 <= i < count,
    ensures
        ({
            let rows = grid_rows(count) as int;
            let cols = grid_cols(count) as int;
            let row = g_row(count, i);
            let col = g_col(count, i);
            let unit = g_unit(area, count, i);
            &&& 0 <= row < rows
            &&& 0 <= col < g_in_row(count, i) <= cols
            &&& i == cols * row + col
            &&& 0 <= unit
            &&& g_x_off(area, count, i) == col * unit
            &&& 0 <= col * unit
            &&& col * unit + unit <= area.width
            &&& (g_short(count, i) && col == g_in_row(count, i) - 1) ==> g_width(area, count, i)
                == area.width - col * unit
            &&& !(g_short(count, i) && col == g_in_row(count, i) - 1) ==> g_width(area, count, i)
                == unit
            &&& g_x(area, count, i) == area.x + col * unit
            &&& g_rect(area, count, frame, i).width == g_width(area, count, i)
        }),
{
    lemma_grid_shape(count);
    let rows = grid_rows(count) as int;
    let cols = grid_cols(count) as int;
    let w = area.width as int;
    lemma_div_mod(i, cols);
    let row = g_row(count, i);
    let col = g_col(count, i);
    assert(row < rows) by (nonlinear_arith)
        requires
            cols * row <= i,
            i < count,
            rows * cols >= count,
            cols >= 1,
    ;
    let wir = g_in_row(count, i);
    assert(col < wir <= cols) by (nonlinear_arith)
        requires
            i == cols * row + col,
            col < cols,
            row < rows,
            i < count,
            rows * cols >= count,
            row == rows - 1 ==> wir == count - row * cols,
            row != rows - 1 ==> wir == cols,
    ;
    let unit = g_unit(area, count, i);
    if g_short(count, i) {
        lemma_mul_div_le(col + 1, wir, w);
        lemma_mul_div_le(col, wir, w);
    } else {
        lemma_mul_div_le(col + 1, cols, w);
        lemma_mul_div_le(col, cols, w);
    }
    assert((col + 1) * unit == col * unit + unit) by (nonlinear_arith);
}

proof fn lemma_grid_cell(area: Rect, count: nat, frame: FrameExtents, i: int)
    requires
        2 <= count,
        grid_rows(count) <= u32::MAX,
        area.width <= i32::MAX,
        frame_v(frame) <= i32::MAX,
        g_reach(area, count, frame) <= i32::MAX,
        0 <= i < count,
    ensures
        ({
            let rows = grid_rows(count) as int;
            let cols = grid_cols(count) as int;
            let row = g_row(count, i);
            let col = g_col(count, i);
            let st = g_stride(area, count, frame);
            let unit = g_unit(area, count, i);
            &&& 0 <= row < rows
            &&& g_rows32(count) == rows
            &&& g_row32(count, i) == row
            &&& 0 <= col < g_in_row(count, i) <= cols
            &&& i == cols * row + col
            &&& 0 <= g_cell_h(area, count, frame)
            &&& 0 <= unit
            &&& g_x_off(area, count, i) == col * unit
            &&& 0 <= col * unit
            &&& col * unit + unit <= area.width
            &&& (g_short(count, i) && col == g_in_row(count, i) - 1) ==> g_width(area, count, i)
                == area.width - col * unit
            &&& !(g_short(count, i) && col == g_in_row(count, i) - 1) ==> g_width(area, count, i)
                == unit
            &&& 0 <= row * st
            &&& row * st + st <= g_reach(area, count, frame)
            &&& rows * frame_v(frame) <= g_reach(area, count, frame)
            &&& st == g_cell_h(area, count, frame) + frame_v(frame)
            &&& g_x(area, count, i) == area.x + col * unit
            &&& g_y(area, count, frame, i) == area.y + frame.top + row * st
            &&& g_rect(area, count, frame, i).width == g_width(area, count, i)
            &&& g_rect(area, count, frame, i).height == g_cell_h(area, count, frame)
        }),
{
    lemma_grid_shape(count);
    lemma_grid_column(area, count, frame, i);
    let rows = grid_rows(count) as int;
    let h = area.height as int;
    let fv = frame_v(frame);
    let ch = g_cell_h(area, count, frame);
    let st = g_stride(area, count, frame);
    let m = g_reach(area, count, frame);
    let row = g_row(count, i);
    // Vertical extent: the rows reach at most the height or their decorations.
    let s = sat_sub(h, rows * fv);
    assert(0 <= rows * fv) by (nonlinear_arith)
        requires
            rows >= 1,
            fv >= 0,
    ;
    assert(s + rows * fv == m);
    assert(0 <= ch && rows * ch <= s) by (nonlinear_arith)
        requires
            ch == s / rows,
            s >= 0,
            rows >= 1,
    {
        assert(s == rows * (s / rows) + s % rows);
    }
    assert(0 <= row * st && row * st + st <= m) by (nonlinear_arith)
        requires
            0 <= row < rows,
            st == ch + fv,
            0 <= ch,
            0 <= fv,
            rows * ch <= s,
            s + rows * fv == m,
    {
        assert(row * st + st == (row + 1) * st);
        assert((row + 1) * st <= rows * st);
        assert(rows * st == rows * ch + rows * fv);
    }
    assert(frame.top <= fv);
}

/// The grid does not overflow when the area and its decorations stay in
/// screen coordinates.
pub proof fn lemma_grid_fits(area: Rect, count: nat, frame: FrameExtents)
    requires
        2 <= count,
        within_screen(LayoutKind::Grid, area, count, frame),
    ensures
        g_fits(area, count, frame),
{
    lemma_grid_shape(count);
    let rows = grid_rows(count) as int;
    let fv = frame_v(frame);
    assert(0 <= fv <= (rows + 1) * fv && rows * fv <= (rows + 1) * fv) by (nonlinear_arith)
        requires
            rows >= 1,
            fv >= 0,
    ;
    assert(top_row_y(area, frame) == area.y + frame.top);
    if rows <= u32::MAX {
        lemma_grid_cell(area, count, frame, 0);
        assert(g_row(count, 0) == 0);
        assert forall|i: int| 0 <= i < count implies #[trigger] g_cell_fits(area, count, frame, i) by {
            lemma_grid_cell(area, count, frame, i);
        }
    } else {
        lemma_grid_wrapped_fits(area, count, frame);
    }
}

/// Past `u32::MAX` rows the decorations are empty, and rows that do not
/// advance, or advance by one from zero, stay in range.
proof fn lemma_grid_wrapped_fits(area: Rect, count: nat, frame: FrameExtents)
    requires
        2 <= count,
        grid_rows(count) > u32::MAX,
        within_screen(LayoutKind::Grid, area, count, frame),
    ensures
        g_fits(area, count, frame),
{
    let rows = grid_rows(count) as int;
    let fv = frame_v(frame);
    assert(fv == 0) by (nonlinear_arith)
        requires
            rows > 0xffff_ffff,
            fv >= 0,
            (rows + 1) * fv <= 0x7fff_ffff,
    ;
    let st = g_stride(area, count, frame);
    assert(wrapped_rows_fit(area, count, frame));
    assert(g_rows32(count) * fv == 0);
    assert(top_row_y(area, frame) == area.y + frame.top);
    assert forall|i: int| 0 <= i < count implies #[trigger] g_cell_fits(area, count, frame, i) by {
        lemma_grid_column(area, count, frame, i);
        let r32 = g_row32(count, i);
        assert(0 <= r32 <= u32::MAX);
        if st == 0 {
            assert(r32 * st == 0);
        } else {
            assert(r32 * st == r32) by (nonlinear_arith)
                requires
                    st == 1,
            ;
        }
    }
}

/// The grid tiles the area: when its computation does not overflow, its
/// rows can be counted in a `u32` (or do not advance), the width and height
/// fit in `i32` and the height holds every row's decorations, every window lies inside the area with its decorations, no
/// two windows overlap, and the last window of a short last row reaches the
/// right edge.
pub proof fn lemma_grid_tiles(area: Rect, count: nat, frame: FrameExtents)
    requires
        2 <= count,
        grid_rows(count) <= u32::MAX || g_stride(area, count, frame) == 0,
        g_fits(area, count, frame),
        sized(area),
        grid_rows(count) * frame_v(frame) <= area.height,
    ensures
        tiles(g_rects(area, count, frame), area, frame),
        forall|i: int|
            0 <= i < count && g_short(count, i) && g_col(count, i) == g_in_row(count, i) - 1 ==> (
            #[trigger] g_rect(area, count, frame, i)).x + g_rect(area, count, frame, i).width
                == area.x + area.width,
{
    if grid_rows(count) <= u32::MAX {
        lemma_grid_tiles_counted(area, count, frame);
    } else {
        lemma_grid_tiles_flat(area, count, frame);
    }
}

/// Rows that do not advance have no height and no decorations: the cells
/// all lie on the area's top edge, side by side or on top of one another
/// with nothing to overlap.
proof fn lemma_grid_tiles_flat(area: Rect, count: nat, frame: FrameExtents)
    requires
        2 <= count,
        g_stride(area, count, frame) == 0,
        g_fits(area, count, frame),
        sized(area),
    ensures
        tiles(g_rects(area, count, frame), area, frame),
        forall|i: int|
            0 <= i < count && g_short(count, i) && g_col(count, i) == g_in_row(count, i) - 1 ==> (
            #[trigger] g_rect(area, count, frame, i)).x + g_rect(area, count, frame, i).width
                == area.x + area.width,
{
    let ch = g_cell_h(area, count, frame);
    let r32 = g_rows32(count);
    let s = sat_sub(area.height as int, r32 * frame_v(frame));
    assert(0 <= ch) by (nonlinear_arith)
        requires
            ch == s / r32,
            s >= 0,
            r32 >= 1,
    ;
    assert(ch == 0 && frame_v(frame) == 0);
    assert(top_row_y(area, frame) == area.y);
    let cells = g_rects(area, count, frame);
    assert forall|i: int| 0 <= i < count implies {
        &&& framed_inside(#[trigger] g_rect(area, count, frame, i), area, frame)
        &&& g_rect(area, count, frame, i).y == area.y
        &&& g_rect(area, count, frame, i).height == 0
        &&& (g_short(count, i) && g_col(count, i) == g_in_row(count, i) - 1 ==> g_rect(
            area,
            count,
            frame,
            i,
        ).x + g_rect(area, count, frame, i).width == area.x + area.width)
    } by {
        lemma_grid_column(area, count, frame, i);
        assert(g_row32(count, i) * 0 == 0);
        assert(g_cell_fits(area, count, frame, i));
    }
    assert forall|i: int| 0 <= i < cells.len() implies framed_inside(
        #[trigger] cells[i],
        area,
        frame,
    ) by {
        assert(cells[i] == g_rect(area, count, frame, i));
    }
    assert forall|i: int, j: int|
        0 <= i < cells.len() && 0 <= j < cells.len() && i != j implies framed_disjoint(
        #[trigger] cells[i],
        #[trigger] cells[j],
        frame,
    ) by {
        assert(cells[i] == g_rect(area, count, frame, i));
        assert(cells[j] == g_rect(area, count, frame, j));
    }
}

proof fn lemma_grid_tiles_counted(area: Rect, count: nat, frame: FrameExtents)
    requires
        2 <= count,
        grid_rows(count) <= u32::MAX,
        g_fits(area, count, frame),
        sized(area),
        grid_rows(count) * frame_v(frame) <= area.height,
    ensures
        tiles(g_rects(area, count, frame), area, frame),
        forall|i: int|
            0 <= i < count && g_short(count, i) && g_col(count, i) == g_in_row(count, i) - 1 ==> (
            #[trigger] g_rect(area, count, frame, i)).x + g_rect(area, count, frame, i).width
                == area.x + area.width,
{
    lemma_grid_shape(count);
    assert(frame_v(frame) <= grid_rows(count) * frame_v(frame)) by (nonlinear_arith)
        requires
            grid_rows(count) >= 1,
            frame_v(frame) >= 0,
    ;
    let cells = g_rects(area, count, frame);
    assert forall|i: int| 0 <= i < count implies {
        &&& framed_inside(#[trigger] g_rect(area, count, frame, i), area, frame)
        &&& g_rect(area, count, frame, i).x == area.x + g_col(count, i) * g_unit(area, count, i)
        &&& g_rect(area, count, frame, i).y == area.y + frame.top + g_row(count, i) * g_stride(
            area,
            count,
            frame,
        )
    } by {
        lemma_grid_cell(area, count, frame, i);
        assert(g_cell_fits(area, count, frame, i));
    }
    assert forall|i: int|
        0 <= i < count && g_short(count, i) && g_col(count, i) == g_in_row(count, i)
            - 1 implies (#[trigger] g_rect(area, count, frame, i)).x + g_rect(
        area,
        count,
        frame,
        i,
    ).width == area.x + area.width by {
        lemma_grid_cell(area, count, frame, i);
        assert(g_cell_fits(area, count, frame, i));
    }
    assert forall|i: int| 0 <= i < cells.len() implies framed_inside(
        #[trigger] cells[i],
        area,
        frame,
    ) by {
        assert(cells[i] == g_rect(area, count, frame, i));
    }
    assert forall|i: int, j: int|
        0 <= i < cells.len() && 0 <= j < cells.len() && i != j implies framed_disjoint(
        #[trigger] cells[i],
        #[trigger] cells[j],
        frame,
    ) by {
        assert(cells[i] == g_rect(area, count, frame, i));
        assert(cells[j] == g_rect(area, count, frame, j));
        lemma_cells_apart(area, count, frame, i, j);
    }
}

proof fn lemma_cells_apart(area: Rect, count: nat, frame: FrameExtents, i: int, j: int)
    requires
        2 <= count,
        grid_rows(count) <= u32::MAX,
        g_fits(area, count, frame),
        sized(area),
        grid_rows(count) * frame_v(frame) <= area.height,
        frame_v(frame) <= area.height,
        0 <= i < count,
        0 <= j < count,
        i != j,
    ensures
        framed_disjoint(g_rect(area, count, frame, i), g_rect(area, count, frame, j), frame),
{
    lemma_grid_cell(area, count, frame, i);
    lemma_grid_cell(area, count, frame, j);
    assert(g_cell_fits(area, count, frame, i));
    assert(g_cell_fits(area, count, frame, j));
    let st = g_stride(area, count, frame);
    let ri = g_row(count, i);
    let rj = g_row(count, j);
    let ci = g_col(count, i);
    let cj = g_col(count, j);
    if ri < rj {
        assert(ri * st + st <= rj * st) by (nonlinear_arith)
            requires
                ri < rj,
                st >= 0,
        ;
    } else if rj < ri {
        assert(rj * st + st <= ri * st) by (nonlinear_arith)
            requires
                rj < ri,
                st >= 0,
        ;
    } else {
        assert(ci != cj);
        let unit = g_unit(area, count, i);
        assert(g_unit(area, count, j) == unit);
        if ci < cj {
            assert(ci * unit + unit <= cj * unit) by (nonlinear_arith)
                requires
                    ci < cj,
                    unit >= 0,
            ;
        } else {
            assert(cj * unit + unit <= ci * unit) by (nonlinear_arith)
                requires
                    cj < ci,
                    unit >= 0,
            ;
        }
    }
}

// ---------------------------------------------------------------------------
// Horizontal and vertical splits
// ---------------------------------------------------------------------------

/// A horizontal split does not overflow when the area and its decorations
/// stay in screen coordinates.
pub proof fn lemma_horizontal_fits(area: Rect, n: nat, frame: FrameExtents)
    requires
        1 <= n,
        within_screen(LayoutKind::Horizontal(n), area, n, frame),
    ensures
        h_fits(area, n, frame),
{
    let cw = h_cell_w(area, n);
    let w = area.width as int;
    assert(frame_v(frame) <= 2 * frame_v(frame));
    assert(top_row_y(area, frame) == area.y + frame.top);
    assert forall|i: int| 0 <= i < n implies i32::MIN <= #[trigger] h_x(area, n, i) <= i32::MAX by {
        lemma_mul_div_le(i, n as int, w);
    }
}

/// A horizontal split tiles one row: when its computation does not
/// overflow, the width and height fit in `i32` and the height holds the
/// decorations, every window lies inside the area with its decorations and
/// spans its height exactly, each window starts where the previous one
/// ends, and no two windows overlap.
pub proof fn lemma_horizontal_tiles(area: Rect, n: nat, frame: FrameExtents)
    requires
        1 <= n,
        h_fits(area, n, frame),
        sized(area),
        frame_v(frame) <= area.height,
    ensures
        tiles(h_rects(area, n, frame), area, frame),
        forall|i: int|
            0 <= i < n ==> (#[trigger] h_rect(area, n, frame, i)).y - frame.top == area.y && h_rect(
                area,
                n,
                frame,
                i,
            ).y + h_rect(area, n, frame, i).height + frame.bottom == area.y + area.height,
        forall|i: int|
            0 <= i && i + 1 < n ==> (#[trigger] h_rect(area, n, frame, i)).x + h_rect(
                area,
                n,
                frame,
                i,
            ).width == h_rect(area, n, frame, i + 1).x,
{
    let cw = h_cell_w(area, n);
    let w = area.width as int;
    let cells = h_rects(area, n, frame);
    assert(0 <= cw) by (nonlinear_arith)
        requires
            cw == w / (n as int),
            w >= 0,
            n >= 1,
    ;
    assert(h_cell_h(area, frame) == area.height - frame_v(frame));
    assert(top_row_y(area, frame) == area.y + frame.top);
    assert forall|i: int| 0 <= i <= n implies 0 <= #[trigger] (i * cw) <= w by {
        lemma_mul_div_le(i, n as int, w);
    }
    assert forall|i: int| 0 <= i < n implies (#[trigger] h_rect(area, n, frame, i)).x == area.x + i
        * cw by {
        assert(0 <= i * cw <= w);
        assert(i32::MIN <= h_x(area, n, i) <= i32::MAX);
    }
    assert forall|i: int| 0 <= i < n implies framed_inside(
        #[trigger] h_rect(area, n, frame, i),
        area,
        frame,
    ) by {
        assert(h_rect(area, n, frame, i).x == area.x + i * cw);
        assert(0 <= (i + 1) * cw <= w);
        assert((i + 1) * cw == i * cw + cw) by (nonlinear_arith);
    }
    assert forall|i: int| 0 <= i && i + 1 < n implies (#[trigger] h_rect(area, n, frame, i)).x
        + h_rect(area, n, frame, i).width == h_rect(area, n, frame, i + 1).x by {
        assert(h_rect(area, n, frame, i).x == area.x + i * cw);
        assert(h_rect(area, n, frame, i + 1).x == area.x + (i + 1) * cw);
        assert((i + 1) * cw == i * cw + cw) by (nonlinear_arith);
    }
    assert forall|i: int| 0 <= i < cells.len() implies framed_inside(
        #[trigger] cells[i],
        area,
        frame,
    ) by {
        assert(cells[i] == h_rect(area, n, frame, i));
    }
    assert forall|i: int, j: int|
        0 <= i < cells.len() && 0 <= j < cells.len() && i != j implies framed_disjoint(
        #[trigger] cells[i],
        #[trigger] cells[j],
        frame,
    ) by {
        assert(cells[i] == h_rect(area, n, frame, i));
        assert(cells[j] == h_rect(area, n, frame, j));
        assert(cells[i].x == area.x + i * cw);
        assert(cells[j].x == area.x + j * cw);
        if i < j {
            assert(i * cw + cw <= j * cw) by (nonlinear_arith)
                requires
                    i < j,
                    cw >= 0,
            ;
        } else {
            assert(j * cw + cw <= i * cw) by (nonlinear_arith)
                requires
                    j < i,
                    cw >= 0,
            ;
        }
    }
}

proof fn lemma_vertical_rows(area: Rect, n: nat, frame: FrameExtents)
    requires
        1 <= n,
    ensures
        ({
            let st = v_stride(area, n, frame);
            let m = max_int(area.height as int, n * frame_v(frame));
            &&& 0 <= v_cell_h(area, n, frame)
            &&& 0 <= n * frame_v(frame) <= m
            &&& st == v_cell_h(area, n, frame) + frame_v(frame)
            &&& forall|i: int| 0 <= i < n ==> 0 <= #[trigger] (i * st) && i * st + st <= m
        }),
{
    let h = area.height as int;
    let fv = frame_v(frame);
    let ch = v_cell_h(area, n, frame);
    let st = v_stride(area, n, frame);
    let nn = n as int;
    let s = sat_sub(h, nn * fv);
    let m = max_int(h, nn * fv);
    assert(0 <= nn * fv) by (nonlinear_arith)
        requires
            nn >= 1,
            fv >= 0,
    ;
    assert(s + nn * fv == m);
    assert(0 <= ch && nn * ch <= s) by (nonlinear_arith)
        requires
            ch == s / nn,
            s >= 0,
            nn >= 1,
    {
        assert(s == nn * (s / nn) + s % nn);
    }
    assert forall|i: int| 0 <= i < n implies 0 <= #[trigger] (i * st) && i * st + st <= m by {
        assert(0 <= i * st && i * st + st <= m) by (nonlinear_arith)
            requires
                0 <= i < nn,
                st == ch + fv,
                0 <= ch,
                0 <= fv,
                nn * ch <= s,
                s + nn * fv == m,
        {
            assert(i * st + st == (i + 1) * st);
            assert((i + 1) * st <= nn * st);
            assert(nn * st == nn * ch + nn * fv);
        }
    }
}

/// A vertical split does not overflow when the area and its decorations
/// stay in screen coordinates.
pub proof fn lemma_vertical_fits(area: Rect, n: nat, frame: FrameExtents)
    requires
        1 <= n,
        within_screen(LayoutKind::Vertical(n), area, n, frame),
    ensures
        v_fits(area, n, frame),
{
    lemma_vertical_rows(area, n, frame);
    let fv = frame_v(frame);
    let st = v_stride(area, n, frame);
    assert(fv <= (n + 1) * fv && n * fv <= (n + 1) * fv) by (nonlinear_arith)
        requires
            fv >= 0,
            n >= 1,
    ;
    assert(0 * st == 0);
    assert(top_row_y(area, frame) == area.y + frame.top);
    assert forall|i: int| 0 <= i < n implies (#[trigger] (i * st)) <= u32::MAX && i32::MIN <= v_y(
        area,
        n,
        frame,
        i,
    ) <= i32::MAX by {}
}

/// A vertical split stacks one column: when its computation does not
/// overflow, the width and height fit in `i32` and the height holds every
/// window's decorations, every window spans the area's width and lies
/// inside it with its decorations, each window's title bar starts right
/// below the previous window's bottom border, and no two windows overlap.
pub proof fn lemma_vertical_stacks(area: Rect, n: nat, frame: FrameExtents)
    requires
        1 <= n,
        v_fits(area, n, frame),
        sized(area),
        n * frame_v(frame) <= area.height,
    ensures
        tiles(v_rects(area, n, frame), area, frame),
        forall|i: int|
            0 <= i < n ==> (#[trigger] v_rect(area, n, frame, i)).x == area.x && v_rect(
                area,
                n,
                frame,
                i,
            ).width == area.width,
        forall|i: int|
            0 <= i && i + 1 < n ==> (#[trigger] v_rect(area, n, frame, i)).y + v_rect(
                area,
                n,
                frame,
                i,
            ).height + frame_v(frame) == v_rect(area, n, frame, i + 1).y,
{
    lemma_vertical_rows(area, n, frame);
    let fv = frame_v(frame);
    let st = v_stride(area, n, frame);
    let cells = v_rects(area, n, frame);
    assert(fv <= n * fv) by (nonlinear_arith)
        requires
            fv >= 0,
            n >= 1,
    ;
    assert(top_row_y(area, frame) == area.y + frame.top);
    assert forall|i: int| 0 <= i < n implies (#[trigger] v_rect(area, n, frame, i)).y == area.y
        + frame.top + i * st by {
        assert(0 <= i * st);
        assert((i * st) <= u32::MAX && i32::MIN <= v_y(area, n, frame, i) <= i32::MAX);
    }
    assert forall|i: int| 0 <= i < n implies framed_inside(
        #[trigger] v_rect(area, n, frame, i),
        area,
        frame,
    ) by {
        assert(0 <= i * st);
        assert(v_rect(area, n, frame, i).y == area.y + frame.top + i * st);
    }
    assert forall|i: int| 0 <= i && i + 1 < n implies (#[trigger] v_rect(area, n, frame, i)).y
        + v_rect(area, n, frame, i).height + frame_v(frame) == v_rect(area, n, frame, i + 1).y by {
        assert(v_rect(area, n, frame, i).y == area.y + frame.top + i * st);
        assert(v_rect(area, n, frame, i + 1).y == area.y + frame.top + (i + 1) * st);
        assert((i + 1) * st == i * st + st) by (nonlinear_arith);
    }
    assert forall|i: int| 0 <= i < cells.len() implies framed_inside(
        #[trigger] cells[i],
        area,
        frame,
    ) by {
        assert(cells[i] == v_rect(area, n, frame, i));
    }
    assert forall|i: int, j: int|
        0 <= i < cells.len() && 0 <= j < cells.len() && i != j implies framed_disjoint(
        #[trigger] cells[i],
        #[trigger] cells[j],
        frame,
    ) by {
        assert(cells[i] == v_rect(area, n, frame, i));
        assert(cells[j] == v_rect(area, n, frame, j));
        assert(cells[i].y == area.y + frame.top + i * st);
        assert(cells[j].y == area.y + frame.top + j * st);
        assert(0 <= i * st && 0 <= j * st);
        if i < j {
            assert(i * st + st <= j * st) by (nonlinear_arith)
                requires
                    i < j,
                    st >= 0,
            ;
        } else {
            assert(j * st + st <= i * st) by (nonlinear_arith)
                requires
                    j < i,
                    st >= 0,
            ;
        }
    }
}

// ---------------------------------------------------------------------------
// Whole layouts
// ---------------------------------------------------------------------------

/// No overflow on screen: when the area, and one more set of decorations
/// per row and one over, stay in `i32` coordinates (and a grid's rows can
/// be counted in a `u32` and its cells allocated), computing the layout
/// meets its precondition.
pub proof fn lemma_layout_no_overflow(name: Seq<char>, area: Rect, count: nat, frame: FrameExtents)
    requires
        layout_kind(name) matches Some(kind) ==> within_screen(kind, area, count, frame),
    ensures
        layout_fits(name, area, count, frame),
{
    match layout_kind(name) {
        Some(LayoutKind::Horizontal(n)) => {
            if count == n {
                lemma_horizontal_fits(area, n, frame);
            }
        },
        Some(LayoutKind::Vertical(n)) => {
            if count == n {
                lemma_vertical_fits(area, n, frame);
            }
        },
        Some(LayoutKind::Grid) => {
            if count >= 2 {
                lemma_grid_fits(area, count, frame);
            }
        },
        None => {},
    }
}

/// Windows never overlap and stay on the monitor: whenever a layout is
/// computed (within its precondition) on an area whose width and height fit
/// in `i32` and whose height holds every row's decorations (and whose grid
/// rows, past `u32::MAX` of them, do not advance), the cells lie inside the
/// area with their decorations and no two overlap.
pub proof fn lemma_layout_tiles(
    name: Seq<char>,
    area: Rect,
    count: nat,
    frame: FrameExtents,
    r: Result<Vec<Rect>, LayoutError>,
)
    requires
        layout_fits(name, area, count, frame),
        layout_outcome(name, area, count, frame, r),
        sized(area),
        layout_kind(name) matches Some(kind) ==> decorations_fit(kind, area, count, frame),
    ensures
        r matches Ok(v) ==> tiles(v@, area, frame),
{
    match layout_kind(name) {
        Some(LayoutKind::Horizontal(n)) => {
            if count == n {
                lemma_horizontal_tiles(area, n, frame);
            }
        },
        Some(LayoutKind::Vertical(n)) => {
            if count == n {
                lemma_vertical_stacks(area, n, frame);
            }
        },
        Some(LayoutKind::Grid) => {
            if count >= 2 {
                lemma_grid_tiles(area, count, frame);
            }
        },
        None => {},
    }
}

/// The area moved by `(dx, dy)`.
pub open spec fn shifted(area: Rect, dx: int, dy: int) -> Rect {
    Rect { x: (area.x + dx) as i32, y: (area.y + dy) as i32, width: area.width, height: area.height }
}

/// Moving the monitor only moves the cells: computing a layout (within its
/// precondition) on an area moved by `(dx, dy)` gives the same outcome, each
/// cell moved by `(dx, dy)` and its size unchanged, or the same error.
pub proof fn lemma_layout_shift(
    name: Seq<char>,
    area: Rect,
    dx: int,
    dy: int,
    count: nat,
    frame: FrameExtents,
    r1: Result<Vec<Rect>, LayoutError>,
    r2: Result<Vec<Rect>, LayoutError>,
)
    requires
        i32::MIN <= area.x + dx <= i32::MAX,
        i32::MIN <= area.y + dy <= i32::MAX,
        layout_fits(name, area, count, frame),
        layout_fits(name, shifted(area, dx, dy), count, frame),
        layout_outcome(name, area, count, frame, r1),
        layout_outcome(name, shifted(area, dx, dy), count, frame, r2),
    ensures
        r1 matches Ok(v1) ==> (r2 matches Ok(v2) && v2@.len() == v1@.len() && forall|i: int|
            0 <= i < v1@.len() ==> #[trigger] v2@[i] == shifted(v1@[i], dx, dy)),
        r1 matches Err(e1) ==> (r2 matches Err(e2) && error_message(e1) == error_message(e2)),
{
    let moved = shifted(area, dx, dy);
    match layout_kind(name) {
        Some(LayoutKind::Horizontal(n)) => {
            if count == n {
                assert forall|i: int| 0 <= i < n implies #[trigger] h_rect(moved, n, frame, i)
                    == shifted(h_rect(area, n, frame, i), dx, dy) by {
                    assert(i32::MIN <= h_x(area, n, i) <= i32::MAX);
                    assert(i32::MIN <= h_x(moved, n, i) <= i32::MAX);
                }
            }
        },
        Some(LayoutKind::Vertical(n)) => {
            if count == n {
                assert forall|i: int| 0 <= i < n implies #[trigger] v_rect(moved, n, frame, i)
                    == shifted(v_rect(area, n, frame, i), dx, dy) by {
                    assert((i * v_stride(area, n, frame)) <= u32::MAX);
                    assert((i * v_stride(moved, n, frame)) <= u32::MAX);
                }
            }
        },
        Some(LayoutKind::Grid) => {
            if count >= 2 {
                assert forall|i: int| 0 <= i < count implies #[trigger] g_rect(moved, count, frame, i)
                    == shifted(g_rect(area, count, frame, i), dx, dy) by {
                    assert(g_cell_fits(area, count, frame, i));
                    assert(g_cell_fits(moved, count, frame, i));
                }
            }
        },
        None => {},
    }
}

/// How the grid is shaped: every window gets a cell; a perfect square gets a
/// square grid; any other count gets at most six columns and the fewest rows
/// (at least two) that allow it.
pub proof fn lemma_grid_shape_rules(count: nat)
    requires
        count >= 2,
    ensures
        grid_rows(count) * grid_cols(count) >= count,
        grid_rows(count) >= 1 && grid_cols(count) >= 1,
        is_square(count) ==> grid_rows(count) == grid_cols(count) && grid_rows(count) * grid_cols(
            count,
        ) == count,
        !is_square(count) ==> {
            &&& 2 <= grid_rows(count)
            &&& grid_cols(count) <= 6
            &&& grid_cols(count) == ceil_div(count as int, grid_rows(count) as int)
            &&& forall|k: int| 2 <= k < grid_rows(count) ==> #[trigger] ceil_div(count as int, k) > 6
        },
{
    lemma_grid_shape(count);
    if is_square(count) {
        let r = square_root(count);
        assert(square(r) == count);
    } else {
        lemma_rows_from_bounds(count, 2);
        lemma_rows_from_fewest(count, 2);
        let rows = grid_rows(count);
        if rows == count && ceil_div(count as int, rows as int) > 6 {
            lemma_ceil_div(count as int, count as int);
            assert((count as int) % (count as int) == 0) by (nonlinear_arith)
                requires
                    count >= 1,
            ;
            assert((count as int) / (count as int) == 1) by (nonlinear_arith)
                requires
                    count >= 1,
            ;
        }
    }
}


/// Where the grid puts each window: with `cols = grid_cols(count)` (see
/// `lemma_grid_shape_rules`), window `i` sits in row `i / cols` and column
/// `i % cols`. Its top is its row's offset
/// below the area's top and title bar, every row as high as the others; its
/// left edge is its column's offset, every cell of a row as wide as the
/// others; and the cells of a short last row share the full width, the last
/// one reaching the right edge. This holds whenever the grid is computed
/// (within its precondition) on an area whose width and height fit in `i32`
/// and whose height holds every row's decorations (and whose rows, past
/// `u32::MAX` of them, do not advance).
pub proof fn lemma_grid_cells(
    name: Seq<char>,
    area: Rect,
    count: nat,
    frame: FrameExtents,
    r: Result<Vec<Rect>, LayoutError>,
)
    requires
        layout_kind(name) == Some(LayoutKind::Grid),
        layout_fits(name, area, count, frame),
        layout_outcome(name, area, count, frame, r),
        sized(area),
        decorations_fit(LayoutKind::Grid, area, count, frame),
    ensures
        r matches Ok(v) ==> forall|i: int|
            0 <= i < count ==> {
                let cols = grid_cols(count) as int;
                &&& (#[trigger] v@[i]).y == area.y + frame.top + (i / cols) * g_stride(
                    area,
                    count,
                    frame,
                )
                &&& v@[i].height == g_cell_h(area, count, frame)
                &&& v@[i].x == area.x + (i % cols) * g_unit(area, count, i)
                &&& (g_short(count, i) && i % cols == g_in_row(count, i) - 1 ==> v@[i].x
                    + v@[i].width == area.x + area.width)
                &&& (!(g_short(count, i) && i % cols == g_in_row(count, i) - 1) ==> v@[i].width
                    == g_unit(area, count, i))
            },
{
    if let Ok(v) = r {
        assert forall|i: int| 0 <= i < count implies {
            let cols = grid_cols(count) as int;
            &&& (#[trigger] v@[i]).y == area.y + frame.top + (i / cols) * g_stride(area, count, frame)
            &&& v@[i].height == g_cell_h(area, count, frame)
            &&& v@[i].x == area.x + (i % cols) * g_unit(area, count, i)
            &&& (g_short(count, i) && i % cols == g_in_row(count, i) - 1 ==> v@[i].x + v@[i].width
                == area.x + area.width)
            &&& (!(g_short(count, i) && i % cols == g_in_row(count, i) - 1) ==> v@[i].width
                == g_unit(area, count, i))
        } by {
            assert(v@ == g_rects(area, count, frame));
            assert(v@[i] == g_rect(area, count, frame, i));
            lemma_grid_cell_placed(area, count, frame, i);
        }
    }
}

proof fn lemma_grid_cell_placed(area: Rect, count: nat, frame: FrameExtents, i: int)
    requires
        2 <= count,
        g_fits(area, count, frame),
        sized(area),
        decorations_fit(LayoutKind::Grid, area, count, frame),
        0 <= i < count,
    ensures
        ({
            let cols = grid_cols(count) as int;
            let c = g_rect(area, count, frame, i);
            &&& c.y == area.y + frame.top + (i / cols) * g_stride(area, count, frame)
            &&& c.height == g_cell_h(area, count, frame)
            &&& c.x == area.x + (i % cols) * g_unit(area, count, i)
            &&& (g_short(count, i) && i % cols == g_in_row(count, i) - 1 ==> c.x + c.width == area.x
                + area.width)
            &&& (!(g_short(count, i) && i % cols == g_in_row(count, i) - 1) ==> c.width == g_unit(
                area,
                count,
                i,
            ))
        }),
{
    assert(g_cell_fits(area, count, frame, i));
    if grid_rows(count) <= u32::MAX {
        lemma_grid_shape(count);
        assert(0 <= frame_v(frame) <= grid_rows(count) * frame_v(frame)) by (nonlinear_arith)
            requires
                grid_rows(count) >= 1,
                frame_v(frame) >= 0,
        ;
        lemma_grid_cell(area, count, frame, i);
    } else {
        lemma_grid_column(area, count, frame, i);
        let ch = g_cell_h(area, count, frame);
        let r32 = g_rows32(count);
        let s = sat_sub(area.height as int, r32 * frame_v(frame));
        assert(0 <= ch) by (nonlinear_arith)
            requires
                ch == s / r32,
                s >= 0,
                r32 >= 1,
        ;
        assert(g_row32(count, i) * 0 == 0);
        assert((i / (grid_cols(count) as int)) * 0 == 0);
    }
}

/// Every window gets exactly one cell: a layout that succeeds gives as many
/// rectangles as windows, and it succeeds exactly when the name is known and
/// the layout takes that many windows.
pub proof fn lemma_one_cell_per_window(
    name: Seq<char>,
    area: Rect,
    count: nat,
    frame: FrameExtents,
    r: Result<Vec<Rect>, LayoutError>,
)
    requires
        layout_outcome(name, area, count, frame, r),
    ensures
        r is Ok <==> (layout_kind(name) matches Some(kind) && accepts_count(kind, count)),
        r matches Ok(v) ==> v@.len() == count,
{
    match layout_kind(name) {
        Some(LayoutKind::Horizontal(n)) => {
            assert(h_rects(area, n, frame).len() == n);
        },
        Some(LayoutKind::Vertical(n)) => {
            assert(v_rects(area, n, frame).len() == n);
        },
        Some(LayoutKind::Grid) => {
            assert(g_rects(area, count, frame).len() == count);
        },
        None => {},
    }
}

} // verus!
