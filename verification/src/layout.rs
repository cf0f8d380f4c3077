use vstd::prelude::*;

use crate::text::{decimal, push_decimal, str_eq};
use crate::types::{FrameExtents, Monitor, Rect};

verus! {

/// Why a layout cannot be computed.
#[derive(Debug)]
pub enum LayoutError {
    /// The layout name is not one of `h2`, `v2`, `h3`, `v3`, `grid`.
    UnknownLayout(String),
    /// The layout does not take this many windows.
    WindowCountMismatch { layout: String, expected: String, got: usize },
}

/// The layouts, as named on the command line.
pub enum LayoutKind {
    /// `n` windows side by side in one row.
    Horizontal(nat),
    /// `n` windows stacked in one column.
    Vertical(nat),
    /// An automatic grid of two or more windows.
    Grid,
}

/// The layout a name selects, if any.
pub open spec fn layout_kind(name: Seq<char>) -> Option<LayoutKind> {
    if name == "h2"@ {
        Some(LayoutKind::Horizontal(2))
    } else if name == "v2"@ {
        Some(LayoutKind::Vertical(2))
    } else if name == "h3"@ {
        Some(LayoutKind::Horizontal(3))
    } else if name == "v3"@ {
        Some(LayoutKind::Vertical(3))
    } else if name == "grid"@ {
        Some(LayoutKind::Grid)
    } else {
        None
    }
}

/// Whether a layout takes `count` windows.
pub open spec fn accepts_count(kind: LayoutKind, count: nat) -> bool {
    match kind {
        LayoutKind::Horizontal(n) => count == n,
        LayoutKind::Vertical(n) => count == n,
        LayoutKind::Grid => count >= 2,
    }
}

/// The layout name reported when the window count does not fit.
pub open spec fn mismatch_layout(kind: LayoutKind) -> Seq<char> {
    match kind {
        LayoutKind::Horizontal(n) => "h"@ + decimal(n),
        LayoutKind::Vertical(n) => "v"@ + decimal(n),
        LayoutKind::Grid => "grid"@,
    }
}

/// The window count a layout asks for, as reported when it does not fit.
pub open spec fn mismatch_expected(kind: LayoutKind) -> Seq<char> {
    match kind {
        LayoutKind::Horizontal(n) => "exactly "@ + decimal(n),
        LayoutKind::Vertical(n) => "exactly "@ + decimal(n),
        LayoutKind::Grid => "at least 2"@,
    }
}

// ---------------------------------------------------------------------------
// Shared arithmetic
// ---------------------------------------------------------------------------

/// Total vertical decoration of one window: title bar plus bottom border.
pub open spec fn frame_v(frame: FrameExtents) -> int {
    frame.top + frame.bottom
}

/// `a - b`, or 0 where that would be negative (`u32::saturating_sub`).
pub open spec fn sat_sub(a: int, b: int) -> int {
    if a >= b {
        a - b
    } else {
        0
    }
}

/// `a / b` rounded up (`usize::div_ceil`), for `b > 0`.
pub open spec fn ceil_div(a: int, b: int) -> int {
    if a % b == 0 {
        a / b
    } else {
        a / b + 1
    }
}

/// The y coordinate of the first row: the monitor's top plus the title bar,
/// as the title bar height converts to `i32`.
pub open spec fn top_row_y(area: Rect, frame: FrameExtents) -> int {
    area.y + (frame.top as i32)
}

// ---------------------------------------------------------------------------
// Horizontal split: one row of `n` equal cells
// ---------------------------------------------------------------------------

/// Width of each cell of a horizontal split (the remainder is left unused).
pub open spec fn h_cell_w(area: Rect, n: nat) -> int {
    (area.width as int) / (n as int)
}

/// Height of each cell of a horizontal split: the monitor less one row of decorations.
pub open spec fn h_cell_h(area: Rect, frame: FrameExtents) -> int {
    sat_sub(area.height as int, frame_v(frame))
}

/// The exact x of cell `i` before it is stored as `i32`; the offset
/// `i * cell_w` converts to `i32` as it does in the computation.
pub open spec fn h_x(area: Rect, n: nat, i: int) -> int {
    area.x + ((i * h_cell_w(area, n)) as i32)
}

/// Cell `i` of a horizontal split.
pub open spec fn h_rect(area: Rect, n: nat, frame: FrameExtents, i: int) -> Rect {
    Rect {
        x: h_x(area, n, i) as i32,
        y: top_row_y(area, frame) as i32,
        width: h_cell_w(area, n) as u32,
        height: h_cell_h(area, frame) as u32,
    }
}

/// The horizontal split computes without overflow.
pub open spec fn h_fits(area: Rect, n: nat, frame: FrameExtents) -> bool {
    &&& frame_v(frame) <= u32::MAX
    &&& i32::MIN <= top_row_y(area, frame) <= i32::MAX
    &&& forall|i: int| 0 <= i < n ==> i32::MIN <= #[trigger] h_x(area, n, i) <= i32::MAX
}

/// The cells of a horizontal split, left to right.
pub open spec fn h_rects(area: Rect, n: nat, frame: FrameExtents) -> Seq<Rect> {
    Seq::new(n, |i: int| h_rect(area, n, frame, i))
}

// ---------------------------------------------------------------------------
// Vertical split: one column of `n` equal cells
// ---------------------------------------------------------------------------

/// Height of each cell of a vertical split: the monitor less every row's
/// decorations, shared equally.
pub open spec fn v_cell_h(area: Rect, n: nat, frame: FrameExtents) -> int {
    sat_sub(area.height as int, n * frame_v(frame)) / (n as int)
}

/// Distance from one cell's top to the next: cell plus decorations.
pub open spec fn v_stride(area: Rect, n: nat, frame: FrameExtents) -> int {
    v_cell_h(area, n, frame) + frame_v(frame)
}

/// The exact y of cell `i` before it is stored as `i32`.
pub open spec fn v_y(area: Rect, n: nat, frame: FrameExtents, i: int) -> int {
    top_row_y(area, frame) + ((i * v_stride(area, n, frame)) as i32)
}

/// Cell `i` of a vertical split.
pub open spec fn v_rect(area: Rect, n: nat, frame: FrameExtents, i: int) -> Rect {
    Rect {
        x: area.x,
        y: v_y(area, n, frame, i) as i32,
        width: area.width,
        height: v_cell_h(area, n, frame) as u32,
    }
}

/// The vertical split computes without overflow.
pub open spec fn v_fits(area: Rect, n: nat, frame: FrameExtents) -> bool {
    &&& frame_v(frame) <= u32::MAX
    &&& n * frame_v(frame) <= u32::MAX
    &&& v_stride(area, n, frame) <= u32::MAX
    &&& i32::MIN <= top_row_y(area, frame) <= i32::MAX
    &&& forall|i: int|
        0 <= i < n ==> (#[trigger] (i * v_stride(area, n, frame))) <= u32::MAX && i32::MIN
            <= v_y(area, n, frame, i) <= i32::MAX
}

/// The cells of a vertical split, top to bottom.
pub open spec fn v_rects(area: Rect, n: nat, frame: FrameExtents) -> Seq<Rect> {
    Seq::new(n, |i: int| v_rect(area, n, frame, i))
}


// ---------------------------------------------------------------------------
// Grid
// ---------------------------------------------------------------------------

/// `r` squared.
pub open spec fn square(r: nat) -> nat {
    r * r
}

/// `count` is the square of a natural number.
pub open spec fn is_square(count: nat) -> bool {
    exists|r: nat| #[trigger] square(r) == count
}

/// The square root of a perfect square.
pub open spec fn square_root(count: nat) -> nat {
    choose|r: nat| #[trigger] square(r) == count
}

/// Starting from `r` rows, add rows while a row would hold more than six
/// windows, but never more rows than windows.
pub open spec fn rows_from(count: nat, r: nat) -> nat
    decreases count - r,
{
    if ceil_div(count as int, r as int) > 6 && r < count {
        rows_from(count, r + 1)
    } else {
        r
    }
}

/// Rows of the grid: square grids for perfect squares, otherwise the fewest
/// rows (at least two) that keep rows at six windows or fewer.
pub open spec fn grid_rows(count: nat) -> nat {
    if is_square(count) {
        square_root(count)
    } else {
        rows_from(count, 2)
    }
}

/// Columns of the grid.
pub open spec fn grid_cols(count: nat) -> nat {
    if is_square(count) {
        square_root(count)
    } else {
        ceil_div(count as int, grid_rows(count) as int) as nat
    }
}

/// The number of rows as the computation holds it in a `u32` (it wraps past
/// `u32::MAX`).
pub open spec fn g_rows32(count: nat) -> int {
    (grid_rows(count) as u32) as int
}

/// Height of each grid cell: the monitor less every row's decorations, shared equally.
pub open spec fn g_cell_h(area: Rect, count: nat, frame: FrameExtents) -> int {
    sat_sub(area.height as int, g_rows32(count) * frame_v(frame)) / g_rows32(count)
}

/// Distance from one grid row's top to the next.
pub open spec fn g_stride(area: Rect, count: nat, frame: FrameExtents) -> int {
    g_cell_h(area, count, frame) + frame_v(frame)
}

/// Width of a cell in a full row.
pub open spec fn g_cell_w(area: Rect, count: nat) -> int {
    (area.width as int) / (grid_cols(count) as int)
}

/// Row of window `i` (windows fill rows left to right, top to bottom).
pub open spec fn g_row(count: nat, i: int) -> int {
    i / (grid_cols(count) as int)
}

/// Row of window `i` as the computation holds it in a `u32`.
pub open spec fn g_row32(count: nat, i: int) -> int {
    (g_row(count, i) as u32) as int
}

/// Column of window `i`.
pub open spec fn g_col(count: nat, i: int) -> int {
    i % (grid_cols(count) as int)
}

/// Number of windows in the row of window `i`: the last row may be short.
pub open spec fn g_in_row(count: nat, i: int) -> int {
    if g_row(count, i) == grid_rows(count) - 1 {
        count - g_row(count, i) * grid_cols(count)
    } else {
        grid_cols(count) as int
    }
}

/// Whether window `i` sits in a short last row, whose cells share the full width.
pub open spec fn g_short(count: nat, i: int) -> bool {
    g_in_row(count, i) < grid_cols(count)
}

/// Width of window `i`; in a short row the last cell takes what division left over.
pub open spec fn g_width(area: Rect, count: nat, i: int) -> int {
    if g_short(count, i) && g_col(count, i) == g_in_row(count, i) - 1 {
        area.width - g_col(count, i) * ((area.width as int) / g_in_row(count, i))
    } else if g_short(count, i) {
        (area.width as int) / g_in_row(count, i)
    } else {
        g_cell_w(area, count)
    }
}

/// Horizontal offset of window `i` from the monitor's left edge.
pub open spec fn g_x_off(area: Rect, count: nat, i: int) -> int {
    if g_short(count, i) {
        g_col(count, i) * ((area.width as int) / g_in_row(count, i))
    } else {
        g_col(count, i) * g_cell_w(area, count)
    }
}

/// The exact x of window `i` before it is stored as `i32`.
pub open spec fn g_x(area: Rect, count: nat, i: int) -> int {
    area.x + (g_x_off(area, count, i) as i32)
}

/// The exact y of window `i` before it is stored as `i32`.
pub open spec fn g_y(area: Rect, count: nat, frame: FrameExtents, i: int) -> int {
    top_row_y(area, frame) + ((g_row32(count, i) * g_stride(area, count, frame)) as i32)
}

/// The cell of window `i` in the grid.
pub open spec fn g_rect(area: Rect, count: nat, frame: FrameExtents, i: int) -> Rect {
    Rect {
        x: g_x(area, count, i) as i32,
        y: g_y(area, count, frame, i) as i32,
        width: g_width(area, count, i) as u32,
        height: g_cell_h(area, count, frame) as u32,
    }
}

/// Window `i`'s cell computes without overflow.
pub open spec fn g_cell_fits(area: Rect, count: nat, frame: FrameExtents, i: int) -> bool {
    &&& g_row32(count, i) * g_stride(area, count, frame) <= u32::MAX
    &&& i32::MIN <= g_y(area, count, frame, i) <= i32::MAX
    &&& i32::MIN <= g_x(area, count, i) <= i32::MAX
}

/// A vector of `count` cells can be allocated: a `Rect` takes 16 bytes and
/// an allocation at most `isize::MAX` bytes (`Vec::with_capacity` panics
/// beyond that).
pub open spec fn cells_allocatable(count: nat) -> bool {
    count * 16 <= isize::MAX
}

/// The grid computes without overflow, division by zero or a failed
/// allocation.
pub open spec fn g_fits(area: Rect, count: nat, frame: FrameExtents) -> bool {
    &&& cells_allocatable(count)
    &&& g_rows32(count) != 0
    &&& frame_v(frame) <= u32::MAX
    &&& g_rows32(count) * frame_v(frame) <= u32::MAX
    &&& g_stride(area, count, frame) <= u32::MAX
    &&& i32::MIN <= top_row_y(area, frame) <= i32::MAX
    &&& forall|i: int| 0 <= i < count ==> #[trigger] g_cell_fits(area, count, frame, i)
}

/// The grid cells, in window order.
pub open spec fn g_rects(area: Rect, count: nat, frame: FrameExtents) -> Seq<Rect> {
    Seq::new(count, |i: int| g_rect(area, count, frame, i))
}

// ---------------------------------------------------------------------------
// Whole layouts
// ---------------------------------------------------------------------------

/// The monitor area given as `(x, y, width, height)`.
pub open spec fn area_of(x: i32, y: i32, width: u32, height: u32) -> Rect {
    Rect { x, y, width, height }
}

/// The cells of a layout for `count` windows, in window order.
pub open spec fn kind_rects(kind: LayoutKind, area: Rect, count: nat, frame: FrameExtents) -> Seq<
    Rect,
> {
    match kind {
        LayoutKind::Horizontal(n) => h_rects(area, n, frame),
        LayoutKind::Vertical(n) => v_rects(area, n, frame),
        LayoutKind::Grid => g_rects(area, count, frame),
    }
}

/// A layout's arithmetic stays within the integer types it uses.
pub open spec fn kind_fits(kind: LayoutKind, area: Rect, count: nat, frame: FrameExtents) -> bool {
    match kind {
        LayoutKind::Horizontal(n) => h_fits(area, n, frame),
        LayoutKind::Vertical(n) => v_fits(area, n, frame),
        LayoutKind::Grid => g_fits(area, count, frame),
    }
}

/// The inputs on which computing a layout does not overflow: an unknown name
/// or a rejected count never reaches the arithmetic.
pub open spec fn layout_fits(name: Seq<char>, area: Rect, count: nat, frame: FrameExtents) -> bool {
    match layout_kind(name) {
        Some(kind) => accepts_count(kind, count) ==> kind_fits(kind, area, count, frame),
        None => true,
    }
}

// ---------------------------------------------------------------------------
// Arithmetic lemmas
// ---------------------------------------------------------------------------

pub(crate) proof fn lemma_mul_div_le(i: int, n: int, w: int)
    requires
        0 <= i <= n,
        0 < n,
        0 <= w,
    ensures
        0 <= i * (w / n) <= w,
{
    assert(0 <= i * (w / n) <= w) by (nonlinear_arith)
        requires
            0 <= i <= n,
            0 < n,
            0 <= w,
    {
        assert(w == n * (w / n) + w % n);
        assert(0 <= w % n);
        assert(0 <= w / n);
        assert(i * (w / n) <= n * (w / n));
    }
}

pub(crate) proof fn lemma_div_mod(i: int, c: int)
    requires
        0 <= i,
        0 < c,
    ensures
        i == c * (i / c) + i % c,
        0 <= i % c < c,
        0 <= i / c,
        c * (i / c) <= i,
{
    assert(i == c * (i / c) + i % c && 0 <= i % c < c && 0 <= i / c) by (nonlinear_arith)
        requires
            0 <= i,
            0 < c,
    ;
}

pub(crate) proof fn lemma_rows_from_bounds(count: nat, r: nat)
    requires
        1 <= r <= count,
    ensures
        r <= rows_from(count, r) <= count,
    decreases count - r,
{
    if ceil_div(count as int, r as int) > 6 && r < count {
        lemma_rows_from_bounds(count, r + 1);
    }
}

pub(crate) proof fn lemma_ceil_div(a: int, b: int)
    requires
        0 <= a,
        0 < b,
    ensures
        b * ceil_div(a, b) >= a,
        a >= 1 ==> ceil_div(a, b) >= 1,
        b * (ceil_div(a, b) - 1) < a,
{
    lemma_div_mod(a, b);
    assert(b * (a / b + 1) == b * (a / b) + b) by (nonlinear_arith);
    assert(b * (a / b - 1) == b * (a / b) - b) by (nonlinear_arith);
    if a >= 1 && a / b == 0 {
        assert(a % b != 0);
    }
}

proof fn lemma_square_root(count: nat, s: nat)
    requires
        s * s == count,
    ensures
        is_square(count),
        square_root(count) == s,
{
    assert(square(s) == count);
    let r = square_root(count);
    assert(r * r == count);
    if r < s {
        assert(r * r < s * s) by (nonlinear_arith)
            requires
                r < s,
        ;
    } else if r > s {
        assert(r * r > s * s) by (nonlinear_arith)
            requires
                r > s,
        ;
    }
}

/// Shape facts the grid computation relies on.
pub(crate) proof fn lemma_grid_shape(count: nat)
    requires
        count >= 2,
    ensures
        1 <= grid_rows(count) <= count,
        1 <= grid_cols(count) <= count,
        grid_rows(count) * grid_cols(count) >= count,
{
    let rows = grid_rows(count);
    let cols = grid_cols(count);
    if is_square(count) {
        let r = square_root(count);
        assert(square(r) == count);
        assert(1 <= r <= count) by (nonlinear_arith)
            requires
                r * r == count,
                count >= 2,
        ;
    } else {
        lemma_rows_from_bounds(count, 2);
        lemma_ceil_div(count as int, rows as int);
        assert(cols <= count) by (nonlinear_arith)
            requires
                rows >= 1,
                cols >= 1,
                rows * (cols - 1) < count,
        ;
        assert(rows * cols == cols * rows) by (nonlinear_arith);
    }
}

pub(crate) proof fn lemma_rows_from_fewest(count: nat, r: nat)
    requires
        2 <= r <= count,
        forall|k: int| 2 <= k < r ==> #[trigger] ceil_div(count as int, k) > 6,
    ensures
        forall|k: int|
            2 <= k < rows_from(count, r) ==> #[trigger] ceil_div(count as int, k) > 6,
        ceil_div(count as int, rows_from(count, r) as int) <= 6 || rows_from(count, r) == count,
    decreases count - r,
{
    if ceil_div(count as int, r as int) > 6 && r < count {
        lemma_rows_from_fewest(count, r + 1);
    }
}

/// A grid of cells that can be allocated has columns that fit in `u32`.
pub(crate) proof fn lemma_grid_cols_fit(count: nat)
    requires
        count >= 2,
        cells_allocatable(count),
    ensures
        grid_cols(count) <= u32::MAX,
{
    if is_square(count) {
        let r = square_root(count);
        assert(square(r) == count);
        assert(r <= u32::MAX) by (nonlinear_arith)
            requires
                r * r == count,
                count <= 0x8000_0000_0000_0000,
        ;
    } else {
        lemma_rows_from_bounds(count, 2);
        lemma_rows_from_fewest(count, 2);
        let rows = grid_rows(count);
        if rows == count && ceil_div(count as int, rows as int) > 6 {
            assert((count as int) % (count as int) == 0) by (nonlinear_arith)
                requires
                    count >= 1,
            ;
            assert((count as int) / (count as int) == 1) by (nonlinear_arith)
                requires
                    count >= 1,
            ;
        }
    }
}

// ---------------------------------------------------------------------------
// Computation
// ---------------------------------------------------------------------------

fn mismatch(prefix: &str, expected: usize, count: usize) -> (e: LayoutError)
    ensures
        e matches LayoutError::WindowCountMismatch { layout, expected: exp, got } && layout@
            == prefix@ + decimal(expected as nat) && exp@ == "exactly "@ + decimal(
            expected as nat,
        ) && got == count,
{
    let mut layout = String::from_str(prefix);
    push_decimal(&mut layout, expected as u64);
    let mut exp = String::from_str("exactly ");
    push_decimal(&mut exp, expected as u64);
    LayoutError::WindowCountMismatch { layout, expected: exp, got: count }
}

fn fixed_horizontal(
    mon_x: i32,
    mon_y: i32,
    mon_w: u32,
    mon_h: u32,
    count: usize,
    expected: usize,
    frame: &FrameExtents,
) -> (r: Result<Vec<Rect>, LayoutError>)
    requires
        0 < expected <= u32::MAX,
        count == expected ==> h_fits(area_of(mon_x, mon_y, mon_w, mon_h), expected as nat, *frame),
    ensures
        count == expected ==> (r matches Ok(v) && v@ == h_rects(
            area_of(mon_x, mon_y, mon_w, mon_h),
            expected as nat,
            *frame,
        )),
        count != expected ==> (r matches Err(LayoutError::WindowCountMismatch { layout, expected: exp, got })
            && layout@ == "h"@ + decimal(expected as nat) && exp@ == "exactly "@ + decimal(
            expected as nat,
        ) && got == count),
{
    if count != expected {
        return Err(mismatch("h", expected, count));
    }
    let ghost area = area_of(mon_x, mon_y, mon_w, mon_h);
    let ghost n = expected as nat;
    // Single row: subtract frame top/bottom once from height
    let cell_h = mon_h.saturating_sub(frame.top + frame.bottom);
    let cell_w = mon_w / expected as u32;
    let mut rects: Vec<Rect> = Vec::new();
    let mut i: usize = 0;
    while i < expected
        invariant
            0 <= i <= expected,
            0 < expected <= u32::MAX,
            n == expected,
            area == area_of(mon_x, mon_y, mon_w, mon_h),
            h_fits(area, n, *frame),
            cell_h == h_cell_h(area, *frame),
            cell_w == h_cell_w(area, n),
            rects@.len() == i,
            forall|j: int| 0 <= j < i ==> rects@[j] == h_rect(area, n, *frame, j),
        decreases expected - i,
    {
        proof {
            lemma_mul_div_le(i as int, n as int, mon_w as int);
            assert(i32::MIN <= h_x(area, n, i as int) <= i32::MAX);
        }
        let off = (i as u32 * cell_w) as i32;
        rects.push(Rect { x: mon_x + off, y: mon_y + frame.top as i32, width: cell_w, height: cell_h });
        i += 1;
    }
    proof {
        assert(rects@ =~= h_rects(area, n, *frame));
    }
    Ok(rects)
}

fn fixed_vertical(
    mon_x: i32,
    mon_y: i32,
    mon_w: u32,
    mon_h: u32,
    count: usize,
    expected: usize,
    frame: &FrameExtents,
) -> (r: Result<Vec<Rect>, LayoutError>)
    requires
        0 < expected <= u32::MAX,
        count == expected ==> v_fits(area_of(mon_x, mon_y, mon_w, mon_h), expected as nat, *frame),
    ensures
        count == expected ==> (r matches Ok(v) && v@ == v_rects(
            area_of(mon_x, mon_y, mon_w, mon_h),
            expected as nat,
            *frame,
        )),
        count != expected ==> (r matches Err(LayoutError::WindowCountMismatch { layout, expected: exp, got })
            && layout@ == "v"@ + decimal(expected as nat) && exp@ == "exactly "@ + decimal(
            expected as nat,
        ) && got == count),
{
    if count != expected {
        return Err(mismatch("v", expected, count));
    }
    let ghost area = area_of(mon_x, mon_y, mon_w, mon_h);
    let ghost n = expected as nat;
    // Each row has frame_top + cell_h + frame_bottom visual height
    let frame_v = frame.top + frame.bottom;
    let cell_h = mon_h.saturating_sub(expected as u32 * frame_v) / expected as u32;
    let stride = cell_h + frame_v;
    let mut rects: Vec<Rect> = Vec::new();
    let mut i: usize = 0;
    while i < expected
        invariant
            0 <= i <= expected,
            0 < expected <= u32::MAX,
            n == expected,
            area == area_of(mon_x, mon_y, mon_w, mon_h),
            v_fits(area, n, *frame),
            cell_h == v_cell_h(area, n, *frame),
            stride == v_stride(area, n, *frame),
            rects@.len() == i,
            forall|j: int| 0 <= j < i ==> rects@[j] == v_rect(area, n, *frame, j),
        decreases expected - i,
    {
        proof {
            assert((i as int) * stride <= u32::MAX && i32::MIN <= v_y(area, n, *frame, i as int)
                <= i32::MAX);
        }
        let off = (i as u32 * stride) as i32;
        rects.push(Rect { x: mon_x, y: mon_y + frame.top as i32 + off, width: mon_w, height: cell_h });
        i += 1;
    }
    proof {
        assert(rects@ =~= v_rects(area, n, *frame));
    }
    Ok(rects)
}


fn div_ceil(a: usize, b: usize) -> (c: usize)
    requires
        b > 0,
    ensures
        c == ceil_div(a as int, b as int),
{
    if a % b == 0 {
        a / b
    } else {
        proof {
            assert(a / b < a) by (nonlinear_arith)
                requires
                    a % b != 0,
                    b > 0,
            {
                if b == 1 {
                    assert(a % b == 0);
                }
                assert(b >= 2);
                assert(a == b * (a / b) + a % b);
            }
        }
        a / b + 1
    }
}

/// Rows and columns of the grid for `count` windows.
fn grid_shape(count: usize) -> (shape: (usize, usize))
    requires
        2 <= count,
        cells_allocatable(count as nat),
    ensures
        shape.0 == grid_rows(count as nat),
        shape.1 == grid_cols(count as nat),
{
    // Perfect squares use a square grid.
    // (An integer square root: it agrees with rounding a floating-point
    // square root for every count that can be allocated.)
    let c = count as u64;
    let mut s: u64 = 0;
    while s * s < c
        invariant
            c == count,
            c <= 0x0800_0000_0000_0000,
            s <= 0x4000_0000,
            s * s <= 0x1000_0000_0000_0000,
            s == 0 || (s - 1) * (s - 1) < c,
        decreases c - s,
    {
        proof {
            assert(s < 0x4000_0000 && s < c) by (nonlinear_arith)
                requires
                    s * s < c,
                    c <= 0x0800_0000_0000_0000,
            ;
        }
        s = s + 1;
        proof {
            assert(s * s <= 0x1000_0000_0000_0000) by (nonlinear_arith)
                requires
                    s <= 0x4000_0000,
            ;
        }
    }
    if s * s == c {
        proof {
            lemma_square_root(count as nat, s as nat);
        }
        return (s as usize, s as usize);
    }
    proof {
        assert(!is_square(count as nat)) by {
            if is_square(count as nat) {
                let r = choose|r: nat| #[trigger] square(r) == count as nat;
                assert(r * r == count);
                if r < s {
                    assert(r * r <= (s - 1) * (s - 1)) by (nonlinear_arith)
                        requires
                            r < s,
                    ;
                } else {
                    assert(r * r >= s * s) by (nonlinear_arith)
                        requires
                            r >= s,
                    ;
                }
            }
        }
    }
    // Otherwise minimise rows, capping at six columns.
    let mut r: usize = 2;
    while div_ceil(count, r) > 6 && r < count
        invariant
            2 <= r <= count,
            rows_from(count as nat, 2) == rows_from(count as nat, r as nat),
        decreases count - r,
    {
        r += 1;
    }
    (r, div_ceil(count, r))
}

fn grid(
    mon_x: i32,
    mon_y: i32,
    mon_w: u32,
    mon_h: u32,
    count: usize,
    frame: &FrameExtents,
) -> (r: Result<Vec<Rect>, LayoutError>)
    requires
        count >= 2 ==> g_fits(area_of(mon_x, mon_y, mon_w, mon_h), count as nat, *frame),
    ensures
        count >= 2 ==> (r matches Ok(v) && v@ == g_rects(
            area_of(mon_x, mon_y, mon_w, mon_h),
            count as nat,
            *frame,
        )),
        count < 2 ==> (r matches Err(LayoutError::WindowCountMismatch { layout, expected, got })
            && layout@ == "grid"@ && expected@ == "at least 2"@ && got == count),
{
    if count < 2 {
        return Err(
            LayoutError::WindowCountMismatch {
                layout: String::from_str("grid"),
                expected: String::from_str("at least 2"),
                got: count,
            },
        );
    }
    let ghost area = area_of(mon_x, mon_y, mon_w, mon_h);
    let ghost n = count as nat;
    let (rows, cols) = grid_shape(count);
    proof {
        lemma_grid_shape(n);
        lemma_grid_cols_fit(n);
    }
    // Account for WM decorations: each row costs frame_top + frame_bottom extra
    let frame_v = frame.top + frame.bottom;
    let cell_h = mon_h.saturating_sub(rows as u32 * frame_v) / rows as u32;
    let row_stride = cell_h + frame_v;
    let cell_w = mon_w / cols as u32;

    let mut rects: Vec<Rect> = Vec::with_capacity(count);
    let mut i: usize = 0;
    while i < count
        invariant
            0 <= i <= count,
            2 <= count,
            n == count,
            area == area_of(mon_x, mon_y, mon_w, mon_h),
            g_fits(area, n, *frame),
            rows == grid_rows(n),
            cols == grid_cols(n),
            1 <= rows <= count,
            1 <= cols <= count,
            cols <= u32::MAX,
            rows * cols >= count,
            frame_v == self::frame_v(*frame),
            cell_h == g_cell_h(area, n, *frame),
            row_stride == g_stride(area, n, *frame),
            cell_w == g_cell_w(area, n),
            rects@.len() == i,
            forall|j: int| 0 <= j < i ==> rects@[j] == g_rect(area, n, *frame, j),
        decreases count - i,
    {
        let row = i / cols;
        let col = i % cols;
        proof {
            lemma_div_mod(i as int, cols as int);
            assert(row < rows) by (nonlinear_arith)
                requires
                    cols * row <= i,
                    i < count,
                    rows * cols >= count,
                    cols >= 1,
            ;
            assert(g_cell_fits(area, n, *frame, i as int));
        }
        let windows_in_row = if row == rows - 1 {
            count - row * cols
        } else {
            cols
        };
        proof {
            assert(col < windows_in_row <= cols) by (nonlinear_arith)
                requires
                    i == cols * row + col,
                    col < cols,
                    row < rows,
                    i < count,
                    rows * cols >= count,
                    row == rows - 1 ==> windows_in_row == count - row * cols,
                    row != rows - 1 ==> windows_in_row == cols,
            ;
            lemma_mul_div_le(col as int, windows_in_row as int, mon_w as int);
            lemma_mul_div_le(col as int, cols as int, mon_w as int);
        }
        let this_cell_w = if windows_in_row < cols && col == windows_in_row - 1 {
            mon_w - (col as u32 * (mon_w / windows_in_row as u32))
        } else if windows_in_row < cols {
            mon_w / windows_in_row as u32
        } else {
            cell_w
        };

        let this_x = if windows_in_row < cols {
            mon_x + (col as u32 * (mon_w / windows_in_row as u32)) as i32
        } else {
            mon_x + (col as u32 * cell_w) as i32
        };

        rects.push(
            Rect {
                x: this_x,
                y: mon_y + frame.top as i32 + (row as u32 * row_stride) as i32,
                width: this_cell_w,
                height: cell_h,
            },
        );
        i += 1;
    }
    proof {
        assert(rects@ =~= g_rects(area, n, *frame));
    }
    Ok(rects)
}


fn h_in_range(area: &Rect, n: usize, frame: &FrameExtents) -> (r: bool)
    requires
        1 <= n <= 3,
    ensures
        r == h_fits(*area, n as nat, *frame),
{
    let fv = frame.top as u64 + frame.bottom as u64;
    if fv > 0xFFFF_FFFF {
        return false;
    }
    let top_y = area.y as i64 + (frame.top as i32) as i64;
    if top_y < -0x8000_0000 || top_y > 0x7FFF_FFFF {
        return false;
    }
    let cw = area.width / n as u32;
    let mut i: usize = 0;
    while i < n
        invariant
            1 <= n <= 3,
            0 <= i <= n,
            cw == h_cell_w(*area, n as nat),
            forall|j: int| 0 <= j < i ==> i32::MIN <= #[trigger] h_x(*area, n as nat, j) <= i32::MAX,
        decreases n - i,
    {
        proof {
            lemma_mul_div_le(i as int, n as int, area.width as int);
        }
        let x = area.x as i64 + ((i as u32 * cw) as i32) as i64;
        assert(x == h_x(*area, n as nat, i as int));
        if x < -0x8000_0000 || x > 0x7FFF_FFFF {
            return false;
        }
        i += 1;
    }
    true
}

fn v_in_range(area: &Rect, n: usize, frame: &FrameExtents) -> (r: bool)
    requires
        1 <= n <= 3,
    ensures
        r == v_fits(*area, n as nat, *frame),
{
    let fv = frame.top as u64 + frame.bottom as u64;
    if fv > 0xFFFF_FFFF {
        return false;
    }
    assert(n * fv <= 3 * 0xFFFF_FFFF) by (nonlinear_arith)
        requires
            n <= 3,
            fv <= 0xFFFF_FFFF,
    ;
    let all_fv = n as u64 * fv;
    if all_fv > 0xFFFF_FFFF {
        return false;
    }
    let cell_h = area.height.saturating_sub(all_fv as u32) / n as u32;
    let stride = cell_h as u64 + fv;
    if stride > 0xFFFF_FFFF {
        return false;
    }
    let top_y = area.y as i64 + (frame.top as i32) as i64;
    if top_y < -0x8000_0000 || top_y > 0x7FFF_FFFF {
        return false;
    }
    assert(stride == v_stride(*area, n as nat, *frame));
    let mut i: usize = 0;
    while i < n
        invariant
            1 <= n <= 3,
            0 <= i <= n,
            stride == v_stride(*area, n as nat, *frame),
            stride <= 0xFFFF_FFFF,
            top_y == top_row_y(*area, *frame),
            forall|j: int|
                0 <= j < i ==> (#[trigger] (j * v_stride(*area, n as nat, *frame))) <= u32::MAX
                    && i32::MIN <= v_y(*area, n as nat, *frame, j) <= i32::MAX,
        decreases n - i,
    {
        assert(i * stride <= 3 * 0xFFFF_FFFF) by (nonlinear_arith)
            requires
                i <= 3,
                stride <= 0xFFFF_FFFF,
        ;
        let off = i as u64 * stride;
        if off > 0xFFFF_FFFF {
            return false;
        }
        let y = top_y + ((off as u32) as i32) as i64;
        assert(y == v_y(*area, n as nat, *frame, i as int));
        if y < -0x8000_0000 || y > 0x7FFF_FFFF {
            return false;
        }
        i += 1;
    }
    true
}

fn g_in_range(area: &Rect, count: usize, frame: &FrameExtents) -> (r: bool)
    requires
        2 <= count,
    ensures
        r == g_fits(*area, count as nat, *frame),
{
    let ghost n = count as nat;
    if count > (isize::MAX as usize) / 16 {
        return false;
    }
    let (rows, cols) = grid_shape(count);
    proof {
        lemma_grid_shape(n);
        lemma_grid_cols_fit(n);
    }
    let rows32 = rows as u32;
    if rows32 == 0 {
        return false;
    }
    let fv = frame.top as u64 + frame.bottom as u64;
    if fv > 0xFFFF_FFFF {
        return false;
    }
    assert(rows32 * fv <= 0xFFFF_FFFF * 0xFFFF_FFFF) by (nonlinear_arith)
        requires
            rows32 <= 0xFFFF_FFFF,
            fv <= 0xFFFF_FFFF,
    ;
    let all_fv = rows32 as u64 * fv;
    if all_fv > 0xFFFF_FFFF {
        return false;
    }
    let cell_h = area.height.saturating_sub(all_fv as u32) / rows32;
    let stride = cell_h as u64 + fv;
    if stride > 0xFFFF_FFFF {
        return false;
    }
    let top_y = area.y as i64 + (frame.top as i32) as i64;
    if top_y < -0x8000_0000 || top_y > 0x7FFF_FFFF {
        return false;
    }
    let mon_w = area.width;
    let cell_w = mon_w / cols as u32;
    assert(stride == g_stride(*area, n, *frame));
    let mut i: usize = 0;
    while i < count
        invariant
            0 <= i <= count,
            2 <= count,
            n == count,
            mon_w == area.width,
            rows == grid_rows(n),
            cols == grid_cols(n),
            1 <= rows <= count,
            1 <= cols <= count,
            cols <= u32::MAX,
            rows * cols >= count,
            stride == g_stride(*area, n, *frame),
            stride <= 0xFFFF_FFFF,
            top_y == top_row_y(*area, *frame),
            cell_w == g_cell_w(*area, n),
            forall|j: int| 0 <= j < i ==> #[trigger] g_cell_fits(*area, n, *frame, j),
        decreases count - i,
    {
        let row = i / cols;
        let col = i % cols;
        proof {
            lemma_div_mod(i as int, cols as int);
            assert(row < rows) by (nonlinear_arith)
                requires
                    cols * row <= i,
                    i < count,
                    rows * cols >= count,
                    cols >= 1,
            ;
        }
        let windows_in_row = if row == rows - 1 {
            count - row * cols
        } else {
            cols
        };
        proof {
            assert(col < windows_in_row <= cols) by (nonlinear_arith)
                requires
                    i == cols * row + col,
                    col < cols,
                    row < rows,
                    i < count,
                    rows * cols >= count,
                    row == rows - 1 ==> windows_in_row == count - row * cols,
                    row != rows - 1 ==> windows_in_row == cols,
            ;
            lemma_mul_div_le(col as int, windows_in_row as int, mon_w as int);
            lemma_mul_div_le(col as int, cols as int, mon_w as int);
        }
        let off = if windows_in_row < cols {
            col as u32 * (mon_w / windows_in_row as u32)
        } else {
            col as u32 * cell_w
        };
        let x = area.x as i64 + (off as i32) as i64;
        assert(x == g_x(*area, n, i as int));
        let row32 = row as u32;
        assert(row32 * stride <= 0xFFFF_FFFF * 0xFFFF_FFFF) by (nonlinear_arith)
            requires
                row32 <= 0xFFFF_FFFF,
                stride <= 0xFFFF_FFFF,
        ;
        assert(row32 == g_row32(n, i as int));
        let ys = row32 as u64 * stride;
        if ys > 0xFFFF_FFFF {
            assert(!g_cell_fits(*area, n, *frame, i as int));
            return false;
        }
        let y = top_y + ((ys as u32) as i32) as i64;
        assert(y == g_y(*area, n, *frame, i as int));
        if x < -0x8000_0000 || x > 0x7FFF_FFFF || y < -0x8000_0000 || y > 0x7FFF_FFFF {
            assert(!g_cell_fits(*area, n, *frame, i as int));
            return false;
        }
        i += 1;
    }
    true
}

/// Whether computing layout `layout` for `count` windows on `area` stays
/// within its integer types and allocation, that is, whether
/// `calculate_layout` may be called.
pub fn layout_in_range(layout: &str, area: &Rect, count: usize, frame: &FrameExtents) -> (r: bool)
    ensures
        r == layout_fits(layout@, *area, count as nat, *frame),
{
    proof {
        assert(area_of(area.x, area.y, area.width, area.height) == *area);
    }
    if str_eq(layout, "h2") {
        count != 2 || h_in_range(area, 2, frame)
    } else if str_eq(layout, "v2") {
        count != 2 || v_in_range(area, 2, frame)
    } else if str_eq(layout, "h3") {
        count != 3 || h_in_range(area, 3, frame)
    } else if str_eq(layout, "v3") {
        count != 3 || v_in_range(area, 3, frame)
    } else if str_eq(layout, "grid") {
        count < 2 || g_in_range(area, count, frame)
    } else {
        true
    }
}

/// What computing layout `name` for `count` windows on `area` gives: the
/// cells of the layout, or the error for an unknown name or a count the
/// layout does not take.
pub open spec fn layout_outcome(
    name: Seq<char>,
    area: Rect,
    count: nat,
    frame: FrameExtents,
    r: Result<Vec<Rect>, LayoutError>,
) -> bool {
    match layout_kind(name) {
        None => r matches Err(LayoutError::UnknownLayout(n)) && n@ == name,
        Some(kind) => if accepts_count(kind, count) {
            r matches Ok(v) && v@ == kind_rects(kind, area, count, frame)
        } else {
            r matches Err(LayoutError::WindowCountMismatch { layout, expected, got })
                && layout@ == mismatch_layout(kind) && expected@ == mismatch_expected(kind) && got
                == count
        },
    }
}

/// Calculate window rectangles for the given layout.
///
/// `mon_x`, `mon_y` are the monitor's top-left offset in screen coordinates.
/// `mon_w`, `mon_h` are the monitor's dimensions.
/// `count` is the number of windows to tile.
/// `frame` provides WM decoration sizes so cell heights/widths account for title bars.
pub fn calculate_layout(
    layout: &str,
    mon_x: i32,
    mon_y: i32,
    mon_w: u32,
    mon_h: u32,
    count: usize,
    frame: &FrameExtents,
) -> (r: Result<Vec<Rect>, LayoutError>)
    requires
        layout_fits(layout@, area_of(mon_x, mon_y, mon_w, mon_h), count as nat, *frame),
    ensures
        layout_outcome(layout@, area_of(mon_x, mon_y, mon_w, mon_h), count as nat, *frame, r),
{
    if str_eq(layout, "h2") {
        fixed_horizontal(mon_x, mon_y, mon_w, mon_h, count, 2, frame)
    } else if str_eq(layout, "v2") {
        fixed_vertical(mon_x, mon_y, mon_w, mon_h, count, 2, frame)
    } else if str_eq(layout, "h3") {
        fixed_horizontal(mon_x, mon_y, mon_w, mon_h, count, 3, frame)
    } else if str_eq(layout, "v3") {
        fixed_vertical(mon_x, mon_y, mon_w, mon_h, count, 3, frame)
    } else if str_eq(layout, "grid") {
        grid(mon_x, mon_y, mon_w, mon_h, count, frame)
    } else {
        Err(LayoutError::UnknownLayout(String::from_str(layout)))
    }
}


/// The text of an error, as it is shown to the user.
pub open spec fn error_message(e: LayoutError) -> Seq<char> {
    match e {
        LayoutError::UnknownLayout(name) => "Unknown layout '"@ + name@
            + "'. Available: h2, v2, h3, v3, grid"@,
        LayoutError::WindowCountMismatch { layout, expected, got } => "Layout '"@ + layout@
            + "' requires "@ + expected@ + " windows, but "@ + decimal(got as nat)
            + " were selected. Try 'grid' for "@ + decimal(got as nat) + " windows."@,
    }
}

impl LayoutError {
    /// The text of the error, as it is shown to the user.
    pub fn message(&self) -> (s: String)
        ensures
            s@ == error_message(*self),
    {
        match self {
            LayoutError::UnknownLayout(name) => {
                let mut s = String::from_str("Unknown layout '");
                s.append(name.as_str());
                s.append("'. Available: h2, v2, h3, v3, grid");
                s
            },
            LayoutError::WindowCountMismatch { layout, expected, got } => {
                let mut s = String::from_str("Layout '");
                s.append(layout.as_str());
                s.append("' requires ");
                s.append(expected.as_str());
                s.append(" windows, but ");
                push_decimal(&mut s, *got as u64);
                s.append(" were selected. Try 'grid' for ");
                push_decimal(&mut s, *got as u64);
                s.append(" windows.");
                s
            },
        }
    }
}

// ---------------------------------------------------------------------------
// The area tiled on a monitor
// ---------------------------------------------------------------------------

/// The larger of two integers.
pub open spec fn max_int(a: int, b: int) -> int {
    if a >= b {
        a
    } else {
        b
    }
}

/// The smaller of two integers.
pub open spec fn min_int(a: int, b: int) -> int {
    if a <= b {
        a
    } else {
        b
    }
}

/// Right edge of the workarea, its width taken as an `i32`.
pub open spec fn workarea_right(workarea: Rect) -> int {
    workarea.x + (workarea.width as i32)
}

/// Bottom edge of the workarea, its height taken as an `i32`.
pub open spec fn workarea_bottom(workarea: Rect) -> int {
    workarea.y + (workarea.height as i32)
}

/// Left edge of the clipped area.
pub open spec fn clip_left(mon: Monitor, workarea: Rect) -> int {
    max_int(mon.x as int, workarea.x as int)
}

/// Top edge of the clipped area.
pub open spec fn clip_top(mon: Monitor, workarea: Rect) -> int {
    max_int(mon.y as int, workarea.y as int)
}

/// Right edge of the clipped area (before empty areas are made zero-wide).
pub open spec fn clip_right(mon: Monitor, workarea: Rect) -> int {
    min_int(mon.x + mon.width, workarea_right(workarea))
}

/// Bottom edge of the clipped area (before empty areas are made zero-high).
pub open spec fn clip_bottom(mon: Monitor, workarea: Rect) -> int {
    min_int(mon.y + mon.height, workarea_bottom(workarea))
}

/// The part of the monitor inside the workarea (panels and taskbars
/// excluded); empty extents become zero.
pub open spec fn clipped_area(mon: Monitor, workarea: Rect) -> Rect {
    Rect {
        x: clip_left(mon, workarea) as i32,
        y: clip_top(mon, workarea) as i32,
        width: max_int(clip_right(mon, workarea) - clip_left(mon, workarea), 0) as u32,
        height: max_int(clip_bottom(mon, workarea) - clip_top(mon, workarea), 0) as u32,
    }
}

/// Clipping keeps exactly the part of the monitor that the workarea covers:
/// a pixel column (row) lies in the clipped area exactly when it lies in
/// both the monitor and the workarea, so the clipped width (height) is the
/// whole overlap, zero only when the two do not overlap.
pub proof fn lemma_clipped_is_overlap(mon: Monitor, workarea: Rect, px: int, py: int)
    ensures
        ({
            let c = clipped_area(mon, workarea);
            (c.x <= px < c.x + c.width) <==> (mon.x <= px < mon.x + mon.width && workarea.x <= px
                < workarea.x + (workarea.width as i32))
        }),
        ({
            let c = clipped_area(mon, workarea);
            (c.y <= py < c.y + c.height) <==> (mon.y <= py < mon.y + mon.height && workarea.y <= py
                < workarea.y + (workarea.height as i32))
        }),
        ({
            let left = if mon.x >= workarea.x { mon.x as int } else { workarea.x as int };
            let right = if mon.x + mon.width <= workarea.x + (workarea.width as i32) {
                mon.x + mon.width
            } else {
                workarea.x + (workarea.width as i32)
            };
            clipped_area(mon, workarea).width == if right > left { right - left } else { 0 }
        }),
        ({
            let top = if mon.y >= workarea.y { mon.y as int } else { workarea.y as int };
            let bottom = if mon.y + mon.height <= workarea.y + (workarea.height as i32) {
                mon.y + mon.height
            } else {
                workarea.y + (workarea.height as i32)
            };
            clipped_area(mon, workarea).height == if bottom > top { bottom - top } else { 0 }
        }),
{
    assert(i32::MIN <= (workarea.width as i32) <= i32::MAX);
    assert(i32::MIN <= (workarea.height as i32) <= i32::MAX);
    assert(0 <= max_int(clip_right(mon, workarea) - clip_left(mon, workarea), 0) <= u16::MAX);
    assert(0 <= max_int(clip_bottom(mon, workarea) - clip_top(mon, workarea), 0) <= u16::MAX);
}

/// Clipping computes without overflow.
pub open spec fn clip_fits(mon: Monitor, workarea: Rect) -> bool {
    &&& i32::MIN <= workarea_right(workarea) <= i32::MAX
    &&& i32::MIN <= workarea_bottom(workarea) <= i32::MAX
    &&& i32::MIN <= clip_right(mon, workarea) - clip_left(mon, workarea) <= i32::MAX
    &&& i32::MIN <= clip_bottom(mon, workarea) - clip_top(mon, workarea) <= i32::MAX
}

/// Whether clipping the monitor to the workarea computes without overflow.
pub fn clip_in_range(mon: &Monitor, workarea: &Rect) -> (r: bool)
    ensures
        r == clip_fits(*mon, *workarea),
{
    let mon_x = mon.x as i64;
    let mon_y = mon.y as i64;
    let wa_right = workarea.x as i64 + (workarea.width as i32) as i64;
    let wa_bottom = workarea.y as i64 + (workarea.height as i32) as i64;
    let min32 = i32::MIN as i64;
    let max32 = i32::MAX as i64;
    if wa_right < min32 || wa_right > max32 || wa_bottom < min32 || wa_bottom > max32 {
        return false;
    }
    let left = if mon_x >= workarea.x as i64 { mon_x } else { workarea.x as i64 };
    let top = if mon_y >= workarea.y as i64 { mon_y } else { workarea.y as i64 };
    let mon_right = mon_x + mon.width as i64;
    let mon_bottom = mon_y + mon.height as i64;
    let right = if mon_right <= wa_right { mon_right } else { wa_right };
    let bottom = if mon_bottom <= wa_bottom { mon_bottom } else { wa_bottom };
    let dw = right - left;
    let dh = bottom - top;
    min32 <= dw && dw <= max32 && min32 <= dh && dh <= max32
}

/// Frame extents of zero: the layout ignores decorations.
pub open spec fn no_frame() -> FrameExtents {
    FrameExtents { left: 0, right: 0, top: 0, bottom: 0 }
}

/// Clip the monitor to the workarea (accounts for panels/taskbars).
pub fn effective_area(mon: &Monitor, workarea: &Rect) -> (area: Rect)
    requires
        clip_fits(*mon, *workarea),
    ensures
        area == clipped_area(*mon, *workarea),
{
    let mon_x = mon.x as i32;
    let mon_y = mon.y as i32;
    let mon_w = mon.width as u32;
    let mon_h = mon.height as u32;

    let eff_x = if mon_x >= workarea.x { mon_x } else { workarea.x };
    let eff_y = if mon_y >= workarea.y { mon_y } else { workarea.y };
    let mon_right = mon_x + mon_w as i32;
    let wa_right = workarea.x + workarea.width as i32;
    let eff_right = if mon_right <= wa_right { mon_right } else { wa_right };
    let mon_bottom = mon_y + mon_h as i32;
    let wa_bottom = workarea.y + workarea.height as i32;
    let eff_bottom = if mon_bottom <= wa_bottom { mon_bottom } else { wa_bottom };
    let dw = eff_right - eff_x;
    let dh = eff_bottom - eff_y;
    let eff_w = if dw >= 0 { dw as u32 } else { 0 };
    let eff_h = if dh >= 0 { dh as u32 } else { 0 };
    Rect { x: eff_x, y: eff_y, width: eff_w, height: eff_h }
}

} // verus!
