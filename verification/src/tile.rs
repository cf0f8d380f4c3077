//! Tiling windows onto a monitor.
use vstd::prelude::*;

use crate::layout::{
    calculate_layout, clip_fits, clipped_area, effective_area, layout_fits, layout_outcome,
    no_frame, workarea_bottom, workarea_right, LayoutError,
};
use crate::tiling::on_screen;
use crate::types::{FrameExtents, Monitor, Rect};

verus! {

/// The clipped area of a monitor lies in screen coordinates, starts inside
/// both the monitor and the workarea, and, when not empty, ends inside both.
pub proof fn lemma_clipped_area(mon: Monitor, workarea: Rect)
    requires
        clip_fits(mon, workarea),
    ensures
        on_screen(clipped_area(mon, workarea)),
        clipped_area(mon, workarea).x >= mon.x,
        clipped_area(mon, workarea).x >= workarea.x,
        clipped_area(mon, workarea).y >= mon.y,
        clipped_area(mon, workarea).y >= workarea.y,
        clipped_area(mon, workarea).width > 0 ==> clipped_area(mon, workarea).x + clipped_area(
            mon,
            workarea,
        ).width <= mon.x + mon.width && clipped_area(mon, workarea).x + clipped_area(
            mon,
            workarea,
        ).width <= workarea_right(workarea),
        clipped_area(mon, workarea).height > 0 ==> clipped_area(mon, workarea).y + clipped_area(
            mon,
            workarea,
        ).height <= mon.y + mon.height && clipped_area(mon, workarea).y + clipped_area(
            mon,
            workarea,
        ).height <= workarea_bottom(workarea),
{
}

/// Tile `count` windows with the named layout on the part of the monitor
/// that the workarea leaves free (panels and taskbars excluded).
pub fn tile_layout(layout: &str, mon: &Monitor, workarea: &Rect, count: usize) -> (r: Result<
    Vec<Rect>,
    LayoutError,
>)
    requires
        clip_fits(*mon, *workarea),
        layout_fits(layout@, clipped_area(*mon, *workarea), count as nat, no_frame()),
    ensures
        layout_outcome(layout@, clipped_area(*mon, *workarea), count as nat, no_frame(), r),
{
    let area = effective_area(mon, workarea);
    let frame = FrameExtents { left: 0, right: 0, top: 0, bottom: 0 };
    calculate_layout(layout, area.x, area.y, area.width, area.height, count, &frame)
}

} // verus!
