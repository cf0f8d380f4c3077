//! Decoding what the X server reports about windows.
use vstd::prelude::*;

use crate::text::{chars_of, contains, contains_chars, lowercase, to_lowercase};
use crate::types::{FrameExtents, Rect};

verus! {

// ---------------------------------------------------------------------------
// Terminal classes
// ---------------------------------------------------------------------------

/// Whether a `WM_CLASS` names a supported terminal emulator: its lowercase
/// form contains `gnome-terminal` or `kitty`.
pub open spec fn terminal_class(class: Seq<char>) -> bool {
    ||| contains(lowercase(class), "gnome-terminal"@)
    ||| contains(lowercase(class), "kitty"@)
}

/// Check if a WM_CLASS string belongs to a supported terminal emulator.
pub fn is_terminal_class(class: &str) -> (r: bool)
    ensures
        r == terminal_class(class@),
{
    let lower = to_lowercase(class);
    let lc = chars_of(lower.as_str());
    contains_chars(&lc, &chars_of("gnome-terminal")) || contains_chars(&lc, &chars_of("kitty"))
}

// ---------------------------------------------------------------------------
// WM_CLASS
// ---------------------------------------------------------------------------

/// The segment being read, as a list of zero or one segments.
pub open spec fn flush_bytes(cur: Seq<u8>) -> Seq<Seq<u8>> {
    if cur.len() == 0 {
        Seq::empty()
    } else {
        seq![cur]
    }
}

/// The non-empty NUL-separated segments of `s` from position `i` on, `cur`
/// being the part of a segment read so far.
pub open spec fn split_nul(s: Seq<u8>, i: nat, cur: Seq<u8>) -> Seq<Seq<u8>>
    decreases s.len() - i,
{
    if i >= s.len() {
        flush_bytes(cur)
    } else if s[i as int] == 0 {
        flush_bytes(cur) + split_nul(s, i + 1, Seq::empty())
    } else {
        split_nul(s, i + 1, cur.push(s[i as int]))
    }
}

/// The non-empty NUL-separated strings of a `WM_CLASS` property value.
pub open spec fn nul_fields(s: Seq<u8>) -> Seq<Seq<u8>> {
    split_nul(s, 0, Seq::empty())
}

/// Field `k` of a `WM_CLASS` value, or nothing when it has fewer fields.
pub open spec fn nul_field(s: Seq<u8>, k: int) -> Seq<u8> {
    if k < nul_fields(s).len() {
        nul_fields(s)[k]
    } else {
        Seq::empty()
    }
}

/// Read WM_CLASS (instance, class) from a property value: the first two
/// non-empty NUL-separated strings, each empty where missing.
pub fn wm_class_fields(value: &Vec<u8>) -> (r: (Vec<u8>, Vec<u8>))
    ensures
        r.0@ == nul_field(value@, 0),
        r.1@ == nul_field(value@, 1),
{
    let ghost s = value@;
    let n = value.len();
    let mut fields: Vec<Vec<u8>> = Vec::new();
    let mut cur: Vec<u8> = Vec::new();
    let mut i: usize = 0;
    proof {
        assert(fields@.map_values(|f: Vec<u8>| f@) =~= Seq::<Seq<u8>>::empty());
        assert(fields@.map_values(|f: Vec<u8>| f@) + split_nul(s, 0, cur@) =~= nul_fields(s));
    }
    while i < n
        invariant
            s == value@,
            n == s.len(),
            0 <= i <= n,
            nul_fields(s) == fields@.map_values(|f: Vec<u8>| f@) + split_nul(s, i as nat, cur@),
        decreases n - i,
    {
        let ghost old_fields = fields@.map_values(|f: Vec<u8>| f@);
        let ghost old_cur = cur@;
        let b = value[i];
        if b == 0 {
            if cur.len() > 0 {
                let done = cur;
                fields.push(done);
                proof {
                    assert(fields@.map_values(|f: Vec<u8>| f@) =~= old_fields + flush_bytes(old_cur));
                }
            } else {
                proof {
                    assert(old_cur =~= Seq::<u8>::empty());
                    assert(fields@.map_values(|f: Vec<u8>| f@) =~= old_fields + flush_bytes(old_cur));
                }
            }
            cur = Vec::new();
        } else {
            cur.push(b);
        }
        i += 1;
    }
    let ghost old_fields = fields@.map_values(|f: Vec<u8>| f@);
    let ghost old_cur = cur@;
    if cur.len() > 0 {
        fields.push(cur);
    }
    proof {
        assert(fields@.map_values(|f: Vec<u8>| f@) =~= old_fields + flush_bytes(old_cur));
    }
    let ghost all = fields@.map_values(|f: Vec<u8>| f@);
    assert(all == nul_fields(s));
    assert(all.len() > 0 ==> all[0] == fields@[0]@);
    assert(all.len() > 1 ==> all[1] == fields@[1]@);
    let class = if fields.len() > 1 {
        fields.remove(1)
    } else {
        Vec::new()
    };
    let instance = if fields.len() > 0 {
        fields.remove(0)
    } else {
        Vec::new()
    };
    (instance, class)
}

// ---------------------------------------------------------------------------
// Properties holding CARDINAL lists
// ---------------------------------------------------------------------------

/// The workarea is what `_NET_WORKAREA` says whenever it holds its four
/// values (x, y, width, height of the first desktop), whatever the screen's
/// size; only a property with fewer values falls back to the whole screen.
pub proof fn lemma_workarea_from_property(values: Seq<u32>, screen_width: u16, screen_height: u16)
    ensures
        values.len() >= 4 ==> workarea_of(values, screen_width, screen_height).x == values[0] as i32,
        values.len() >= 4 ==> workarea_of(values, screen_width, screen_height).y == values[1] as i32,
        values.len() >= 4 ==> workarea_of(values, screen_width, screen_height).width == values[2],
        values.len() >= 4 ==> workarea_of(values, screen_width, screen_height).height == values[3],
        values.len() >= 4 ==> forall|w: u16, h: u16|
            #[trigger] workarea_of(values, w, h) == workarea_of(values.take(4), 0, 0),
        values.len() < 4 ==> workarea_of(values, screen_width, screen_height) == (Rect {
            x: 0,
            y: 0,
            width: screen_width as u32,
            height: screen_height as u32,
        }),
{
}

/// The workarea: the first `_NET_WORKAREA` entry (x, y, width, height, the
/// coordinates taken as `i32`), or the whole screen when the property holds
/// fewer than four values.
pub open spec fn workarea_of(values: Seq<u32>, screen_width: u16, screen_height: u16) -> Rect {
    if values.len() >= 4 {
        Rect {
            x: values[0] as i32,
            y: values[1] as i32,
            width: values[2],
            height: values[3],
        }
    } else {
        Rect { x: 0, y: 0, width: screen_width as u32, height: screen_height as u32 }
    }
}

/// Get _NET_WORKAREA from the values of the root window's property.
/// Returns (x, y, width, height) of the first workarea entry; the full
/// screen if the property is missing.
pub fn workarea_from_values(values: &Vec<u32>, screen_width: u16, screen_height: u16) -> (r: Rect)
    ensures
        r == workarea_of(values@, screen_width, screen_height),
{
    if values.len() >= 4 {
        Rect { x: values[0] as i32, y: values[1] as i32, width: values[2], height: values[3] }
    } else {
        // Fallback: full screen
        Rect { x: 0, y: 0, width: screen_width as u32, height: screen_height as u32 }
    }
}

/// The frame extents that `_GTK_FRAME_EXTENTS` gives (left, right, top,
/// bottom), or none when it holds fewer than four values.
pub open spec fn extents_of(values: Seq<u32>) -> FrameExtents {
    if values.len() >= 4 {
        FrameExtents { left: values[0], right: values[1], top: values[2], bottom: values[3] }
    } else {
        FrameExtents { left: 0, right: 0, top: 0, bottom: 0 }
    }
}

/// Get _GTK_FRAME_EXTENTS (CSD shadow/border) from the values of a window's
/// property: (left, right, top, bottom), or all zero if not set.
pub fn frame_extents_from_values(values: &Vec<u32>) -> (r: FrameExtents)
    ensures
        r == extents_of(values@),
{
    if values.len() >= 4 {
        FrameExtents { left: values[0], right: values[1], top: values[2], bottom: values[3] }
    } else {
        FrameExtents { left: 0, right: 0, top: 0, bottom: 0 }
    }
}

/// The `_NET_WM_PID` of a window from its property values: the first one.
pub fn window_pid_from_values(values: &Vec<u32>) -> (r: Option<u32>)
    ensures
        values@.len() > 0 ==> r == Some(values@[0]),
        values@.len() == 0 ==> r is None,
{
    if values.len() > 0 {
        Some(values[0])
    } else {
        None
    }
}

// ---------------------------------------------------------------------------
// Moving a window
// ---------------------------------------------------------------------------

/// The outer geometry to configure so that a window with client-side
/// decorations `ext` shows its content exactly in `target`.
pub open spec fn outer_rect(target: Rect, ext: FrameExtents) -> Rect {
    Rect {
        x: (target.x - (ext.left as i32)) as i32,
        y: (target.y - (ext.top as i32)) as i32,
        width: (target.width + ext.left + ext.right) as u32,
        height: (target.height + ext.top + ext.bottom) as u32,
    }
}

/// Computing the outer geometry does not overflow.
pub open spec fn outer_fits(target: Rect, ext: FrameExtents) -> bool {
    &&& i32::MIN <= target.x - (ext.left as i32) <= i32::MAX
    &&& i32::MIN <= target.y - (ext.top as i32) <= i32::MAX
    &&& target.width + ext.left <= u32::MAX
    &&& target.width + ext.left + ext.right <= u32::MAX
    &&& target.height + ext.top <= u32::MAX
    &&& target.height + ext.top + ext.bottom <= u32::MAX
}

/// Whether computing the outer geometry stays within the integer types.
pub fn outer_in_range(target: &Rect, ext: &FrameExtents) -> (r: bool)
    ensures
        r == outer_fits(*target, *ext),
{
    let x = target.x as i64 - (ext.left as i32) as i64;
    let y = target.y as i64 - (ext.top as i32) as i64;
    let w = target.width as u64 + ext.left as u64 + ext.right as u64;
    let h = target.height as u64 + ext.top as u64 + ext.bottom as u64;
    i32::MIN as i64 <= x && x <= i32::MAX as i64 && i32::MIN as i64 <= y && y <= i32::MAX as i64
        && w <= u32::MAX as u64 && h <= u32::MAX as u64
}

/// Account for CSD frame extents — the window's outer bounds include
/// invisible shadow/border areas, so the configure request is expanded for
/// the visible content to fill the target rectangle.
pub fn outer_geometry(target: &Rect, ext: &FrameExtents) -> (r: Rect)
    requires
        outer_fits(*target, *ext),
    ensures
        r == outer_rect(*target, *ext),
{
    Rect {
        x: target.x - ext.left as i32,
        y: target.y - ext.top as i32,
        width: target.width + ext.left + ext.right,
        height: target.height + ext.top + ext.bottom,
    }
}

} // verus!
