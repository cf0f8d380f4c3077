use vstd::prelude::*;

verus! {

/// A monitor's geometry as reported by RANDR.
#[derive(Debug, Clone)]
pub struct Monitor {
    pub index: usize,
    pub name: String,
    pub x: i16,
    pub y: i16,
    pub width: u16,
    pub height: u16,
}

/// A terminal window discovered via X11.
#[derive(Debug, Clone)]
pub struct TerminalWindow {
    pub id: u32,
    pub title: String,
}

/// A window rectangle in absolute screen coordinates.
#[derive(Debug, Clone, Copy, PartialEq, Eq, Structural)]
pub struct Rect {
    pub x: i32,
    pub y: i32,
    pub width: u32,
    pub height: u32,
}

/// Window-manager decoration sizes around a window (title bar, borders).
#[derive(Debug, Clone, Copy, PartialEq, Eq, Structural)]
pub struct FrameExtents {
    pub left: u32,
    pub right: u32,
    pub top: u32,
    pub bottom: u32,
}

impl TerminalWindow {
    /// The title as shown to the user: `(untitled)` when it is empty.
    pub fn display_title(&self) -> (s: String)
        ensures
            self.title@.len() == 0 ==> s@ == "(untitled)"@,
            self.title@.len() > 0 ==> s@ == self.title@,
    {
        if self.title.as_str().unicode_len() == 0 {
            String::from_str("(untitled)")
        } else {
            self.title.clone()
        }
    }
}

} // verus!
