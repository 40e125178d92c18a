//! Platform capability interface.
//!
//! The library never touches the operating system itself: whoever drives it
//! implements [`Handle`] (one implementation per OS) and feeds the plain
//! values it yields — key states, the window's client-area size, the cursor
//! position — into the verified core.

use vstd::prelude::*;

verus! {

/// The set of platform capabilities the acquisition loop consumes.
///
/// Implementations live outside the library; nothing is proved about them.
pub trait Handle {
    /// Current physical state of the key bound to one logical button.
    fn is_key_pressed(&self, vk: VK) -> bool;

    /// Pixel size of the foreign window's client area, read fresh each time.
    fn get_window_rect(&self) -> Rect;

    /// Cursor position in window-client pixels, origin at the upper left.
    fn get_mouse_position_in_window(&self) -> Cursor;
}

/// Logical buttons, mapped to physical keys by the platform layer.
#[derive(Clone, Copy, Debug)]
pub enum VK {
    /// Mark the source point.
    Key1,
    /// Mark the target point.
    Key2,
    /// Solve and show results.
    Key3,
    /// Clear both marks.
    Key4,
    /// Toggle the calculation mode.
    Key5,
}

/// Client-area size of the foreign window, in pixels.
#[derive(Clone, Copy, Debug)]
pub struct Rect {
    pub width: i32,
    pub height: i32,
}

impl Rect {
    pub fn new(width: i32, height: i32) -> (r: Rect)
        ensures
            r.width == width,
            r.height == height,
    {
        Rect { width, height }
    }

    pub fn get_width(&self) -> (w: i32)
        ensures
            w == self.width,
    {
        self.width
    }

    pub fn get_height(&self) -> (h: i32)
        ensures
            h == self.height,
    {
        self.height
    }
}

/// A cursor position in window-client pixels, origin at the upper left.
#[derive(Clone, Copy, Debug)]
pub struct Cursor {
    pub x: i32,
    pub y: i32,
}

impl Cursor {
    pub fn new(x: i32, y: i32) -> (c: Cursor)
        ensures
            c.x == x,
            c.y == y,
    {
        Cursor { x, y }
    }

    pub fn get_x(&self) -> (x: i32)
        ensures
            x == self.x,
    {
        self.x
    }

    pub fn get_y(&self) -> (y: i32)
        ensures
            y == self.y,
    {
        self.y
    }
}

} // verus!
