use crate::display::DisplayInfo;
use vstd::prelude::*;

verus! {

/// A rectangle in monitor-local coordinates (origin at the monitor's top-left).
#[derive(Debug, Clone, Copy, PartialEq, Eq, Structural)]
pub struct Region {
    pub x: u32,
    pub y: u32,
    pub width: u32,
    pub height: u32,
}

impl Region {
    pub open spec fn view(self) -> (int, int, int, int) {
        (self.x as int, self.y as int, self.width as int, self.height as int)
    }
}

/// Clamps the start of an interval `[lo, hi]` of the monitor.
pub open spec fn clamp_start(v: int, lo: int, hi: int) -> int {
    if v < lo {
        lo
    } else if v > hi {
        hi
    } else {
        v
    }
}

/// Clamps the end of an interval to the monitor's far edge `hi`.
pub open spec fn clamp_end(v: int, hi: int) -> int {
    if v > hi {
        hi
    } else {
        v
    }
}

/// The requested area `(x, y, w, h)`, relative to the monitor's top-left corner,
/// clipped edge by edge to the monitor; `None` where nothing of it is left.
pub open spec fn clamped(d: DisplayInfo, x: int, y: int, w: int, h: int) -> Option<(int, int, int, int)> {
    let x1 = clamp_start(d.x + x, d.x as int, d.right());
    let y1 = clamp_start(d.y + y, d.y as int, d.bottom());
    let x2 = clamp_end(d.x + x + w, d.right());
    let y2 = clamp_end(d.y + y + h, d.bottom());
    if x1 >= x2 || y1 >= y2 {
        None
    } else {
        Some((x1 - d.x, y1 - d.y, x2 - x1, y2 - y1))
    }
}

/// Clips a requested area of a monitor to the monitor's bounds.
///
/// `x` and `y` are relative to the monitor's top-left corner and may be negative
/// or past its extent. Each edge is clipped on its own; where the clipped area is
/// empty the result is `None`, else the clipped area in monitor-local coordinates.
pub fn clamp_region(display: &DisplayInfo, x: i32, y: i32, width: u32, height: u32) -> (r: Option<Region>)
    ensures
        r matches Some(reg) ==> clamped(*display, x as int, y as int, width as int, height as int) == Some(reg.view()),
        r is None ==> clamped(*display, x as int, y as int, width as int, height as int) is None,
        r matches Some(reg) ==> {
            &&& reg.x < display.width
            &&& reg.y < display.height
            &&& reg.x + reg.width <= display.width
            &&& reg.y + reg.height <= display.height
        },
{
    let dx = display.x as i64;
    let dy = display.y as i64;
    let screen_x2 = dx + display.width as i64;
    let screen_y2 = dy + display.height as i64;

    let mut x1 = x as i64 + dx;
    let mut y1 = y as i64 + dy;
    let mut x2 = x1 + width as i64;
    let mut y2 = y1 + height as i64;

    if x1 < dx {
        x1 = dx;
    } else if x1 > screen_x2 {
        x1 = screen_x2;
    }
    if y1 < dy {
        y1 = dy;
    } else if y1 > screen_y2 {
        y1 = screen_y2;
    }
    if x2 > screen_x2 {
        x2 = screen_x2;
    }
    if y2 > screen_y2 {
        y2 = screen_y2;
    }

    if x1 >= x2 || y1 >= y2 {
        return None;
    }
    Some(Region {
        x: (x1 - dx) as u32,
        y: (y1 - dy) as u32,
        width: (x2 - x1) as u32,
        height: (y2 - y1) as u32,
    })
}

/// A request that already lies inside the monitor and has positive area is
/// returned unchanged.
pub proof fn lemma_clamp_idempotent(d: DisplayInfo, x: int, y: int, w: int, h: int)
    requires
        0 <= x,
        0 <= y,
        0 < w,
        0 < h,
        x + w <= d.width,
        y + h <= d.height,
    ensures
        clamped(d, x, y, w, h) == Some((x, y, w, h)),
{
}

/// Whatever the request, a clamped area starts inside the monitor and ends
/// within its extent.
pub proof fn lemma_clamp_within(d: DisplayInfo, x: int, y: int, w: int, h: int)
    requires
        0 <= w,
        0 <= h,
    ensures
        clamped(d, x, y, w, h) matches Some((cx, cy, cw, ch)) ==> {
            &&& 0 <= cx < d.width
            &&& 0 <= cy < d.height
            &&& cx + cw <= d.width
            &&& cy + ch <= d.height
        },
{
}

/// A request that lies wholly outside the monitor on one axis leaves no area;
/// one that starts past the far edge has both its edges on that axis clipped
/// to the same place.
pub proof fn lemma_clamp_outside(d: DisplayInfo, x: int, y: int, w: int, h: int)
    requires
        0 <= w,
        0 <= h,
        x >= d.width || y >= d.height || x + w <= 0 || y + h <= 0,
    ensures
        clamped(d, x, y, w, h) is None,
        x >= d.width ==> clamp_start(d.x + x, d.x as int, d.right()) == clamp_end(d.x + x + w, d.right()),
        y >= d.height ==> clamp_start(d.y + y, d.y as int, d.bottom()) == clamp_end(d.y + y + h, d.bottom()),
{
}

} // verus!
