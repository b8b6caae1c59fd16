use vstd::prelude::*;

verus! {

/// Placement and size of one monitor in the virtual coordinate space.
#[derive(Debug, Clone, Copy, PartialEq, Eq, Structural)]
pub struct DisplayInfo {
    pub id: u32,
    pub x: i32,
    pub y: i32,
    pub width: u32,
    pub height: u32,
    pub is_primary: bool,
}

impl DisplayInfo {
    /// Right edge (exclusive) in virtual coordinates.
    pub open spec fn right(self) -> int {
        self.x + self.width
    }

    /// Bottom edge (exclusive) in virtual coordinates.
    pub open spec fn bottom(self) -> int {
        self.y + self.height
    }
}

/// Relies on display_info::DisplayInfo::all, which asks the platform for every
/// active monitor; the result depends on the machine, so nothing is stated.
#[verifier::external_body]
pub(crate) fn enumerate_displays() -> (r: Option<Vec<DisplayInfo>>)
{
    display_info::DisplayInfo::all().map(|v| {
        v.iter().map(|d| DisplayInfo {
            id: d.id,
            x: d.x,
            y: d.y,
            width: d.width,
            height: d.height,
            is_primary: d.is_primary,
        }).collect()
    })
}

/// Relies on display_info::DisplayInfo::from_point, which asks the platform for
/// the monitor holding a point; the result depends on the machine.
#[verifier::external_body]
pub(crate) fn display_at(x: i32, y: i32) -> (r: Option<DisplayInfo>)
{
    display_info::DisplayInfo::from_point(x, y).map(|d| DisplayInfo {
        id: d.id,
        x: d.x,
        y: d.y,
        width: d.width,
        height: d.height,
        is_primary: d.is_primary,
    })
}

} // verus!
