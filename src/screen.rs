use crate::clamp::{clamp_region, clamped, Region};
use crate::composite::{captures_fit, composite_all, composite_model, total_height, total_width};
use crate::display::{display_at, enumerate_displays, DisplayInfo};
use crate::image::Image;
use vstd::prelude::*;

verus! {

/// One monitor, as the unit that captures are taken of.
#[derive(Debug, Clone, Copy, PartialEq, Eq, Structural)]
pub struct Screen {
    pub display_info: DisplayInfo,
}

/// The monitors behind a list of screens, in the same order.
pub open spec fn displays_of(screens: Seq<Screen>) -> Seq<DisplayInfo> {
    screens.map_values(|s: Screen| s.display_info)
}

impl Screen {
    pub fn new(display_info: &DisplayInfo) -> (r: Screen)
        ensures
            r.display_info == *display_info,
    {
        Screen { display_info: *display_info }
    }

    /// One screen per monitor, in the order given.
    pub fn from_displays(displays: &Vec<DisplayInfo>) -> (r: Vec<Screen>)
        ensures
            displays_of(r@) == displays@,
    {
        let mut screens: Vec<Screen> = Vec::new();
        let mut i: usize = 0;
        while i < displays.len()
            invariant
                i <= displays.len(),
                screens@.len() == i,
                displays_of(screens@) == displays@.subrange(0, i as int),
            decreases displays.len() - i,
        {
            let s = Screen::new(&displays[i]);
            let ghost prev = screens@;
            screens.push(s);
            i += 1;
            proof {
                assert forall|j: int| 0 <= j < i implies displays_of(screens@)[j] == displays@[j] by {
                    if j < i - 1 {
                        assert(screens@[j] == prev[j]);
                        assert(displays_of(prev)[j] == displays@.subrange(0, i - 1)[j]);
                    }
                }
                assert(displays_of(screens@) =~= displays@.subrange(0, i as int));
            }
        }
        proof {
            assert(displays@.subrange(0, i as int) =~= displays@);
        }
        screens
    }

    /// The monitors the platform reports, or `None` where it reports none at all.
    pub fn all() -> (r: Option<Vec<Screen>>) {
        match enumerate_displays() {
            Some(displays) => Some(Screen::from_displays(&displays)),
            None => None,
        }
    }

    /// The monitor the platform reports as holding the point `(x, y)`.
    pub fn from_point(x: i32, y: i32) -> (r: Option<Screen>) {
        match display_at(x, y) {
            Some(d) => Some(Screen::new(&d)),
            None => None,
        }
    }

    /// Composites the captures of the given screens, one per screen and in the
    /// same order, into one image (see `composite_all`).
    pub fn capture_all_screens(screens: &Vec<Screen>, captures: &Vec<Option<Vec<u8>>>) -> (r: Option<Image>)
        requires
            captures_fit(displays_of(screens@), captures@),
            total_width(displays_of(screens@)) * total_height(displays_of(screens@)) * 4 <= usize::MAX,
        ensures
            ({
                let ds = displays_of(screens@);
                &&& r is Some <==> total_width(ds) <= u32::MAX && total_height(ds) <= u32::MAX
                &&& r matches Some(img) ==> {
                    &&& img.spec_width() == total_width(ds)
                    &&& img.spec_height() == total_height(ds)
                    &&& img.spec_buffer() == composite_model(ds, captures@)
                }
            }),
    {
        let mut displays: Vec<DisplayInfo> = Vec::new();
        let mut i: usize = 0;
        while i < screens.len()
            invariant
                i <= screens.len(),
                displays@ == displays_of(screens@).subrange(0, i as int),
            decreases screens.len() - i,
        {
            displays.push(screens[i].display_info);
            i += 1;
            proof {
                assert(displays@ =~= displays_of(screens@).subrange(0, i as int));
            }
        }
        proof {
            assert(displays_of(screens@).subrange(0, i as int) =~= displays_of(screens@));
        }
        composite_all(&displays, captures)
    }

    /// Packs a capture of the whole monitor as an image; `None` where the capture
    /// is missing or does not hold four bytes per pixel of the monitor.
    pub fn capture(&self, raw: Option<Vec<u8>>) -> (r: Option<Image>)
        ensures
            r is Some <==> (raw matches Some(b) && b@.len() == self.display_info.width
                * self.display_info.height * 4),
            r matches Some(img) ==> {
                &&& img.spec_width() == self.display_info.width
                &&& img.spec_height() == self.display_info.height
                &&& raw matches Some(b) && img.spec_buffer() == b@
            },
    {
        match raw {
            Some(b) => match Image::from_bgra(self.display_info.width, self.display_info.height, b) {
                Ok(img) => Some(img),
                Err(_) => None,
            },
            None => None,
        }
    }

    /// The area of this screen to capture for a request at `(x, y)`, relative to
    /// its top-left corner, of `width` by `height` pixels: the request clipped to
    /// the screen, or `None` where nothing of it lies on the screen.
    pub fn capture_area(&self, x: i32, y: i32, width: u32, height: u32) -> (r: Option<Region>)
        ensures
            r matches Some(reg) ==> clamped(self.display_info, x as int, y as int, width as int, height as int)
                == Some(reg.view()),
            r is None ==> clamped(self.display_info, x as int, y as int, width as int, height as int) is None,
    {
        clamp_region(&self.display_info, x, y, width, height)
    }
}

} // verus!
