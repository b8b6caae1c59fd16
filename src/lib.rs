//! Monitor geometry for screen capture: clamping a requested area to one
//! monitor, and compositing the captures of every monitor into one buffer.

pub mod clamp;
pub mod composite;
pub mod display;
pub mod image;
pub mod screen;

pub use clamp::{clamp_region, Region};
pub use composite::{bounding_box, composite_all};
pub use display::DisplayInfo;
pub use image::{Image, ImageError};
pub use screen::Screen;
