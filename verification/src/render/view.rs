//! The views that the catalog is drawn in.

use vstd::prelude::*;

verus! {

/// From where the catalog is looked at.
#[derive(Clone, Copy, Debug)]
pub enum View {
    /// From above the galactic plane.
    TopDown,
    /// From the sun, the whole sky unrolled.
    Sky,
}

impl View {
    /// Width and height of the image for a given width: a square from above, and twice as wide
    /// as high for the sky.
    pub fn image_size(&self, width: u32) -> (size: [u32; 2])
        ensures
            size[0] == width,
            size[1] == match self {
                View::TopDown => width,
                View::Sky => width / 2,
            },
    {
        match self {
            View::TopDown => [width, width],
            View::Sky => [width, width / 2],
        }
    }
}

} // verus!
