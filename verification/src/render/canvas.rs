//! The image that the stars are drawn on.

use image::{Rgb, RgbImage};
use vstd::prelude::*;

verus! {

/// The image that the stars are drawn on, black where there is none: an `RgbImage` of the
/// `image` crate.
#[verifier::external_body]
pub struct Canvas {
    image: RgbImage,
}

/// The rows of the image from the top down, each with its pixels from the left, a pixel being
/// its red, green and blue.
pub uninterp spec fn image_rows(canvas: Canvas) -> Seq<Seq<(u8, u8, u8)>>;

/// The width of the image.
pub uninterp spec fn image_width(canvas: Canvas) -> nat;

/// Every row of the image is as long as the image is wide.
pub open spec fn is_rectangle(canvas: Canvas) -> bool {
    forall|y: int|
        0 <= y < image_rows(canvas).len() ==> (#[trigger] image_rows(canvas)[y]).len()
            == image_width(canvas)
}

/// The samples of an image with these rows: row after row, pixel after pixel, red, green and
/// blue.
pub open spec fn samples(rows: Seq<Seq<(u8, u8, u8)>>, width: nat) -> Seq<u8> {
    Seq::new(
        3 * width * rows.len(),
        |i: int|
            {
                let pixel = rows[i / 3 / (width as int)][i / 3 % (width as int)];
                if i % 3 == 0 {
                    pixel.0
                } else if i % 3 == 1 {
                    pixel.1
                } else {
                    pixel.2
                }
            },
    )
}

/// `RgbImage::from_pixel` makes an image of the given size with every pixel as given. It
/// panics where the samples of the image, three for each pixel, are more than a vector holds.
#[verifier::external_body]
fn filled(width: u32, height: u32, pixel: (u8, u8, u8)) -> (canvas: Canvas)
    requires
        3 * width * height <= isize::MAX,
    ensures
        image_width(canvas) == width,
        image_rows(canvas).len() == height,
        is_rectangle(canvas),
        forall|x: int, y: int|
            0 <= x < width && 0 <= y < height ==> (#[trigger] image_rows(canvas)[y][x]) == pixel,
{
    Canvas { image: RgbImage::from_pixel(width, height, Rgb([pixel.0, pixel.1, pixel.2])) }
}

/// `RgbImage::put_pixel` gives the pixel in column `x` of row `y` the given value and leaves
/// every other pixel as it was. It panics where the image has no such pixel.
#[verifier::external_body]
fn put_pixel(canvas: &mut Canvas, x: u32, y: u32, pixel: (u8, u8, u8))
    requires
        x < image_width(*old(canvas)),
        y < image_rows(*old(canvas)).len(),
    ensures
        image_width(*final(canvas)) == image_width(*old(canvas)),
        image_rows(*final(canvas)) == image_rows(*old(canvas)).update(
            y as int,
            image_rows(*old(canvas))[y as int].update(x as int, pixel),
        ),
{
    canvas.image.put_pixel(x, y, Rgb([pixel.0, pixel.1, pixel.2]))
}

/// `RgbImage::width` gives the width of the image.
#[verifier::external_body]
fn width(canvas: &Canvas) -> (width: u32)
    ensures
        width == image_width(*canvas),
{
    canvas.image.width()
}

/// `RgbImage::height` gives the height of the image, which is the number of its rows.
#[verifier::external_body]
fn height(canvas: &Canvas) -> (height: u32)
    ensures
        height == image_rows(*canvas).len(),
{
    canvas.image.height()
}

/// `RgbImage::into_raw` gives the samples of the image: row after row, pixel after pixel, red,
/// green and blue.
#[verifier::external_body]
fn into_raw(canvas: Canvas) -> (raw: Vec<u8>)
    ensures
        raw@ == samples(image_rows(canvas), image_width(canvas)),
{
    canvas.image.into_raw()
}

impl View for Canvas {
    type V = Seq<Seq<(u8, u8, u8)>>;

    /// The rows of the image from the top down, each with its pixels from the left.
    open spec fn view(&self) -> Seq<Seq<(u8, u8, u8)>> {
        image_rows(*self)
    }
}

impl Canvas {
    /// The width of the image.
    pub open spec fn spec_width(&self) -> nat {
        image_width(*self)
    }

    /// The height of the image.
    pub open spec fn spec_height(&self) -> nat {
        self@.len()
    }

    /// Every row is as long as the image is wide, and the image fits into memory.
    pub open spec fn wf(&self) -> bool {
        &&& is_rectangle(*self)
        &&& 3 * self.spec_width() * self.spec_height() <= isize::MAX
        &&& self.spec_width() <= u32::MAX
        &&& self.spec_height() <= u32::MAX
    }

    /// Every row is as long as the image is wide.
    pub proof fn lemma_rows(&self, y: int)
        requires
            self.wf(),
            0 <= y < self.spec_height(),
        ensures
            self@[y].len() == self.spec_width(),
    {
    }

    /// The side of the greatest square that the image holds.
    pub open spec fn spec_image_size(&self) -> nat {
        if self.spec_width() <= self.spec_height() {
            self.spec_width()
        } else {
            self.spec_height()
        }
    }

    /// A black image of the given size.
    pub fn new(width: u32, height: u32) -> (canvas: Self)
        requires
            3 * width * height <= isize::MAX,
        ensures
            canvas.wf(),
            canvas.spec_width() == width,
            canvas.spec_height() == height,
            forall|x: int, y: int|
                0 <= x < width && 0 <= y < height ==> (#[trigger] canvas@[y][x]) == (
                    0u8,
                    0u8,
                    0u8,
                ),
    {
        filled(width, height, (0, 0, 0))
    }

    /// The width of the image.
    pub fn width(&self) -> (width: u32)
        ensures
            width == self.spec_width(),
    {
        width(self)
    }

    /// The height of the image.
    pub fn height(&self) -> (height: u32)
        ensures
            height == self.spec_height(),
    {
        height(self)
    }

    /// The samples of the image: row after row from the top, pixel after pixel from the left,
    /// red, green and blue.
    pub fn into_raw(self) -> (raw: Vec<u8>)
        ensures
            raw@ == samples(self@, self.spec_width()),
    {
        into_raw(self)
    }

    /// The side of the greatest square that the image holds.
    pub fn image_size(&self) -> (size: i32)
        requires
            self.wf(),
        ensures
            size == self.spec_image_size(),
    {
        let width = width(self);
        let height = height(self);
        let size = if width <= height {
            width
        } else {
            height
        };
        assert(size <= i32::MAX) by (nonlinear_arith)
            requires
                3 * width * height <= isize::MAX,
                size <= width,
                size <= height,
                isize::MAX <= 0x7fff_ffff_ffff_ffff,
        {
        }
        size as i32
    }

    /// The image with the pixel in column `x` of row `y` set to `pixel`.
    pub open spec fn with_pixel(&self, x: int, y: int, pixel: (u8, u8, u8)) -> Seq<
        Seq<(u8, u8, u8)>,
    > {
        self@.update(y, self@[y].update(x, pixel))
    }

    /// Draws a star as it is seen from above: `x` and `y` are its place in pixels to the right
    /// of and below the middle of the greatest square that the image holds. A star outside
    /// that square is not drawn. Says whether it was drawn.
    pub fn draw_particle_topdown(&mut self, x: i32, y: i32, pixel: (u8, u8, u8)) -> (drawn: bool)
        requires
            old(self).wf(),
        ensures
            final(self).wf(),
            final(self).spec_width() == old(self).spec_width(),
            final(self).spec_height() == old(self).spec_height(),
            drawn == (0 <= x + old(self).spec_image_size() / 2 < old(self).spec_image_size() && 0
                <= y + old(self).spec_image_size() / 2 < old(self).spec_image_size()),
            final(self)@ == if drawn {
                old(self).with_pixel(
                    x + old(self).spec_image_size() / 2,
                    y + old(self).spec_image_size() / 2,
                    pixel,
                )
            } else {
                old(self)@
            },
    {
        let image_size = self.image_size() as i64;
        let x = x as i64 + image_size / 2;
        let y = y as i64 + image_size / 2;
        if x < 0 || x >= image_size || y < 0 || y >= image_size {
            return false;
        }
        put_pixel(self, x as u32, y as u32, pixel);
        assert(is_rectangle(*self));
        true
    }

    /// Draws a star as it is seen in the sky, in column `x` of row `y`.
    pub fn draw_particle_skyview(&mut self, x: u32, y: u32, pixel: (u8, u8, u8))
        requires
            old(self).wf(),
            x < old(self).spec_width(),
            y < old(self).spec_height(),
        ensures
            final(self).wf(),
            final(self).spec_width() == old(self).spec_width(),
            final(self).spec_height() == old(self).spec_height(),
            final(self)@ == old(self).with_pixel(x as int, y as int, pixel),
    {
        put_pixel(self, x, y, pixel);
        assert(is_rectangle(*self));
    }
}

} // verus!
