//! The image buffer of the `image` crate, into which the pixels are placed.
//!
//! Nothing in this module is proved: each contract says what the source of
//! the `image` crate shows of the function that the body calls.
use crate::normalize::Color;
use vstd::prelude::*;

verus! {

/// An image of the `image` crate with three channels of eight bits,
/// `image::RgbImage`. Its pixels can be seen by [`canvas_pixels`] alone.
#[derive(Debug)]
#[verifier::external_body]
pub struct Canvas {
    image: image::RgbImage,
}

/// The width and the height that the image was made with.
pub uninterp spec fn canvas_size(canvas: Canvas) -> (nat, nat);

/// The pixels of the image, row after row from the top, each row from the
/// left: the pixel at `(x, y)` is the one with number `y * width + x`.
pub uninterp spec fn canvas_pixels(canvas: Canvas) -> Seq<Color>;

/// `image::ImageBuffer::new`: an image of the given size, in which every
/// channel of every pixel is zero.
///
/// The function panics where the number of bytes, three for each pixel,
/// overflows `usize`, and the allocation of a vector fails above
/// `isize::MAX` bytes: such sizes are left out.
#[verifier::external_body]
pub(crate) fn blank_canvas(width: u32, height: u32) -> (canvas: Canvas)
    requires
        3 * width * height <= isize::MAX,
    ensures
        canvas_size(canvas) == (width as nat, height as nat),
        canvas_pixels(canvas) == Seq::new((width * height) as nat, |number: int| (0u8, 0u8, 0u8)),
{
    Canvas { image: image::ImageBuffer::new(width, height) }
}

/// `image::ImageBuffer::get_pixel_mut`, written through: the pixel at
/// `(x, y)` takes the colour, and every other pixel and the size stay.
///
/// The function panics where `(x, y)` lies outside the image: such
/// coordinates are left out.
#[verifier::external_body]
pub(crate) fn set_pixel(canvas: &mut Canvas, x: u32, y: u32, color: Color)
    requires
        x < canvas_size(*old(canvas)).0,
        y < canvas_size(*old(canvas)).1,
    ensures
        canvas_size(*final(canvas)) == canvas_size(*old(canvas)),
        canvas_pixels(*final(canvas)) == canvas_pixels(*old(canvas)).update(
            y * canvas_size(*old(canvas)).0 + x,
            color,
        ),
{
    *canvas.image.get_pixel_mut(x, y) = image::Rgb([color.0, color.1, color.2]);
}

/// `image::ImageBuffer::into_raw`: the bytes of the image, three for each
/// pixel in the order of the pixels: red, green, blue.
#[verifier::external_body]
pub(crate) fn into_bytes(canvas: Canvas) -> (bytes: Vec<u8>)
    ensures
        bytes@.len() == 3 * canvas_pixels(canvas).len(),
        forall|number: int|
            0 <= number < canvas_pixels(canvas).len() ==> #[trigger] canvas_pixels(canvas)[number]
                == (bytes@[3 * number], bytes@[3 * number + 1], bytes@[3 * number + 2]),
{
    canvas.image.into_raw()
}

} // verus!
