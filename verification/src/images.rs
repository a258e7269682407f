//! Decoded RGBA rasters: reading pixels for half-block thumbnails and
//! handing rasters to the `image` crate.

use vstd::prelude::*;

verus! {

/// A decoded image: `width * height` pixels of four bytes (red, green,
/// blue, alpha), row by row.
#[derive(Debug, Clone)]
pub struct RgbaImage {
    pub width: u32,
    pub height: u32,
    pub pixels: Vec<u8>,
}

/// An opaque colour.
pub type Rgb = (u8, u8, u8);

/// The colour of pixel `(x, y)`; `None` where the buffer ends early or the
/// pixel is mostly transparent (alpha below 128), so that the background
/// shows through.
pub open spec fn pixel_spec(pixels: Seq<u8>, width: u32, y: u32, x: u32) -> Option<Rgb> {
    let idx = (y * width + x) * 4;
    if idx + 3 >= pixels.len() {
        None
    } else if pixels[idx + 3] < 128 {
        None
    } else {
        Some((pixels[idx], pixels[idx + 1], pixels[idx + 2]))
    }
}

/// The colour of pixel `(x, y)`, or `None` for the background.
pub fn pixel_rgb(img: &RgbaImage, y: u32, x: u32) -> (r: Option<Rgb>)
    ensures
        r == pixel_spec(img.pixels@, img.width, y, x),
{
    // An index past `usize` lies past the buffer too.
    let len = img.pixels.len();
    let ghost big = (y * img.width + x) * 4 + 3;
    assert(big >= y * img.width + x && big >= (y * img.width + x) * 4);
    let idx = match (y as usize).checked_mul(img.width as usize) {
        Some(a) => match a.checked_add(x as usize) {
            Some(b) => match b.checked_mul(4) {
                Some(c) => c,
                None => {
                    assert(big >= len);
                    return None;
                },
            },
            None => {
                assert(big >= len);
                return None;
            },
        },
        None => {
            assert(y * img.width + x >= y * img.width);
            assert(big >= len);
            return None;
        },
    };
    if idx >= len || len - idx <= 3 {
        return None;
    }
    let alpha = img.pixels[idx + 3];
    if alpha < 128 {
        None
    } else {
        Some((img.pixels[idx], img.pixels[idx + 1], img.pixels[idx + 2]))
    }
}

/// Pixels are stored row by row, four bytes each (red, green, blue,
/// alpha): pixel `(x, y)` of a `width` by `height` raster held in at least
/// `4 * width * height` bytes starts at byte `4 * (width * y + x)`. It shows
/// its colour when its alpha is at least 128 and the background otherwise.
pub proof fn law_pixel_layout(p: Seq<u8>, width: u32, height: u32, y: u32, x: u32)
    requires
        x < width,
        y < height,
        p.len() >= 4 * width * height,
    ensures
        ({
            let at = 4 * (width * y + x);
            &&& at + 3 < p.len()
            &&& p[at + 3] >= 128 ==> pixel_spec(p, width, y, x) == Some((p[at], p[at + 1], p[at + 2]))
            &&& p[at + 3] < 128 ==> pixel_spec(p, width, y, x) is None
        }),
{
    assert(width * y + x < width * height) by (nonlinear_arith)
        requires
            x < width,
            y < height,
    {
        assert(width * y + x < width * y + width);
        assert(width * y + width == width * (y + 1));
        assert(width * (y + 1) <= width * height);
    }
    assert((y * width + x) * 4 == 4 * (width * y + x)) by (nonlinear_arith);
    assert(4 * width * height == 4 * (width * height)) by (nonlinear_arith);
    let at = 4 * (width * y + x);
    assert(at + 3 < p.len());
}

/// Neighbouring pixels of a row lie four bytes apart, and the pixel below
/// lies one row (`4 * width` bytes) further on.
pub proof fn law_pixel_neighbours(width: u32, y: u32, x: u32)
    ensures
        4 * (width * y + (x + 1)) == 4 * (width * y + x) + 4,
        4 * (width * (y + 1) + x) == 4 * (width * y + x) + 4 * width,
{
    assert(width * (y + 1) == width * y + width) by (nonlinear_arith);
}

/// One terminal cell of a half-block rendering: the colour of its upper
/// and of its lower pixel (`None` for the background).
pub type HalfBlock = (Option<Rgb>, Option<Rgb>);

/// Cell `x` of cell row `r`: pixel rows `2r` and `2r + 1`; below the last
/// pixel row the background shows.
pub open spec fn cell_spec(img: RgbaImage, r: int, x: int) -> HalfBlock {
    (
        pixel_spec(img.pixels@, img.width, (2 * r) as u32, x as u32),
        if 2 * r + 1 < img.height {
            pixel_spec(img.pixels@, img.width, (2 * r + 1) as u32, x as u32)
        } else {
            None
        },
    )
}

/// A half-block cell shows two pixels of one column: its upper half is the
/// pixel of row `2r`, its lower half the pixel of row `2r + 1`, or the
/// background below the last row; each read from its place in the buffer.
pub proof fn law_cell_pixels(img: RgbaImage, r: u32, x: u32)
    requires
        x < img.width,
        2 * r < img.height,
        img.pixels@.len() >= 4 * img.width * img.height,
    ensures
        ({
            let p = img.pixels@;
            let w = img.width;
            let top = 4 * (w * (2 * r) + x);
            let bottom = 4 * (w * (2 * r + 1) + x);
            &&& p[top + 3] >= 128 ==> cell_spec(img, r as int, x as int).0 == Some((p[top], p[top + 1], p[top + 2]))
            &&& p[top + 3] < 128 ==> cell_spec(img, r as int, x as int).0 is None
            &&& 2 * r + 1 >= img.height ==> cell_spec(img, r as int, x as int).1 is None
            &&& 2 * r + 1 < img.height && p[bottom + 3] >= 128 ==> cell_spec(img, r as int, x as int).1
                == Some((p[bottom], p[bottom + 1], p[bottom + 2]))
            &&& 2 * r + 1 < img.height && p[bottom + 3] < 128 ==> cell_spec(img, r as int, x as int).1 is None
        }),
{
    let y0 = (2 * r) as u32;
    law_pixel_layout(img.pixels@, img.width, img.height, y0, x);
    if 2 * r + 1 < img.height {
        let y1 = (2 * r + 1) as u32;
        law_pixel_layout(img.pixels@, img.width, img.height, y1, x);
    }
}

/// Half-block cells of an image: each cell row covers two pixel rows, so
/// there are `(height + 1) / 2` rows of `width` cells.
pub fn half_block_cells(img: &RgbaImage) -> (rows: Vec<Vec<HalfBlock>>)
    ensures
        rows@.len() == (img.height as int + 1) / 2,
        forall|r: int|
            0 <= r < rows@.len() ==> #[trigger] rows@[r]@.len() == img.width && forall|x: int|
                0 <= x < img.width ==> #[trigger] rows@[r]@[x] == cell_spec(*img, r, x),
{
    let w = img.width;
    let h = img.height;
    let n = h / 2 + h % 2;
    let mut out: Vec<Vec<HalfBlock>> = Vec::new();
    let mut r: u32 = 0;
    while r < n
        invariant
            w == img.width,
            h == img.height,
            n == (h as int + 1) / 2,
            0 <= r <= n,
            out@.len() == r,
            forall|q: int|
                0 <= q < r ==> #[trigger] out@[q]@.len() == w && forall|x: int|
                    0 <= x < w ==> #[trigger] out@[q]@[x] == cell_spec(*img, q, x),
        decreases n - r,
    {
        let mut row: Vec<HalfBlock> = Vec::new();
        let mut x: u32 = 0;
        while x < w
            invariant
                w == img.width,
                h == img.height,
                n == (h as int + 1) / 2,
                0 <= r < n,
                0 <= x <= w,
                row@.len() == x,
                forall|k: int| 0 <= k < x ==> #[trigger] row@[k] == cell_spec(*img, r as int, k),
            decreases w - x,
        {
            let top = pixel_rgb(img, r * 2, x);
            let bottom = if r * 2 + 1 < h {
                pixel_rgb(img, r * 2 + 1, x)
            } else {
                None
            };
            row.push((top, bottom));
            x = x + 1;
        }
        out.push(row);
        r = r + 1;
    }
    out
}

/// `image::DynamicImage`, handed on opaquely to the image widgets.
#[verifier::external_type_specification]
#[verifier::external_body]
pub struct ExDynamicImage(image::DynamicImage);

/// What the `image` crate makes of a raster it accepts: an 8-bit RGBA image
/// of the given size over the given bytes.
pub uninterp spec fn rgba_dynamic(width: u32, height: u32, pixels: Seq<u8>) -> image::DynamicImage;

/// Whether a buffer of `len` bytes holds a `width` by `height` RGBA raster.
pub open spec fn raster_fits(width: u32, height: u32, len: nat) -> bool {
    4 * width * height <= len
}

/// `image::RgbaImage::from_raw`, turned into a `DynamicImage` (the
/// `ImageRgba8` variant). The crate accepts the buffer exactly when
/// `4 * width * height` bytes fit in `usize` and in the buffer, and then
/// keeps the buffer and the dimensions as given.
#[verifier::external_body]
fn rgba_from_raw(width: u32, height: u32, pixels: Vec<u8>) -> (r: Option<image::DynamicImage>)
    ensures
        r == (if raster_fits(width, height, pixels@.len()) {
            Some(rgba_dynamic(width, height, pixels@))
        } else {
            None
        }),
{
    image::RgbaImage::from_raw(width, height, pixels).map(image::DynamicImage::from)
}

/// Convert a decoded raster into the `image` crate's `DynamicImage`, or
/// `None` when its buffer is too short for its dimensions.
pub fn to_dynamic_image(img: &RgbaImage) -> (r: Option<image::DynamicImage>)
    ensures
        r == (if raster_fits(img.width, img.height, img.pixels@.len()) {
            Some(rgba_dynamic(img.width, img.height, img.pixels@))
        } else {
            None
        }),
{
    let pixels = img.pixels.clone();
    rgba_from_raw(img.width, img.height, pixels)
}

} // verus!
