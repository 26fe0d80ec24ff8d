//! Padding an image to a square and scaling the square to the pixels of a zoom level.
use vstd::prelude::*;

use crate::grid::{num_tiles, tiles_per_side, TILE_SIZE};
use crate::raster::{
    cropped, lemma_picture_of, lemma_same_pixels, picture_of, pixel_of, row_fits, Picture, Raster,
    Rgba,
};

verus! {

/// Sides of this many pixels or more are not resampled: the filter places pixels in single
/// precision, and could place one so far off that no pixel of the image is near it.
pub const RESAMPLE_SIDE_LIMIT: u32 = 0x40_0000;

/// What blending a partly transparent pixel `top` into `bottom` gives: the pixel that `bottom`
/// holds after the `blend` method of `image::Rgba<u8>`, which composites in single precision and
/// cuts each channel down to a whole number.
pub uninterp spec fn blended(bottom: (u8, u8, u8, u8), top: (u8, u8, u8, u8)) -> (u8, u8, u8, u8);

/// The pixel seen where `top` is laid over `bottom`: a fully transparent pixel shows what is
/// below it, and an opaque one hides it.
pub open spec fn over(bottom: Rgba, top: Rgba) -> Rgba {
    if top.3 == 0 {
        bottom
    } else if top.3 == 255 {
        top
    } else {
        blended(bottom, top)
    }
}

/// Calls `image::imageops::overlay` on two RGBA images, the upper one with its top left corner in
/// column `x` of row `y` of the lower one.
///
/// Taken on trust: pixels of the lower image that do not lie under the upper one stay as they are;
/// each of the others becomes what `image::Rgba::blend` makes of the two pixels, which leaves the
/// lower pixel where the upper one's alpha is 0 and gives the upper pixel where its alpha is 255.
#[verifier::external_body]
fn overlay(
    bottom: Vec<u8>,
    bottom_width: u32,
    bottom_height: u32,
    top: &Vec<u8>,
    top_width: u32,
    top_height: u32,
    x: u32,
    y: u32,
) -> (out: Vec<u8>)
    requires
        bottom@.len() == 4 * (bottom_width * bottom_height),
        top@.len() == 4 * (top_width * top_height),
        row_fits(bottom_width as int),
        row_fits(top_width as int),
    ensures
        out@.len() == bottom@.len(),
        forall|a: int, b: int|
            0 <= a < bottom_width && 0 <= b < bottom_height && !(x <= a < x + top_width && y <= b
                < y + top_height) ==> #[trigger] pixel_of(out@, bottom_width as int, a, b)
                == pixel_of(bottom@, bottom_width as int, a, b),
        forall|a: int, b: int|
            0 <= a < bottom_width && 0 <= b < bottom_height && x <= a < x + top_width && y <= b < y
                + top_height && pixel_of(top@, top_width as int, a - x, b - y).3 == 0
                ==> #[trigger] pixel_of(out@, bottom_width as int, a, b) == pixel_of(
                bottom@,
                bottom_width as int,
                a,
                b,
            ),
        forall|a: int, b: int|
            0 <= a < bottom_width && 0 <= b < bottom_height && x <= a < x + top_width && y <= b < y
                + top_height && pixel_of(top@, top_width as int, a - x, b - y).3 == 255
                ==> #[trigger] pixel_of(out@, bottom_width as int, a, b) == pixel_of(
                top@,
                top_width as int,
                a - x,
                b - y,
            ),
        forall|a: int, b: int|
            0 <= a < bottom_width && 0 <= b < bottom_height && x <= a < x + top_width && y <= b < y
                + top_height && 0 < pixel_of(top@, top_width as int, a - x, b - y).3 < 255
                ==> #[trigger] pixel_of(out@, bottom_width as int, a, b) == blended(
                pixel_of(bottom@, bottom_width as int, a, b),
                pixel_of(top@, top_width as int, a - x, b - y),
            ),
{
    let mut canvas = image::RgbaImage::from_raw(bottom_width, bottom_height, bottom).unwrap();
    let top = image::RgbaImage::from_raw(top_width, top_height, top.clone()).unwrap();
    image::imageops::overlay(&mut canvas, &top, x as i64, y as i64);
    canvas.into_raw()
}

/// The longer side of a picture.
pub open spec fn longer_side(pic: Picture) -> int {
    if pic.width >= pic.height {
        pic.width
    } else {
        pic.height
    }
}

/// `pic` laid over the middle of a square of the colour `bg` that is as wide as the longer side
/// of `pic`.
pub open spec fn squared(pic: Picture, bg: Rgba) -> Picture {
    let size = longer_side(pic);
    let left = (size - pic.width) / 2;
    let top = (size - pic.height) / 2;
    picture_of(
        size,
        size,
        |x: int, y: int|
            if pic.has(x - left, y - top) {
                over(bg, pic.pixel(x - left, y - top))
            } else {
                bg
            },
    )
}

/// Whether the pixels of a square over the longer side of `pic` fit in a vector.
pub open spec fn square_fits(pic: Picture) -> bool {
    4 * (longer_side(pic) * longer_side(pic)) <= isize::MAX
}

/// A row of a square whose pixels fit in a vector can be counted.
proof fn lemma_square_row_fits(side: int)
    requires
        0 <= side,
        4 * (side * side) <= isize::MAX,
    ensures
        row_fits(side),
{
    assert(side <= side * side) by (nonlinear_arith)
        requires
            0 <= side,
    ;
}

/// Tells whether [`make_square`] can be called.
pub fn can_square(img: &Raster) -> (yes: bool)
    ensures
        yes == square_fits(img@),
{
    let width: u32 = img.width();
    let height: u32 = img.height();
    let size: u32 = if width >= height { width } else { height };
    assert(0 <= size * size <= 0xffff_ffff * 0xffff_ffff) by (nonlinear_arith)
        requires
            0 <= size <= 0xffff_ffff,
    ;
    4 * (size as u128 * size as u128) <= isize::MAX as u128
}

/// Makes the image square by padding it with the background colour: the image is laid over the
/// middle of a square of that colour.
pub fn make_square(img: &Raster, bg: Rgba) -> (res: Raster)
    requires
        square_fits(img@),
    ensures
        res@ == squared(img@, bg),
{
    let width: u32 = img.width();
    let height: u32 = img.height();
    let size: u32 = if width >= height { width } else { height };
    proof {
        lemma_square_row_fits(size as int);
    }
    let canvas = Raster::filled(size, size, bg);
    let left: u32 = (size - width) / 2;
    let top: u32 = (size - height) / 2;
    let ghost plain = |x: int, y: int| bg;
    let ghost below = canvas@;
    let bytes = overlay(canvas.into_bytes(), size, size, img.bytes(), width, height, left, top);
    let res = Raster::from_raw(size, size, bytes);
    proof {
        let pic = img@;
        let f = |x: int, y: int|
            if pic.has(x - left, y - top) {
                over(bg, pic.pixel(x - left, y - top))
            } else {
                bg
            };
        lemma_picture_of(size as int, size as int, plain);
        lemma_picture_of(size as int, size as int, f);
        let made = Picture { width: size as int, height: size as int, bytes: bytes@ };
        let goal = squared(pic, bg);
        assert(goal == picture_of(size as int, size as int, f));
        assert(bytes@.take(4 * (size * size)) =~= bytes@);
        assert forall|x: int, y: int| made.has(x, y) implies made.pixel(x, y) == #[trigger] goal.pixel(
            x,
            y,
        ) by {
            assert(goal.pixel(x, y) == f(x, y));
            assert(below.pixel(x, y) == bg);
            assert(pixel_of(bytes@, size as int, x, y) == made.pixel(x, y));
        }
        lemma_same_pixels(made, goal);
    }
    res.unwrap()
}

/// Whether `out` is an outcome of resampling an RGBA picture of `width` by `height` pixels with
/// the Lanczos filter of `image::DynamicImage::resize_exact` to `new_width` by `new_height`
/// pixels. The filter takes sines in single precision, whose last bits differ between machines,
/// so that more than one outcome is possible.
pub uninterp spec fn is_resampling(
    bytes: Seq<u8>,
    width: u32,
    height: u32,
    new_width: u32,
    new_height: u32,
    out: Seq<u8>,
) -> bool;

/// Calls `image::DynamicImage::resize_exact` with `FilterType::Lanczos3` on an RGBA image.
///
/// Taken on trust: the result has the new size, is a copy where the size stays the same, is
/// transparent black where there is no pixel to sample from, and otherwise is one of the outcomes
/// that [`is_resampling`] stands for. Which pixels the filter computes is left unsaid.
#[verifier::external_body]
fn resample(bytes: Vec<u8>, width: u32, height: u32, new_width: u32, new_height: u32) -> (out: Vec<
    u8,
>)
    requires
        bytes@.len() == 4 * (width * height),
        width < RESAMPLE_SIDE_LIMIT,
        height < RESAMPLE_SIDE_LIMIT,
        row_fits(width as int),
        row_fits(new_width as int),
        16 * (width * new_height) <= isize::MAX,
        4 * (new_width * new_height) <= isize::MAX,
    ensures
        out@.len() == 4 * (new_width * new_height),
        new_width == width && new_height == height ==> out@ == bytes@,
        width == 0 || height == 0 ==> forall|k: int| 0 <= k < out@.len() ==> out@[k] == 0,
        is_resampling(bytes@, width, height, new_width, new_height, out@),
{
    let img = image::RgbaImage::from_raw(width, height, bytes).unwrap();
    let filter = image::imageops::FilterType::Lanczos3;
    image::DynamicImage::ImageRgba8(img).resize_exact(new_width, new_height, filter).into_rgba8().into_raw()
}

/// The side of the whole map at a zoom level, in pixels.
pub open spec fn map_side(zoom: nat) -> int {
    TILE_SIZE * tiles_per_side(zoom)
}

/// Whether a picture can be padded to a square and scaled to the pixels of a zoom level: the new
/// side is in range, and the pixels of each step fit in a vector.
pub open spec fn scalable(pic: Picture, zoom: u32) -> bool {
    &&& zoom < 24
    &&& longer_side(pic) < RESAMPLE_SIDE_LIMIT
    &&& square_fits(pic)
    &&& 16 * (longer_side(pic) * map_side(zoom as nat)) <= isize::MAX
    &&& 4 * (map_side(zoom as nat) * map_side(zoom as nat)) <= isize::MAX
}

/// Tells whether [`scale_for_zoom`] can be called.
pub fn can_scale(img: &Raster, zoom: u32) -> (yes: bool)
    ensures
        yes == scalable(img@, zoom),
{
    let width: u32 = img.width();
    let height: u32 = img.height();
    let size: u32 = if width >= height { width } else { height };
    if zoom >= 24 || size >= RESAMPLE_SIDE_LIMIT {
        return false;
    }
    proof {
        vstd::arithmetic::power2::lemma2_to64();
        vstd::arithmetic::power2::lemma_pow2_strictly_increases(zoom as nat, 24);
    }
    let side: u64 = TILE_SIZE as u64 * num_tiles(zoom) as u64;
    assert(0 <= size * size <= 0x40_0000 * 0x40_0000 && 0 <= size * side <= 0x40_0000
        * 0x1_0000_0000 && 0 <= side * side <= 0x1_0000_0000 * 0x1_0000_0000) by (nonlinear_arith)
        requires
            0 <= size <= 0x40_0000,
            0 <= side <= 0x1_0000_0000,
    ;
    let max: u128 = isize::MAX as u128;
    4 * (size as u128 * size as u128) <= max && 16 * (size as u128 * side as u128) <= max && 4 * (
    side as u128 * side as u128) <= max
}

/// Whether `scaled` is an outcome of padding `pic` to a square and scaling that to the pixels of a
/// zoom level: the square itself where it has the right size, clear pixels where there is nothing
/// to scale, and otherwise a resampling of the square.
pub open spec fn scales_to(pic: Picture, bg: Rgba, zoom: u32, scaled: Picture) -> bool {
    let size = longer_side(pic);
    let side = map_side(zoom as nat);
    &&& scaled.wf()
    &&& scaled.width == side
    &&& scaled.height == side
    &&& is_resampling(
        squared(pic, bg).bytes,
        size as u32,
        size as u32,
        side as u32,
        side as u32,
        scaled.bytes,
    )
    &&& size == side ==> scaled == squared(pic, bg)
    &&& size == 0 ==> scaled == picture_of(side, side, |x: int, y: int| (0u8, 0u8, 0u8, 0u8))
}

/// Pads the image to a square and scales that to the pixels of a zoom level.
pub fn scale_for_zoom(img: &Raster, bg: Rgba, zoom: u32) -> (res: Raster)
    requires
        scalable(img@, zoom),
    ensures
        scales_to(img@, bg, zoom, res@),
{
    let square = make_square(img, bg);
    let size: u32 = square.width();
    proof {
        vstd::arithmetic::power2::lemma2_to64();
        vstd::arithmetic::power2::lemma_pow2_strictly_increases(zoom as nat, 24);
    }
    let side: u32 = TILE_SIZE * num_tiles(zoom);
    proof {
        lemma_square_row_fits(size as int);
        lemma_square_row_fits(side as int);
    }
    let bytes = resample(square.into_bytes(), size, size, side, side);
    assert(bytes@.take(4 * (side * side)) =~= bytes@);
    let res = Raster::from_raw(side, side, bytes);
    proof {
        let clear = |x: int, y: int| (0u8, 0u8, 0u8, 0u8);
        if size == 0 {
            assert(bytes@ =~= picture_of(side as int, side as int, clear).bytes);
        }
    }
    res.unwrap()
}

/// The tile in column `x` of row `y` of the scaled map.
pub open spec fn tile_of(scaled: Picture, x: int, y: int) -> Picture {
    cropped(scaled, x * TILE_SIZE, y * TILE_SIZE, TILE_SIZE as int, TILE_SIZE as int)
}

/// Cuts the tile in column `x` of row `y` out of the scaled map.
pub fn cut_tile(scaled: &Raster, x: u32, y: u32) -> (tile: Raster)
    requires
        x * TILE_SIZE <= u32::MAX,
        y * TILE_SIZE <= u32::MAX,
    ensures
        tile@ == tile_of(scaled@, x as int, y as int),
{
    scaled.crop(x * TILE_SIZE, y * TILE_SIZE, TILE_SIZE, TILE_SIZE)
}

} // verus!
