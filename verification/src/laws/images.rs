//! What the operations on images give, pixel by pixel and byte by byte.
use vstd::arithmetic::power2::pow2;
use vstd::prelude::*;

use crate::encode::{
    encodable, encodes_to, extension, is_avif_encoding, is_webp_outcome, jpeg_encoding,
    AvifSupport, EncodeError, OutputFormat,
};
use crate::raster::{
    cropped, lemma_picture_of, picture_of, row_fits, without_alpha, Picture,
    Rgba,
};
use crate::square::{
    blended, is_resampling, longer_side, map_side, scalable, scales_to, square_fits, squared,
    tile_of,
};

use crate::laws::law_square_centres_the_image;

verus! {

/// Pixels are stored row by row, in four bytes each: red, green, blue and alpha.
pub proof fn law_pixels_are_stored_row_by_row(pic: Picture, x: int, y: int)
    ensures
        pic.has(x, y) <==> 0 <= x < pic.width && 0 <= y < pic.height,
        pic.pixel(x, y).0 == pic.bytes[4 * (y * pic.width + x)],
        pic.pixel(x, y).1 == pic.bytes[4 * (y * pic.width + x) + 1],
        pic.pixel(x, y).2 == pic.bytes[4 * (y * pic.width + x) + 2],
        pic.pixel(x, y).3 == pic.bytes[4 * (y * pic.width + x) + 3],
        pic.wf() <==> 0 <= pic.width <= u32::MAX && 0 <= pic.height <= u32::MAX && pic.bytes.len()
            == 4 * (pic.width * pic.height) && 4 * pic.width <= usize::MAX,
        row_fits(pic.width) <==> 4 * pic.width <= usize::MAX,
{
}

/// A filled picture has its colour in every pixel.
pub proof fn law_filled_pictures_have_one_colour(width: int, height: int, color: Rgba, k: int)
    requires
        0 <= width,
        0 <= height,
    ensures
        ({
            let pic = picture_of(width, height, |x: int, y: int| color);
            &&& pic.width == width
            &&& pic.height == height
            &&& pic.bytes.len() == 4 * (width * height)
            &&& 0 <= k < width * height ==> pic.bytes[4 * k] == color.0 && pic.bytes[4 * k + 1]
                == color.1 && pic.bytes[4 * k + 2] == color.2 && pic.bytes[4 * k + 3] == color.3
        }),
{
    assert(0 <= width * height) by (nonlinear_arith)
        requires
            0 <= width,
            0 <= height,
    ;
}

/// A crop holds the pixels of the picture from its corner on, as far as the picture goes.
pub proof fn law_crops_keep_pixels(
    pic: Picture,
    x: int,
    y: int,
    width: int,
    height: int,
    a: int,
    b: int,
)
    requires
        pic.wf(),
        0 <= x,
        0 <= y,
        0 <= width,
        0 <= height,
    ensures
        ({
            let crop = cropped(pic, x, y, width, height);
            &&& crop.wf()
            &&& crop.has(a, b) <==> 0 <= a < width && 0 <= b < height && x + a < pic.width && y + b
                < pic.height
            &&& crop.has(a, b) ==> crop.pixel(a, b) == pic.pixel(x + a, y + b)
            &&& x + width <= pic.width ==> crop.width == width
            &&& y + height <= pic.height ==> crop.height == height
            &&& x <= pic.width <= x + width ==> crop.width == pic.width - x
            &&& y <= pic.height <= y + height ==> crop.height == pic.height - y
            &&& pic.width <= x ==> crop.width == 0
            &&& pic.height <= y ==> crop.height == 0
        }),
{
    let left = if x <= pic.width {
        x
    } else {
        pic.width
    };
    let top = if y <= pic.height {
        y
    } else {
        pic.height
    };
    let cols = if width <= pic.width - left {
        width
    } else {
        pic.width - left
    };
    let rows = if height <= pic.height - top {
        height
    } else {
        pic.height - top
    };
    let f = |i: int, j: int| pic.pixel(left + i, top + j);
    lemma_picture_of(cols, rows, f);
    assert(cropped(pic, x, y, width, height) == picture_of(cols, rows, f));
}

/// The tile in column `x` of row `y` of a map holds its 256 by 256 pixels from column `256 * x` of
/// row `256 * y` on.
pub proof fn law_tiles_hold_their_part_of_the_map(
    scaled: Picture,
    zoom: nat,
    x: int,
    y: int,
    i: int,
    j: int,
)
    requires
        scaled.wf(),
        scaled.width == 256 * pow2(zoom),
        scaled.height == 256 * pow2(zoom),
        0 <= x < pow2(zoom),
        0 <= y < pow2(zoom),
    ensures
        tile_of(scaled, x, y).wf(),
        tile_of(scaled, x, y).width == 256,
        tile_of(scaled, x, y).height == 256,
        0 <= i < 256 && 0 <= j < 256 ==> tile_of(scaled, x, y).pixel(i, j) == scaled.pixel(
            256 * x + i,
            256 * y + j,
        ),
{
    law_crops_keep_pixels(scaled, 256 * x, 256 * y, 256, 256, i, j);
}

/// Without alpha, the red, green and blue of each pixel are left in their order.
pub proof fn law_red_green_and_blue_are_kept(pic: Picture, k: int)
    requires
        pic.wf(),
    ensures
        without_alpha(pic.bytes).len() == 3 * (pic.width * pic.height),
        0 <= k < pic.width * pic.height ==> without_alpha(pic.bytes)[3 * k] == pic.bytes[4 * k]
            && without_alpha(pic.bytes)[3 * k + 1] == pic.bytes[4 * k + 1] && without_alpha(
            pic.bytes,
        )[3 * k + 2] == pic.bytes[4 * k + 2],
{
}

/// The square is as wide and high as the longer side of the image.
pub proof fn law_square_has_the_longer_side(pic: Picture, bg: Rgba)
    requires
        pic.wf(),
        4 * pic.height <= usize::MAX,
    ensures
        squared(pic, bg).wf(),
        squared(pic, bg).width == squared(pic, bg).height,
        squared(pic, bg).width >= pic.width,
        squared(pic, bg).width >= pic.height,
        squared(pic, bg).width == pic.width || squared(pic, bg).width == pic.height,
        longer_side(pic) == squared(pic, bg).width,
{
    law_square_centres_the_image(pic, bg);
}

/// The background shows through a fully transparent pixel of the image.
pub proof fn law_background_shows_through_clear_pixels(pic: Picture, bg: Rgba, x: int, y: int)
    requires
        pic.wf(),
        4 * pic.height <= usize::MAX,
        pic.has(x, y),
        pic.pixel(x, y).3 == 0,
    ensures
        squared(pic, bg).pixel(
            (squared(pic, bg).width - pic.width) / 2 + x,
            (squared(pic, bg).height - pic.height) / 2 + y,
        ) == bg,
{
    law_square_centres_the_image(pic, bg);
    lemma_image_is_inside(pic, bg, x, y);
}

/// An opaque pixel of the image hides the background.
pub proof fn law_opaque_pixels_hide_the_background(pic: Picture, bg: Rgba, x: int, y: int)
    requires
        pic.wf(),
        4 * pic.height <= usize::MAX,
        pic.has(x, y),
        pic.pixel(x, y).3 == 255,
    ensures
        squared(pic, bg).pixel(
            (squared(pic, bg).width - pic.width) / 2 + x,
            (squared(pic, bg).height - pic.height) / 2 + y,
        ) == pic.pixel(x, y),
{
    law_square_centres_the_image(pic, bg);
    lemma_image_is_inside(pic, bg, x, y);
}

/// A partly transparent pixel of the image is blended into the background.
pub proof fn law_other_pixels_are_blended(pic: Picture, bg: Rgba, x: int, y: int)
    requires
        pic.wf(),
        4 * pic.height <= usize::MAX,
        pic.has(x, y),
        0 < pic.pixel(x, y).3 < 255,
    ensures
        squared(pic, bg).pixel(
            (squared(pic, bg).width - pic.width) / 2 + x,
            (squared(pic, bg).height - pic.height) / 2 + y,
        ) == blended(bg, pic.pixel(x, y)),
{
    law_square_centres_the_image(pic, bg);
    lemma_image_is_inside(pic, bg, x, y);
}

/// Around the image the square has the colour of the background.
pub proof fn law_background_surrounds_the_image(pic: Picture, bg: Rgba, x: int, y: int)
    requires
        pic.wf(),
        4 * pic.height <= usize::MAX,
        squared(pic, bg).has(x, y),
        ({
            let left = (squared(pic, bg).width - pic.width) / 2;
            let top = (squared(pic, bg).height - pic.height) / 2;
            x < left || left + pic.width <= x || y < top || top + pic.height <= y
        }),
    ensures
        squared(pic, bg).pixel(x, y) == bg,
{
    law_square_centres_the_image(pic, bg);
}

/// A pixel of the image has its place inside the square.
proof fn lemma_image_is_inside(pic: Picture, bg: Rgba, x: int, y: int)
    requires
        pic.wf(),
        4 * pic.height <= usize::MAX,
        pic.has(x, y),
    ensures
        squared(pic, bg).has(
            (squared(pic, bg).width - pic.width) / 2 + x,
            (squared(pic, bg).height - pic.height) / 2 + y,
        ),
{
    law_square_centres_the_image(pic, bg);
}

/// The map of a zoom level shows the whole image, whether that is larger or smaller than the map: it
/// is a resampling of all bytes of the padded square, from the side of the square to the `256 *
/// 2^zoom` pixels of the map.
pub proof fn law_map_is_a_resampling_of_the_whole_square(
    pic: Picture,
    bg: Rgba,
    zoom: u32,
    scaled: Picture,
    size: u32,
    side: u32,
)
    requires
        pic.wf(),
        4 * pic.height <= usize::MAX,
        scales_to(pic, bg, zoom, scaled),
        size == squared(pic, bg).width,
        side == 256 * pow2(zoom as nat),
    ensures
        scaled.width == side,
        scaled.height == side,
        scaled.bytes.len() == 4 * (side * side),
        is_resampling(squared(pic, bg).bytes, size, size, side, side, scaled.bytes),
{
    law_square_has_the_longer_side(pic, bg);
}

/// An image of the size of the map is not changed by scaling, and where there are no pixels to scale
/// the map is clear.
pub proof fn law_maps_that_need_no_resampling(
    pic: Picture,
    bg: Rgba,
    zoom: u32,
    scaled: Picture,
    k: int,
)
    requires
        pic.wf(),
        4 * pic.height <= usize::MAX,
        scales_to(pic, bg, zoom, scaled),
        0 <= k < scaled.bytes.len(),
    ensures
        squared(pic, bg).width == 256 * pow2(zoom as nat) ==> scaled.bytes == squared(pic, bg).bytes,
        squared(pic, bg).width == 0 ==> scaled.bytes[k] == 0,
{
    law_square_has_the_longer_side(pic, bg);
}

/// An image can be squared where the pixels of the square fit in a vector, and scaled where those of
/// the map and of the step between them do, with sides in the range of the resampler.
pub proof fn law_images_that_fit_can_be_scaled(pic: Picture, zoom: u32, size: int, side: int)
    requires
        size == if pic.width >= pic.height {
            pic.width
        } else {
            pic.height
        },
        side == 256 * pow2(zoom as nat),
    ensures
        square_fits(pic) <==> 4 * (size * size) <= isize::MAX,
        scalable(pic, zoom) <==> zoom < 24 && size < 0x40_0000 && 4 * (size * size) <= isize::MAX
            && 16 * (size * side) <= isize::MAX && 4 * (side * side) <= isize::MAX,
        map_side(zoom as nat) == side,
{
}

/// A WebP file is an outcome of the WebP encoder on the bytes of the tile, at the quality asked for.
/// Up to 1024 pixels a side there always is one.
pub proof fn law_webp_files_are_those_of_the_encoder(
    pic: Picture,
    width: u32,
    height: u32,
    quality: u8,
    avif: AvifSupport,
    res: Result<Vec<u8>, EncodeError>,
)
    requires
        pic.width == width,
        pic.height == height,
        encodes_to(pic, OutputFormat::Webp, quality as u32, avif, res),
    ensures
        res matches Ok(file) ==> is_webp_outcome(pic.bytes, width, height, quality, Some(file@)),
        res matches Err(error) ==> error is Webp && is_webp_outcome(
            pic.bytes,
            width,
            height,
            quality,
            None,
        ),
        width <= 1024 && height <= 1024 ==> res is Ok,
{
}

/// A JPEG file is that of the JPEG encoder on the red, green and blue of the pixels, at the quality
/// asked for. There is one exactly where both sides are from 1 to 65535.
pub proof fn law_jpeg_files_are_those_of_the_encoder(
    pic: Picture,
    width: u32,
    height: u32,
    quality: u8,
    avif: AvifSupport,
    rgb: Seq<u8>,
    res: Result<Vec<u8>, EncodeError>,
)
    requires
        pic.wf(),
        pic.width == width,
        pic.height == height,
        rgb.len() == 3 * (width * height),
        forall|k: int, c: int|
            0 <= k < width * height && 0 <= c < 3 ==> rgb[3 * k + c] == #[trigger] pic.bytes[4 * k
                + c],
        encodes_to(pic, OutputFormat::Jpg, quality as u32, avif, res),
    ensures
        res matches Ok(file) ==> file@ == jpeg_encoding(rgb, width, height, quality),
        res matches Err(error) ==> error is Jpeg,
        res is Ok <==> 1 <= width <= 65535 && 1 <= height <= 65535,
{
    let kept = without_alpha(pic.bytes);
    assert forall|i: int| 0 <= i < rgb.len() implies rgb[i] == kept[i] by {
        let k = i / 3;
        let c = i % 3;
        assert(rgb[3 * k + c] == pic.bytes[4 * k + c]);
    }
    assert(kept =~= rgb);
}

/// A JPEG quality above 255 is that of its lowest eight bits.
pub proof fn law_jpeg_quality_wraps(
    pic: Picture,
    quality: u32,
    avif: AvifSupport,
    res: Result<Vec<u8>, EncodeError>,
)
    requires
        quality <= u32::MAX - 256,
    ensures
        encodes_to(pic, OutputFormat::Jpg, quality, avif, res) == encodes_to(
            pic,
            OutputFormat::Jpg,
            (quality + 256) as u32,
            avif,
            res,
        ),
{
}

/// An AVIF file is an outcome of the AVIF encoder on the bytes of the tile, at the quality asked for,
/// where 0 asks for the lowest, which is 1. There is one exactly where both sides are from 1 to
/// 65535, unless AVIF is missing.
pub proof fn law_avif_files_are_those_of_the_encoder(
    pic: Picture,
    width: u32,
    height: u32,
    quality: u8,
    avif: AvifSupport,
    res: Result<Vec<u8>, EncodeError>,
)
    requires
        pic.width == width,
        pic.height == height,
        encodes_to(pic, OutputFormat::Avif, quality as u32, avif, res),
    ensures
        quality >= 1 ==> (res matches Ok(file) ==> is_avif_encoding(
            pic.bytes,
            width,
            height,
            quality,
            file@,
        )),
        quality == 0 ==> (res matches Ok(file) ==> is_avif_encoding(
            pic.bytes,
            width,
            height,
            1,
            file@,
        )),
        res is Ok <==> avif == AvifSupport::Included && 1 <= width <= 65535 && 1 <= height <= 65535,
        res matches Err(error) ==> (error is AvifMissing <==> avif == AvifSupport::Missing) && (
        error is Avif <==> avif == AvifSupport::Included),
{
}

/// Which tiles can be handed to an encoder: for WebP sides from 1 to 16383 and qualities up to 100,
/// for JPEG all, for AVIF all that are not empty at qualities up to 100.
pub proof fn law_what_can_be_encoded(width: u32, height: u32, quality: u32, avif: AvifSupport)
    ensures
        encodable(width as int, height as int, OutputFormat::Webp, quality, avif) <==> 1 <= width
            <= 16383 && 1 <= height <= 16383 && quality <= 100,
        encodable(width as int, height as int, OutputFormat::Jpg, quality, avif),
        encodable(width as int, height as int, OutputFormat::Avif, quality, AvifSupport::Missing),
        encodable(width as int, height as int, OutputFormat::Avif, quality, AvifSupport::Included)
            <==> 1 <= width && 1 <= height && quality <= 100,
{
}

/// The extensions of the formats.
pub proof fn law_extensions_are_those_of_the_formats()
    ensures
        extension(OutputFormat::Webp) == "webp"@,
        extension(OutputFormat::Jpg) == "jpg"@,
        extension(OutputFormat::Avif) == "avif"@,
{
}

} // verus!
