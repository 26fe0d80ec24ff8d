//! Encoding tiles as WebP, JPEG or AVIF files.
use vstd::prelude::*;

use crate::laws::law_extensions_are_distinct;
use crate::raster::{row_fits, without_alpha, Picture, Raster};

verus! {

/// The error type of the `image` crate.
#[verifier::external_type_specification]
#[verifier::external_body]
pub struct ExImageError(image::ImageError);

/// The error type of the `webp` crate.
#[verifier::external_type_specification]
#[verifier::external_body]
pub struct ExWebpError(webp::WebPEncodingError);

/// The error type of the `ravif` crate.
#[verifier::external_type_specification]
#[verifier::external_body]
pub struct ExAvifError(ravif::Error);

/// The file formats in which tiles are written.
#[derive(Clone, Copy, Debug, PartialEq, Eq, Structural)]
pub enum OutputFormat {
    /// WebP (lossy)
    Webp,
    /// JPEG (no alpha channel; alpha is stripped)
    Jpg,
    /// AVIF
    Avif,
}

/// The file name extension of a format.
pub open spec fn extension(format: OutputFormat) -> Seq<char> {
    match format {
        OutputFormat::Webp => "webp"@,
        OutputFormat::Jpg => "jpg"@,
        OutputFormat::Avif => "avif"@,
    }
}

impl OutputFormat {
    /// The file name extension of the format.
    pub fn ext(self) -> (text: &'static str)
        ensures
            text@ == extension(self),
    {
        match self {
            OutputFormat::Webp => "webp",
            OutputFormat::Jpg => "jpg",
            OutputFormat::Avif => "avif",
        }
    }

    /// The format with the given name. A format is named by its file name extension, in small
    /// letters.
    pub fn from_name(name: &str) -> (format: Option<OutputFormat>)
        ensures
            format matches Some(f) ==> name@ == extension(f),
            forall|f: OutputFormat| name@ == #[trigger] extension(f) ==> format == Some(f),
    {
        proof {
            law_extensions_are_distinct(OutputFormat::Webp, OutputFormat::Jpg);
            law_extensions_are_distinct(OutputFormat::Webp, OutputFormat::Avif);
            law_extensions_are_distinct(OutputFormat::Jpg, OutputFormat::Avif);
        }
        if same_text(name, OutputFormat::Webp.ext()) {
            Some(OutputFormat::Webp)
        } else if same_text(name, OutputFormat::Jpg.ext()) {
            Some(OutputFormat::Jpg)
        } else if same_text(name, OutputFormat::Avif.ext()) {
            Some(OutputFormat::Avif)
        } else {
            None
        }
    }
}

/// Whether two texts are the same.
fn same_text(a: &str, b: &str) -> (same: bool)
    ensures
        same == (a@ == b@),
{
    let count: usize = a.unicode_len();
    if count != b.unicode_len() {
        return false;
    }
    let mut i: usize = 0;
    while i < count
        invariant
            i <= count,
            count == a@.len(),
            count == b@.len(),
            forall|k: int| 0 <= k < i ==> a@[k] == b@[k],
        decreases count - i,
    {
        if a.get_char(i) != b.get_char(i) {
            return false;
        }
        i = i + 1;
    }
    assert(a@ =~= b@);
    true
}

/// Whether the program was built to write AVIF.
#[derive(Clone, Copy, Debug, PartialEq, Eq, Structural)]
pub enum AvifSupport {
    /// AVIF is encoded.
    Included,
    /// AVIF is refused.
    Missing,
}

/// Why a tile could not be encoded.
#[derive(Debug)]
pub enum EncodeError {
    /// The WebP encoder refused the tile.
    Webp(webp::WebPEncodingError),
    /// The JPEG encoder refused the tile.
    Jpeg(image::ImageError),
    /// The AVIF encoder refused the tile.
    Avif(ravif::Error),
    /// The program was built without AVIF.
    AvifMissing,
}

/// What is said where AVIF is missing.
pub open spec fn avif_missing_text() -> Seq<char> {
    "AVIF support was not compiled in. Rebuild with `cargo build --features avif` (requires NASM)."@
}

impl EncodeError {
    /// The text of the error: `None` if an encoder gave the error, which then has a text of its
    /// own.
    pub fn message(&self) -> (text: Option<String>)
        ensures
            text is Some <==> self is AvifMissing,
            text matches Some(t) ==> t@ == avif_missing_text(),
    {
        match self {
            EncodeError::AvifMissing => Some(
                "AVIF support was not compiled in. Rebuild with `cargo build --features avif` (requires NASM).".to_owned(),
            ),
            _ => None,
        }
    }
}

/// The longest side of a WebP file.
pub const WEBP_MAX_SIDE: u32 = 16383;

/// The longest side up to which the WebP encoder refuses nothing. The modes of all 16 by 16 blocks
/// of a WebP file must fit in half a megabyte; up to this side they cannot fill it, whatever the
/// pixels are.
pub const WEBP_SAFE_SIDE: u32 = 1024;

/// Whether `file` is an outcome of `webp::Encoder::encode_simple` on an RGBA picture: the bytes of
/// a lossy file, or `None` where the encoder refuses. The encoder takes powers in floating point,
/// whose last bits differ between machines, so that more than one outcome is possible.
pub uninterp spec fn is_webp_outcome(
    bytes: Seq<u8>,
    width: u32,
    height: u32,
    quality: u8,
    file: Option<Seq<u8>>,
) -> bool;

/// Calls `webp::Encoder::from_image`, which takes every RGBA image, and
/// `webp::Encoder::encode_simple`, which encodes with losses.
///
/// Taken on trust: the result is one of the outcomes that [`is_webp_outcome`] stands for, and a
/// picture whose sides are both at most [`WEBP_SAFE_SIDE`] is not refused. Which bytes the file
/// holds, and which larger pictures have more modes than fit in a file, is left unsaid.
#[verifier::external_body]
fn webp_file(bytes: Vec<u8>, width: u32, height: u32, quality: u8) -> (res: Result<
    Vec<u8>,
    webp::WebPEncodingError,
>)
    requires
        bytes@.len() == 4 * (width * height),
        1 <= width <= WEBP_MAX_SIDE,
        1 <= height <= WEBP_MAX_SIDE,
        quality <= 100,
    ensures
        width <= WEBP_SAFE_SIDE && height <= WEBP_SAFE_SIDE ==> res is Ok,
        res matches Ok(file) ==> is_webp_outcome(bytes@, width, height, quality, Some(file@)),
        res is Err ==> is_webp_outcome(bytes@, width, height, quality, None),
{
    let img = image::DynamicImage::ImageRgba8(
        image::RgbaImage::from_raw(width, height, bytes).unwrap(),
    );
    Ok(webp::Encoder::from_image(&img).unwrap().encode_simple(false, quality.into())?.to_vec())
}

/// What becomes of the answer of the WebP encoder: a file is handed on, and so is the reason for
/// which there is none.
pub fn webp_outcome(answer: Result<Vec<u8>, webp::WebPEncodingError>) -> (res: Result<
    Vec<u8>,
    EncodeError,
>)
    ensures
        answer matches Ok(file) ==> res == Ok::<Vec<u8>, EncodeError>(file),
        answer matches Err(error) ==> res == Err::<Vec<u8>, EncodeError>(EncodeError::Webp(error)),
{
    match answer {
        Ok(file) => Ok(file),
        Err(error) => Err(EncodeError::Webp(error)),
    }
}

/// The file that `image::codecs::jpeg::JpegEncoder::encode_image` writes for an RGB picture.
pub uninterp spec fn jpeg_encoding(rgb: Seq<u8>, width: u32, height: u32, quality: u8) -> Seq<u8>;

/// Whether JPEG and AVIF have room for the sides of a picture.
pub open spec fn sides_in_range(width: int, height: int) -> bool {
    1 <= width <= 65535 && 1 <= height <= 65535
}

/// Calls `image::codecs::jpeg::JpegEncoder::new_with_quality` and `encode_image`, which write to
/// a vector.
///
/// Taken on trust: the encoder refuses a picture exactly where a side is 0 or over 65535, and
/// otherwise writes the file that [`jpeg_encoding`] stands for.
#[verifier::external_body]
fn jpeg_file(rgb: Vec<u8>, width: u32, height: u32, quality: u8) -> (res: Result<
    Vec<u8>,
    image::ImageError,
>)
    requires
        rgb@.len() == 3 * (width * height),
        row_fits(width as int),
    ensures
        res is Ok <==> sides_in_range(width as int, height as int),
        res matches Ok(file) ==> file@ == jpeg_encoding(rgb@, width, height, quality),
{
    let rgb = image::RgbImage::from_raw(width, height, rgb).unwrap();
    let mut file = Vec::new();
    image::codecs::jpeg::JpegEncoder::new_with_quality(&mut file, quality)
        .encode_image(&image::DynamicImage::ImageRgb8(rgb))?;
    Ok(file)
}

/// Whether `file` is an outcome of `ravif::Encoder::encode_rgba` on an RGBA picture, with one
/// quality for colour and alpha. The encoder splits its work by the number of processors, so that
/// more than one outcome is possible.
pub uninterp spec fn is_avif_encoding(
    bytes: Seq<u8>,
    width: u32,
    height: u32,
    quality: u8,
    file: Seq<u8>,
) -> bool;

/// Calls `ravif::Encoder::new`, `with_quality`, `with_alpha_quality` and `encode_rgba`, on pixels
/// that `rgb::FromSlice::as_rgba` finds in the bytes.
///
/// Taken on trust: the encoder refuses a picture exactly where a side is over 65535, and otherwise
/// gives one of the outcomes that [`is_avif_encoding`] stands for. Which bytes the file holds is
/// left unsaid.
#[verifier::external_body]
fn avif_file(bytes: &Vec<u8>, width: u32, height: u32, quality: u8) -> (res: Result<
    Vec<u8>,
    ravif::Error,
>)
    requires
        bytes@.len() == 4 * (width * height),
        1 <= width,
        1 <= height,
        1 <= quality <= 100,
    ensures
        res is Ok <==> sides_in_range(width as int, height as int),
        res matches Ok(file) ==> is_avif_encoding(bytes@, width, height, quality, file@),
{
    let pixels = rgb::FromSlice::as_rgba(bytes.as_slice());
    let img = ravif::Img::new(pixels, width as usize, height as usize);
    let encoder = ravif::Encoder::new().with_quality(quality.into());
    Ok(encoder.with_alpha_quality(quality.into()).encode_rgba(img)?.avif_file)
}

/// What becomes of the answer of the AVIF encoder: a file is handed on, and so is the reason for
/// which there is none.
pub fn avif_outcome(answer: Result<Vec<u8>, ravif::Error>) -> (res: Result<Vec<u8>, EncodeError>)
    ensures
        answer matches Ok(file) ==> res == Ok::<Vec<u8>, EncodeError>(file),
        answer matches Err(error) ==> res == Err::<Vec<u8>, EncodeError>(EncodeError::Avif(error)),
{
    match answer {
        Ok(file) => Ok(file),
        Err(error) => Err(EncodeError::Avif(error)),
    }
}

/// The quality that the AVIF encoder is asked for. Its lowest is 1, which stands for 0 too.
pub open spec fn avif_quality(quality: u32) -> u8 {
    if quality == 0 {
        1
    } else {
        quality as u8
    }
}

/// Whether a picture can be handed to the encoder of a format.
pub open spec fn encodable(
    width: int,
    height: int,
    format: OutputFormat,
    quality: u32,
    avif: AvifSupport,
) -> bool {
    match format {
        OutputFormat::Webp => {
            &&& 1 <= width <= WEBP_MAX_SIDE
            &&& 1 <= height <= WEBP_MAX_SIDE
            &&& quality <= 100
        },
        OutputFormat::Jpg => true,
        OutputFormat::Avif => avif == AvifSupport::Included ==> {
            &&& 1 <= width
            &&& 1 <= height
            &&& quality <= 100
        },
    }
}

/// Tells whether [`encode_tile`] can be called on a raster of `width` by `height` pixels.
pub fn can_encode(
    width: u32,
    height: u32,
    format: OutputFormat,
    quality: u32,
    avif: AvifSupport,
) -> (yes: bool)
    ensures
        yes == encodable(width as int, height as int, format, quality, avif),
{
    match format {
        OutputFormat::Webp => 1 <= width && width <= WEBP_MAX_SIDE && 1 <= height && height
            <= WEBP_MAX_SIDE && quality <= 100,
        OutputFormat::Jpg => true,
        OutputFormat::Avif => match avif {
            AvifSupport::Included => 1 <= width && 1 <= height && quality <= 100,
            AvifSupport::Missing => true,
        },
    }
}

/// Whether `file` is what a picture becomes in a format.
pub open spec fn is_encoding(
    pic: Picture,
    format: OutputFormat,
    quality: u32,
    file: Seq<u8>,
) -> bool {
    match format {
        OutputFormat::Webp => is_webp_outcome(
            pic.bytes,
            pic.width as u32,
            pic.height as u32,
            quality as u8,
            Some(file),
        ),
        OutputFormat::Jpg => file == jpeg_encoding(
            without_alpha(pic.bytes),
            pic.width as u32,
            pic.height as u32,
            (quality % 256) as u8,
        ),
        OutputFormat::Avif => is_avif_encoding(
            pic.bytes,
            pic.width as u32,
            pic.height as u32,
            avif_quality(quality),
            file,
        ),
    }
}

/// What encoding a picture gives. JPEG and AVIF give a file unless a side is out of their range, or
/// AVIF is missing. WebP gives one too, unless a side is over [`WEBP_SAFE_SIDE`] and the encoder
/// refuses the picture.
pub open spec fn encodes_to(
    pic: Picture,
    format: OutputFormat,
    quality: u32,
    avif: AvifSupport,
    res: Result<Vec<u8>, EncodeError>,
) -> bool {
    match res {
        Ok(file) => {
            &&& is_encoding(pic, format, quality, file@)
            &&& format != OutputFormat::Webp ==> sides_in_range(pic.width, pic.height)
            &&& format == OutputFormat::Avif ==> avif == AvifSupport::Included
        },
        Err(EncodeError::Webp(_)) => {
            &&& format == OutputFormat::Webp
            &&& pic.width > WEBP_SAFE_SIDE || pic.height > WEBP_SAFE_SIDE
            &&& is_webp_outcome(
                pic.bytes,
                pic.width as u32,
                pic.height as u32,
                quality as u8,
                None,
            )
        },
        Err(EncodeError::Jpeg(_)) => format == OutputFormat::Jpg && !sides_in_range(
            pic.width,
            pic.height,
        ),
        Err(EncodeError::Avif(_)) => format == OutputFormat::Avif && avif == AvifSupport::Included
            && !sides_in_range(pic.width, pic.height),
        Err(EncodeError::AvifMissing) => format == OutputFormat::Avif && avif
            == AvifSupport::Missing,
    }
}

/// Encodes a single RGBA tile to the requested format and returns the bytes of the file.
///
/// JPEG has no alpha channel: the alpha of the tile is dropped, and of the quality only the lowest
/// eight bits are used. For AVIF the qualities 0 and 1 are the same.
pub fn encode_tile(img: Raster, format: OutputFormat, quality: u32, avif: AvifSupport) -> (res: Result<
    Vec<u8>,
    EncodeError,
>)
    requires
        encodable(img@.width, img@.height, format, quality, avif),
    ensures
        encodes_to(img@, format, quality, avif, res),
{
    let width: u32 = img.width();
    let height: u32 = img.height();
    match format {
        OutputFormat::Webp => webp_outcome(
            webp_file(img.into_bytes(), width, height, quality as u8),
        ),
        OutputFormat::Jpg => {
            assert(quality as u8 == (quality % 256) as u8) by (bit_vector);
            match jpeg_file(
                img.rgb_bytes(),
                width,
                height,
                #[verifier::truncate]
                (quality as u8),
            ) {
                Ok(file) => Ok(file),
                Err(error) => Err(EncodeError::Jpeg(error)),
            }
        },
        OutputFormat::Avif => match avif {
            AvifSupport::Included => {
                let asked: u8 = if quality == 0 {
                    1
                } else {
                    quality as u8
                };
                avif_outcome(avif_file(img.bytes(), width, height, asked))
            },
            AvifSupport::Missing => Err(EncodeError::AvifMissing),
        },
    }
}

} // verus!
