use tilegen::decimal::decimal_text;
use tilegen::encode::{
    avif_outcome, can_encode, encode_tile, webp_outcome, AvifSupport, EncodeError, OutputFormat,
};
use tilegen::grid::all_tiles;
use tilegen::plan::{can_plan, plan_zoom, scaled_tile_file, tile_file, tile_path};
use tilegen::raster::Raster;
use tilegen::square::{cut_tile, scale_for_zoom};

const MISSING: AvifSupport = AvifSupport::Missing;
const INCLUDED: AvifSupport = AvifSupport::Included;

fn tile(alpha: u8) -> Raster {
    let mut bytes = Vec::new();
    for y in 0..256u32 {
        for x in 0..256u32 {
            bytes.extend_from_slice(&[x as u8, y as u8, (x ^ y) as u8, alpha]);
        }
    }
    Raster::from_raw(256, 256, bytes).unwrap()
}

#[test]
fn extensions() {
    assert_eq!(OutputFormat::Webp.ext(), "webp");
    assert_eq!(OutputFormat::Jpg.ext(), "jpg");
    assert_eq!(OutputFormat::Avif.ext(), "avif");
}

#[test]
fn formats_are_named_by_their_extensions() {
    for format in [OutputFormat::Webp, OutputFormat::Jpg, OutputFormat::Avif] {
        assert_eq!(OutputFormat::from_name(format.ext()), Some(format));
    }
    for name in ["", "WEBP", "Jpg", "jpeg", "avi", "avif ", "webpx", "web\u{e9}"] {
        assert_eq!(OutputFormat::from_name(name), None);
    }
}

#[test]
fn decimal_text_is_that_of_the_standard_library() {
    for n in [0, 1, 9, 10, 11, 99, 100, 255, 1024, 65535, 1_000_000, u32::MAX] {
        assert_eq!(decimal_text(n), n.to_string());
    }
}

#[test]
fn paths_are_zoom_column_row() {
    let path = tile_path(12, 0, 305, OutputFormat::Jpg);
    assert_eq!(path.zoom_dir, "12");
    assert_eq!(path.column_dir, "0");
    assert_eq!(path.file_name, "305.jpg");
}

#[test]
fn paths_are_distinct() {
    let mut seen = std::collections::HashSet::new();
    for zoom in [0, 1, 11] {
        for (x, y) in all_tiles(12) {
            for format in [OutputFormat::Webp, OutputFormat::Jpg, OutputFormat::Avif] {
                let path = tile_path(zoom, x, y, format);
                assert!(seen.insert((path.zoom_dir, path.column_dir, path.file_name)));
            }
        }
    }
}

#[test]
fn plans_list_directories_and_tiles() {
    let plan = plan_zoom(2);
    assert_eq!(plan.num_tiles, 4);
    assert_eq!(plan.total_tiles, 16);
    assert_eq!(plan.zoom_dir, "2");
    assert_eq!(plan.column_dirs, vec!["0", "1", "2", "3"]);
    assert_eq!(plan.tiles, all_tiles(4));
    for &(x, y) in &plan.tiles {
        let path = tile_path(2, x, y, OutputFormat::Webp);
        assert_eq!(path.zoom_dir, plan.zoom_dir);
        assert!(plan.column_dirs.contains(&path.column_dir));
    }
}

#[test]
fn levels_that_cannot_be_listed_are_refused() {
    assert!(can_plan(0));
    assert!(can_plan(13));
    assert!(!can_plan(30));
    assert!(!can_plan(32));
    assert!(!can_plan(u32::MAX));
}

#[test]
fn webp_files_are_those_of_the_webp_crate() {
    let expected = {
        let img = image::RgbaImage::from_raw(256, 256, tile(200).into_bytes()).unwrap();
        let img = image::DynamicImage::ImageRgba8(img);
        webp::Encoder::from_image(&img).unwrap().encode(75.0).to_vec()
    };
    let file = encode_tile(tile(200), OutputFormat::Webp, 75, MISSING).unwrap();
    assert_eq!(file, expected);
    assert_eq!(&file[0..4], b"RIFF");
    assert_eq!(&file[8..12], b"WEBP");
    let back = image::load_from_memory(&file).unwrap();
    assert_eq!((back.width(), back.height()), (256, 256));
}

#[test]
fn webp_files_are_lossy() {
    for alpha in [255, 7] {
        let file = encode_tile(tile(alpha), OutputFormat::Webp, 100, MISSING).unwrap();
        assert_ne!(&file[12..16], b"VP8L");
    }
}

#[test]
fn webp_takes_long_sides() {
    for (w, h) in [(1, 1), (1024, 1024), (1025, 3), (3, 16383), (16383, 1), (2000, 1500)] {
        let bytes: Vec<u8> = (0..4 * w * h).map(|k: u32| (k * 31 % 251) as u8).collect();
        let img = image::RgbaImage::from_raw(w, h, bytes.clone()).unwrap();
        let img = image::DynamicImage::ImageRgba8(img);
        let expected = webp::Encoder::from_image(&img).unwrap().encode(0.0).to_vec();
        let raster = Raster::from_raw(w, h, bytes).unwrap();
        assert!(can_encode(w, h, OutputFormat::Webp, 0, MISSING));
        let file = encode_tile(raster, OutputFormat::Webp, 0, MISSING).unwrap();
        assert_eq!(file, expected);
        let back = image::load_from_memory(&file).unwrap();
        assert_eq!((back.width(), back.height()), (w, h));
    }
}

#[test]
fn webp_answers_are_handed_on() {
    assert_eq!(webp_outcome(Ok(vec![1, 2, 3])).unwrap(), vec![1, 2, 3]);
    let error = webp::WebPEncodingError::VP8_ENC_ERROR_PARTITION0_OVERFLOW;
    let res = webp_outcome(Err(error));
    assert!(matches!(res, Err(EncodeError::Webp(e)) if e == error));
}

#[test]
fn webp_quality_matters() {
    let low = encode_tile(tile(255), OutputFormat::Webp, 0, MISSING).unwrap();
    let high = encode_tile(tile(255), OutputFormat::Webp, 100, MISSING).unwrap();
    assert!(low.len() < high.len());
}

#[test]
fn jpeg_files_are_those_of_the_image_crate() {
    let raster = tile(255);
    let rgb = image::RgbImage::from_raw(256, 256, raster.rgb_bytes()).unwrap();
    let mut expected = Vec::new();
    image::codecs::jpeg::JpegEncoder::new_with_quality(&mut expected, 75)
        .encode_image(&image::DynamicImage::ImageRgb8(rgb))
        .unwrap();
    assert_eq!(encode_tile(raster, OutputFormat::Jpg, 75, MISSING).unwrap(), expected);
}

#[test]
fn jpeg_ignores_alpha() {
    let a = encode_tile(tile(255), OutputFormat::Jpg, 75, MISSING).unwrap();
    let b = encode_tile(tile(3), OutputFormat::Jpg, 75, MISSING).unwrap();
    assert_eq!(a, b);
}

#[test]
fn jpeg_quality_wraps_at_256() {
    let a = encode_tile(tile(255), OutputFormat::Jpg, 44, MISSING).unwrap();
    let b = encode_tile(tile(255), OutputFormat::Jpg, 300, MISSING).unwrap();
    let c = encode_tile(tile(255), OutputFormat::Jpg, 100, MISSING).unwrap();
    assert_eq!(a, b);
    assert_ne!(a, c);
}

#[test]
fn jpeg_refuses_sides_out_of_range() {
    for (w, h) in [(0, 0), (0, 5), (65536, 1), (1, 65536)] {
        let raster = Raster::filled(w, h, (1, 2, 3, 255));
        let res = encode_tile(raster, OutputFormat::Jpg, 75, MISSING);
        assert!(matches!(res, Err(EncodeError::Jpeg(_))));
    }
    let widest = Raster::filled(65535, 1, (1, 2, 3, 255));
    assert!(encode_tile(widest, OutputFormat::Jpg, 75, MISSING).is_ok());
}

#[test]
fn avif_is_refused_where_it_is_missing() {
    let res = encode_tile(Raster::filled(256, 256, (0, 0, 0, 0)), OutputFormat::Avif, 75, MISSING);
    assert!(matches!(res, Err(EncodeError::AvifMissing)));
    assert_eq!(
        res.unwrap_err().message().unwrap(),
        "AVIF support was not compiled in. \
         Rebuild with `cargo build --features avif` (requires NASM)."
    );
}

#[test]
fn errors_of_encoders_have_their_own_text() {
    assert!(EncodeError::Avif(ravif::Error::TooFewPixels).message().is_none());
    let res = encode_tile(Raster::filled(0, 5, (0, 0, 0, 0)), OutputFormat::Jpg, 75, MISSING);
    assert!(res.unwrap_err().message().is_none());
}

#[test]
fn avif_is_encoded_where_it_is_included() {
    let raster = Raster::filled(64, 48, (10, 200, 30, 128));
    let file = encode_tile(raster, OutputFormat::Avif, 60, INCLUDED).unwrap();
    assert_eq!(&file[4..12], b"ftypavif");
    let small = Raster::filled(1, 1, (10, 200, 30, 255));
    assert!(encode_tile(small, OutputFormat::Avif, 1, INCLUDED).is_ok());
}

#[test]
fn avif_takes_quality_zero_as_one() {
    let clear = || Raster::filled(256, 256, (0, 0, 0, 0));
    let zero = encode_tile(clear(), OutputFormat::Avif, 0, INCLUDED).unwrap();
    let one = encode_tile(clear(), OutputFormat::Avif, 1, INCLUDED).unwrap();
    assert_eq!(&zero[4..12], b"ftypavif");
    assert_eq!(zero, one);
}

#[test]
fn avif_takes_short_sides() {
    for (w, h) in [(1, 2), (2, 1), (3, 7), (8, 9), (15, 17), (16, 1), (1, 19), (33, 5)] {
        let bytes: Vec<u8> = (0..4 * w * h).map(|k: u32| (k * 37 % 256) as u8).collect();
        let raster = Raster::from_raw(w, h, bytes).unwrap();
        assert!(encode_tile(raster, OutputFormat::Avif, 50 + w, INCLUDED).is_ok());
    }
}

#[test]
fn avif_takes_long_sides() {
    for (w, h) in [(8192, 1), (1, 4096)] {
        let raster = Raster::filled(w, h, (1, 2, 3, 255));
        assert!(encode_tile(raster, OutputFormat::Avif, 60, INCLUDED).is_ok());
    }
}

#[test]
fn every_tile_is_encoded() {
    for format in [OutputFormat::Webp, OutputFormat::Jpg, OutputFormat::Avif] {
        for quality in [0, 100] {
            assert!(can_encode(256, 256, format, quality, INCLUDED));
            assert!(encode_tile(tile(90), format, quality, INCLUDED).is_ok());
        }
    }
}

#[test]
fn jpeg_files_are_repeated() {
    let bytes: Vec<u8> = (0..4 * 512 * 512u32).map(|k| (k / 97) as u8).collect();
    let image = || Raster::from_raw(512, 512, bytes.clone()).unwrap();
    let run = || {
        let map = scale_for_zoom(&image(), (1, 2, 3, 255), 1);
        scaled_tile_file(&map, 1, 0, 1, OutputFormat::Jpg, 80, MISSING).unwrap()
    };
    let (first, second) = (run(), run());
    assert_eq!(first.bytes, second.bytes);
    assert_eq!(first.path.file_name, second.path.file_name);
}

#[test]
fn avif_refuses_sides_out_of_range() {
    let raster = Raster::filled(65536, 1, (1, 2, 3, 255));
    let res = encode_tile(raster, OutputFormat::Avif, 60, INCLUDED);
    assert!(matches!(res, Err(EncodeError::Avif(_))));
}

#[test]
fn avif_answers_are_handed_on() {
    assert_eq!(avif_outcome(Ok(vec![1, 2, 3])).unwrap(), vec![1, 2, 3]);
    let res = avif_outcome(Err(ravif::Error::TooFewPixels));
    assert!(matches!(res, Err(EncodeError::Avif(ravif::Error::TooFewPixels))));
}

#[test]
fn qualities_and_sides_in_range_can_be_encoded() {
    assert!(can_encode(256, 256, OutputFormat::Webp, 100, MISSING));
    assert!(!can_encode(256, 256, OutputFormat::Webp, 101, MISSING));
    assert!(!can_encode(0, 256, OutputFormat::Webp, 75, MISSING));
    assert!(can_encode(16383, 16383, OutputFormat::Webp, 75, MISSING));
    assert!(!can_encode(256, 16384, OutputFormat::Webp, 75, MISSING));
    assert!(can_encode(0, 0, OutputFormat::Jpg, 1000, MISSING));
    assert!(can_encode(256, 256, OutputFormat::Avif, 0, MISSING));
    assert!(can_encode(256, 256, OutputFormat::Avif, 0, INCLUDED));
    assert!(can_encode(65536, 1, OutputFormat::Avif, 100, INCLUDED));
    assert!(!can_encode(256, 256, OutputFormat::Avif, 101, INCLUDED));
    assert!(!can_encode(0, 256, OutputFormat::Avif, 50, INCLUDED));
}

#[test]
fn files_of_rendered_tiles() {
    let file = tile_file(tile(255), 3, 5, 6, OutputFormat::Jpg, 80, MISSING).unwrap();
    assert_eq!(file.path.zoom_dir, "3");
    assert_eq!(file.path.column_dir, "5");
    assert_eq!(file.path.file_name, "6.jpg");
    let bytes = encode_tile(tile(255), OutputFormat::Jpg, 80, MISSING).unwrap();
    assert_eq!(file.bytes, bytes);
    let res = tile_file(tile(255), 3, 5, 6, OutputFormat::Avif, 80, MISSING);
    assert!(matches!(res, Err(EncodeError::AvifMissing)));
}

#[test]
fn files_of_scaled_tiles() {
    let bytes: Vec<u8> = (0..4 * 512 * 512u32).map(|k| (k / 97) as u8).collect();
    let map = Raster::from_raw(512, 512, bytes).unwrap();
    let file = scaled_tile_file(&map, 1, 1, 0, OutputFormat::Jpg, 80, MISSING).unwrap();
    assert_eq!(file.path.column_dir, "1");
    assert_eq!(file.path.file_name, "0.jpg");
    let cut = encode_tile(cut_tile(&map, 1, 0), OutputFormat::Jpg, 80, MISSING).unwrap();
    assert_eq!(file.bytes, cut);
}
