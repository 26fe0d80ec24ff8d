use image::{DynamicImage, Rgba, RgbaImage};
use tilegen::raster::Raster;
use tilegen::square::{can_scale, can_square, cut_tile, make_square, scale_for_zoom};

fn pattern(width: u32, height: u32) -> Raster {
    let bytes: Vec<u8> = (0..4 * width * height).map(|k| (k * 37 % 256) as u8).collect();
    Raster::from_raw(width, height, bytes).unwrap()
}

fn opaque(width: u32, height: u32) -> Raster {
    let mut bytes = pattern(width, height).into_bytes();
    for p in bytes.chunks_mut(4) {
        p[3] = 255;
    }
    Raster::from_raw(width, height, bytes).unwrap()
}

fn as_image(raster: &Raster) -> RgbaImage {
    RgbaImage::from_raw(raster.width(), raster.height(), raster.bytes().clone()).unwrap()
}

fn reference_square(img: &DynamicImage, bg: (u8, u8, u8, u8)) -> RgbaImage {
    let size = img.width().max(img.height());
    let canvas = RgbaImage::from_pixel(size, size, Rgba([bg.0, bg.1, bg.2, bg.3]));
    let mut square = DynamicImage::ImageRgba8(canvas);
    let x = (size - img.width()) / 2;
    let y = (size - img.height()) / 2;
    image::imageops::overlay(&mut square, img, x as i64, y as i64);
    square.into_rgba8()
}

#[test]
fn raw_bytes_must_suffice() {
    assert!(Raster::from_raw(2, 2, vec![0; 15]).is_none());
    assert!(Raster::from_raw(u32::MAX, u32::MAX, vec![0; 16]).is_none());
    let raster = Raster::from_raw(2, 2, (0..20).collect()).unwrap();
    assert_eq!((raster.width(), raster.height()), (2, 2));
    assert_eq!(raster.bytes().as_slice(), &(0..16).collect::<Vec<u8>>()[..]);
    assert_eq!(raster.pixel(1, 0), (4, 5, 6, 7));
    assert_eq!(raster.pixel(0, 1), (8, 9, 10, 11));
    assert_eq!(raster.into_bytes().len(), 16);
}

#[test]
fn filled_rasters_have_one_colour() {
    let raster = Raster::filled(3, 2, (1, 2, 3, 4));
    assert_eq!(raster.bytes().as_slice(), &[1, 2, 3, 4].repeat(6)[..]);
    assert!(Raster::filled(0, 7, (1, 2, 3, 4)).bytes().is_empty());
}

#[test]
fn crops_are_those_of_the_image_crate() {
    let raster = pattern(7, 5);
    let img = as_image(&raster);
    for (x, y, w, h) in [(0, 0, 7, 5), (2, 1, 3, 2), (5, 4, 9, 9), (7, 0, 1, 1), (100, 100, 3, 3)] {
        let expected = image::imageops::crop_imm(&img, x, y, w, h).to_image();
        let got = raster.crop(x, y, w, h);
        assert_eq!((got.width(), got.height()), expected.dimensions());
        assert_eq!(got.bytes(), expected.as_raw());
    }
}

#[test]
fn rgb_bytes_are_those_of_the_image_crate() {
    let raster = pattern(6, 3);
    let expected = DynamicImage::ImageRgba8(as_image(&raster)).to_rgb8();
    assert_eq!(&raster.rgb_bytes(), expected.as_raw());
}

#[test]
fn squares_are_those_of_the_image_crate() {
    for (w, h) in [(5, 2), (2, 5), (4, 4), (1, 6), (0, 3), (0, 0)] {
        let raster = pattern(w, h);
        for bg in [(0, 0, 0, 0), (10, 20, 30, 255), (200, 100, 50, 77)] {
            let img = DynamicImage::ImageRgba8(as_image(&raster));
            let expected = reference_square(&img, bg);
            let got = make_square(&raster, bg);
            assert_eq!((got.width(), got.height()), expected.dimensions());
            assert_eq!(got.bytes(), expected.as_raw());
        }
    }
}

#[test]
fn partly_transparent_pixels_are_blended() {
    let raster = Raster::from_raw(1, 1, vec![200, 0, 0, 128]).unwrap();
    let square = make_square(&raster, (0, 0, 255, 255));
    let mut expected = Rgba([0u8, 0, 255, 255]);
    image::Pixel::blend(&mut expected, &Rgba([200u8, 0, 0, 128]));
    assert_eq!(square.bytes().as_slice(), &expected.0);
    assert_ne!(square.pixel(0, 0), (200, 0, 0, 128));
    assert_ne!(square.pixel(0, 0), (0, 0, 255, 255));
}

#[test]
fn the_image_stands_in_the_middle() {
    let raster = opaque(3, 6);
    let square = make_square(&raster, (9, 8, 7, 255));
    assert_eq!((square.width(), square.height()), (6, 6));
    for y in 0..6 {
        assert_eq!(square.pixel(0, y), (9, 8, 7, 255));
        for x in 0..3 {
            assert_eq!(square.pixel(x + 1, y), raster.pixel(x, y));
        }
        assert_eq!(square.pixel(4, y), (9, 8, 7, 255));
        assert_eq!(square.pixel(5, y), (9, 8, 7, 255));
    }
}

#[test]
fn opaque_squares_stay_as_they_are() {
    let raster = opaque(5, 5);
    assert_eq!(make_square(&raster, (1, 2, 3, 255)).bytes(), raster.bytes());
}

#[test]
fn squaring_again_changes_nothing() {
    let mut bytes = opaque(4, 7).into_bytes();
    bytes[3] = 0;
    bytes[43] = 0;
    let raster = Raster::from_raw(4, 7, bytes).unwrap();
    for bg in [(0, 0, 0, 0), (10, 20, 30, 255)] {
        let once = make_square(&raster, bg);
        assert_eq!(make_square(&once, bg).bytes(), once.bytes());
    }
}

#[test]
fn scaling_is_that_of_the_image_crate() {
    let raster = pattern(30, 20);
    let bg = (10, 20, 30, 255);
    assert!(can_scale(&raster, 1));
    let got = scale_for_zoom(&raster, bg, 1);
    let square = reference_square(&DynamicImage::ImageRgba8(as_image(&raster)), bg);
    let expected = DynamicImage::ImageRgba8(square)
        .resize_exact(512, 512, image::imageops::FilterType::Lanczos3)
        .into_rgba8();
    assert_eq!((got.width(), got.height()), (512, 512));
    assert_eq!(got.bytes(), expected.as_raw());
}

#[test]
fn an_image_of_the_right_size_is_not_resampled() {
    let raster = opaque(256, 256);
    assert_eq!(scale_for_zoom(&raster, (0, 0, 0, 0), 0).bytes(), raster.bytes());
}

#[test]
fn nothing_scales_to_clear_pixels() {
    let scaled = scale_for_zoom(&pattern(0, 0), (1, 2, 3, 255), 0);
    assert_eq!((scaled.width(), scaled.height()), (256, 256));
    assert!(scaled.bytes().iter().all(|&b| b == 0));
}

#[test]
fn maps_that_are_too_large_are_refused() {
    let raster = pattern(3, 2);
    assert!(can_scale(&raster, 0));
    assert!(can_scale(&raster, 22) == (usize::BITS == 64));
    assert!(!can_scale(&raster, 23));
    assert!(!can_scale(&raster, 24));
    assert!(!can_scale(&raster, 32));
    let wide = Raster::from_raw(0x40_0000, 0, Vec::new()).unwrap();
    assert!(!can_scale(&wide, 0));
}

#[test]
fn tiles_are_all_of_the_map() {
    let map = pattern(512, 512);
    for x in 0..2 {
        for y in 0..2 {
            let tile = cut_tile(&map, x, y);
            assert_eq!((tile.width(), tile.height()), (256, 256));
            for i in 0..256 {
                for j in 0..256 {
                    assert_eq!(tile.pixel(i, j), map.pixel(256 * x + i, 256 * y + j));
                }
            }
        }
    }
}

#[test]
fn squares_that_are_too_large_are_refused() {
    assert!(can_square(&pattern(5, 3)));
    let tall = Raster::from_raw(0, u32::MAX, Vec::new()).unwrap();
    assert!(!can_square(&tall));
}

#[test]
fn rows_that_cannot_be_counted_are_refused() {
    let wide = Raster::from_raw(u32::MAX, 0, Vec::new());
    assert!(wide.is_some() == (usize::BITS == 64));
    assert!(wide.is_some() == RgbaImage::from_raw(u32::MAX, 0, Vec::new()).is_some());
}

#[test]
fn an_opaque_square_hides_the_background() {
    let raster = opaque(40, 40);
    let red = scale_for_zoom(&raster, (255, 0, 0, 255), 0);
    let clear = scale_for_zoom(&raster, (0, 0, 0, 0), 0);
    assert_eq!(red.bytes(), clear.bytes());
}

#[test]
fn a_map_sized_image_is_cut_unchanged() {
    let raster = opaque(512, 512);
    let scaled = scale_for_zoom(&raster, (4, 5, 6, 255), 1);
    let tile = cut_tile(&scaled, 1, 0);
    assert_eq!(tile.pixel(0, 0), raster.pixel(256, 0));
    assert_eq!(tile.pixel(255, 255), raster.pixel(511, 255));
}
