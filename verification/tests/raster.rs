use cutter::raster::{
    admit_decoded, admit_scale, admit_size, encode_image, render, transform_image,
    TransformError, EMPTY_IMAGE, MAX_EDGE, MAX_SIDE, TOO_LARGE, TOO_LONG,
};
use image::{ColorType, DynamicImage, GenericImageView, GrayImage, ImageFormat, Luma, Rgb, RgbImage};
use std::io::Cursor;

fn encoded(picture: DynamicImage, format: ImageFormat) -> Vec<u8> {
    let mut out = Cursor::new(Vec::new());
    picture.write_to(&mut out, format).unwrap();
    out.into_inner()
}

fn gradient_png(width: u32, height: u32) -> Vec<u8> {
    let picture = RgbImage::from_fn(width, height, |x, y| {
        Rgb([(x % 251) as u8, (y % 241) as u8, ((x + y) % 239) as u8])
    });
    encoded(DynamicImage::ImageRgb8(picture), ImageFormat::Png)
}

fn assert_fills(sources: &[(u32, u32)], targets: &[(u32, u32)]) {
    for &(sw, sh) in sources {
        let bytes = gradient_png(sw, sh);
        for &(w, h) in targets {
            let raster = transform_image("source.png", &bytes, w, h).unwrap();
            assert_eq!((raster.width(), raster.height()), (w, h), "{}x{} to {}x{}", sw, sh, w, h);
            assert_eq!(raster.image().dimensions(), (w, h));
        }
    }
}

#[test]
fn the_result_has_exactly_the_size_asked_for() {
    assert_fills(
        &[(30, 10), (10, 30), (16, 16), (1, 1), (7, 3), (3, 7)],
        &[(20, 20), (40, 40), (3, 7), (7, 3), (64, 48), (1, 10), (10, 1)],
    );
}

#[test]
fn scaling_up_and_down_both_fill_exactly() {
    assert_fills(&[(64, 48), (48, 64)], &[(8, 8), (100, 100), (13, 5), (5, 13), (64, 48), (65, 48)]);
}

#[test]
fn odd_ratios_fill_exactly() {
    assert_fills(&[(17, 13), (13, 17), (99, 1), (1, 99)], &[(3, 3), (11, 7), (7, 11), (2, 1), (1, 2)]);
}

#[test]
fn thin_sources_are_cut_to_the_size_asked_for() {
    assert_fills(&[(1, 3000), (3000, 1)], &[(1, 1), (2, 5), (5, 2), (7, 7)]);
    assert_fills(&[(1, 60000)], &[(1, 1), (3, 1), (1, 9)]);
    assert_fills(&[(60000, 1)], &[(1, 1), (1, 3), (9, 1)]);
}

#[test]
fn every_size_from_one_pixel_up_is_cut() {
    let bytes = gradient_png(5, 4);
    for w in 1u32..=12 {
        for h in 1u32..=12 {
            let raster = transform_image("small.png", &bytes, w, h).unwrap();
            assert_eq!(raster.image().dimensions(), (w, h));
        }
    }
}

#[test]
fn the_samples_follow_the_source_and_the_size_alone() {
    let source = gradient_png(21, 13);
    let first = transform_image("one.png", &source, 8, 5).unwrap();
    let second = transform_image("/elsewhere/two.png", &source, 8, 5).unwrap();
    assert_eq!(first.image().color(), second.image().color());
    assert_eq!(first.image().as_bytes(), second.image().as_bytes());
    assert_eq!(render("one.png", &source, 8, 5).unwrap(), encode_image(&second).unwrap());
    let other = transform_image("one.png", &source, 5, 8).unwrap();
    assert_ne!(first.image().as_bytes(), other.image().as_bytes());
}

#[test]
fn degenerate_geometry() {
    for (sw, sh) in [(1u32, 1u32), (2, 2), (100, 3), (3, 100), (192, 108)] {
        let raster = transform_image("any.png", &gradient_png(sw, sh), 1, 1).unwrap();
        assert_eq!((raster.width(), raster.height()), (1, 1));
        let bytes = encode_image(&raster).unwrap();
        let back = image::load_from_memory_with_format(&bytes, ImageFormat::Jpeg).unwrap();
        assert_eq!(back.dimensions(), (1, 1));
    }
}

#[test]
fn the_default_sizes_fill_exactly() {
    let bytes = gradient_png(100, 75);
    for (w, h) in [(200u32, 200u32), (400, 400), (800, 800), (1920, 1080)] {
        let raster = transform_image("/in/photo.png", &bytes, w, h).unwrap();
        assert_eq!(raster.image().dimensions(), (w, h));
    }
}

#[test]
fn the_crop_is_taken_about_the_centre() {
    // Four columns: red, green, blue, white. Filling 2x2 keeps the scale and
    // crops one column from each side.
    let colours = [[255u8, 0, 0], [0, 255, 0], [0, 0, 255], [255, 255, 255]];
    let picture = RgbImage::from_fn(4, 2, |x, _| Rgb(colours[x as usize]));
    let bytes = encoded(DynamicImage::ImageRgb8(picture), ImageFormat::Png);
    let raster = transform_image("stripes.png", &bytes, 2, 2).unwrap();
    let cut = raster.image().to_rgb8();
    assert_eq!(cut.dimensions(), (2, 2));
    for y in 0..2 {
        assert_eq!(cut.get_pixel(0, y).0, [0, 255, 0]);
        assert_eq!(cut.get_pixel(1, y).0, [0, 0, 255]);
    }
}

#[test]
fn a_tall_source_is_cropped_at_top_and_bottom() {
    let shades = [10u8, 80, 160, 240];
    let picture = GrayImage::from_fn(2, 4, |_, y| Luma([shades[y as usize]]));
    let bytes = encoded(DynamicImage::ImageLuma8(picture), ImageFormat::Png);
    let raster = transform_image("tall.png", &bytes, 2, 2).unwrap();
    let cut = raster.image().to_luma8();
    for x in 0..2 {
        assert_eq!(cut.get_pixel(x, 0).0, [80]);
        assert_eq!(cut.get_pixel(x, 1).0, [160]);
    }
}

#[test]
fn the_colour_type_of_the_source_is_kept() {
    let picture = GrayImage::from_fn(20, 10, |x, _| Luma([(x * 10) as u8]));
    let bytes = encoded(DynamicImage::ImageLuma8(picture), ImageFormat::Png);
    let raster = transform_image("grey.png", &bytes, 5, 5).unwrap();
    assert_eq!(raster.image().color(), ColorType::L8);
    let colour = transform_image("c.png", &gradient_png(20, 10), 5, 5).unwrap();
    assert_eq!(colour.image().color(), ColorType::Rgb8);
}

#[test]
fn scaling_down_blends_neighbouring_pixels() {
    // Left half black, right half white: a single pixel of it is grey.
    let picture = GrayImage::from_fn(64, 64, |x, _| Luma([if x < 32 { 0 } else { 255 }]));
    let bytes = encoded(DynamicImage::ImageLuma8(picture), ImageFormat::Png);
    let raster = transform_image("halves.png", &bytes, 1, 1).unwrap();
    let shade = raster.image().to_luma8().get_pixel(0, 0).0[0];
    assert!(shade > 64 && shade < 192, "shade {}", shade);
}

#[test]
fn the_format_follows_the_extension_of_the_path() {
    let picture = DynamicImage::ImageRgb8(RgbImage::from_pixel(30, 20, Rgb([9, 99, 199])));
    let jpeg = encoded(picture.clone(), ImageFormat::Jpeg);
    let bmp = encoded(picture.clone(), ImageFormat::Bmp);
    let gif = encoded(picture, ImageFormat::Gif);
    assert!(transform_image("/in/a.jpg", &jpeg, 10, 10).is_ok());
    assert!(transform_image("/in/a.JPEG", &jpeg, 10, 10).is_ok());
    assert!(transform_image("a.bmp", &bmp, 10, 10).is_ok());
    assert!(transform_image("a.gif", &gif, 10, 10).is_ok());
    assert!(matches!(
        transform_image("a.png", &jpeg, 10, 10),
        Err(TransformError::DecodeFailed(_))
    ));
}

#[test]
fn bytes_that_are_no_image_fail_to_decode() {
    for bytes in [&b""[..], &b"not an image"[..], &[0u8; 64][..]] {
        match transform_image("a.png", bytes, 10, 10) {
            Err(TransformError::DecodeFailed(reason)) => assert!(!reason.is_empty()),
            other => panic!("gave {:?}", other.map(|r| (r.width(), r.height()))),
        }
    }
    let whole = gradient_png(40, 40);
    assert!(matches!(
        transform_image("a.png", &whole[..whole.len() / 2], 10, 10),
        Err(TransformError::DecodeFailed(_))
    ));
}

#[test]
fn a_path_without_a_known_extension_fails_to_decode() {
    let bytes = gradient_png(4, 4);
    for path in ["a", "a.txt", "", "a.png/..", ".png", "a.png.bak"] {
        assert!(
            matches!(transform_image(path, &bytes, 2, 2), Err(TransformError::DecodeFailed(_))),
            "{:?}",
            path
        );
    }
}

#[test]
fn the_encoding_is_jpeg() {
    let raster = transform_image("a.png", &gradient_png(120, 80), 60, 60).unwrap();
    let bytes = encode_image(&raster).unwrap();
    assert_eq!(&bytes[..2], &[0xFF, 0xD8]);
    assert_eq!(image::guess_format(&bytes).unwrap(), ImageFormat::Jpeg);
    let back = image::load_from_memory(&bytes).unwrap();
    assert_eq!(back.dimensions(), (60, 60));
}

#[test]
fn the_encoding_is_what_saving_as_jpg_writes() {
    let raster = transform_image("a.png", &gradient_png(33, 44), 20, 10).unwrap();
    let bytes = encode_image(&raster).unwrap();
    let mut want = Cursor::new(Vec::new());
    raster
        .image()
        .write_to(&mut want, image::ImageOutputFormat::Jpeg(75))
        .unwrap();
    assert_eq!(bytes, want.into_inner());
}

#[test]
fn the_encoding_follows_size_colour_and_samples() {
    let source = gradient_png(33, 44);
    let raster = transform_image("a.png", &source, 20, 10).unwrap();
    let picture = raster.image();
    assert_eq!(picture.dimensions(), (raster.width(), raster.height()));
    let mut want = Vec::new();
    image::codecs::jpeg::JpegEncoder::new_with_quality(&mut want, 75)
        .encode(picture.as_bytes(), raster.width(), raster.height(), picture.color())
        .unwrap();
    assert_eq!(encode_image(&raster).unwrap(), want);
    assert_eq!(encode_image(&raster).unwrap(), want);
    let again = transform_image("b.png", &source, 20, 10).unwrap();
    assert_eq!(again.image().as_bytes(), picture.as_bytes());
    assert_eq!(again.image().color(), picture.color());
    assert_eq!(encode_image(&again).unwrap(), want);
    let other = transform_image("a.png", &gradient_png(44, 33), 20, 10).unwrap();
    assert_ne!(encode_image(&other).unwrap(), want);
}

#[test]
fn a_size_too_large_for_jpeg_is_refused() {
    let bytes = gradient_png(7, 1);
    for (w, h) in [(65536u32, 1u32), (1, 65536), (70000, 70000), (u32::MAX, u32::MAX)] {
        match transform_image("a.png", &bytes, w, h) {
            Err(TransformError::EncodeFailed(reason)) => assert_eq!(reason, TOO_LARGE),
            other => panic!("gave {:?}", other.map(|r| (r.width(), r.height()))),
        }
        assert!(matches!(admit_size(w, h), Err(TransformError::EncodeFailed(_))));
    }
    assert!(admit_size(65535, 65535).is_ok());
    assert!(admit_size(1, 1).is_ok());
    assert_eq!(MAX_SIDE, 65535);
}

#[test]
fn the_largest_side_is_still_cut() {
    let raster = transform_image("a.png", &gradient_png(700, 1), 65535, 1).unwrap();
    assert_eq!(raster.image().dimensions(), (65535, 1));
    assert!(encode_image(&raster).is_ok());
}

#[test]
fn decoding_is_tried_before_the_size_is_judged() {
    assert!(matches!(
        transform_image("a.png", b"junk", 70000, 1),
        Err(TransformError::DecodeFailed(_))
    ));
}

#[test]
fn a_raster_of_sixteen_bit_samples_fails_to_encode() {
    let picture = image::ImageBuffer::<Rgb<u16>, Vec<u16>>::from_pixel(6, 4, Rgb([1000, 20000, 65000]));
    let bytes = encoded(DynamicImage::ImageRgb16(picture), ImageFormat::Png);
    let raster = transform_image("deep.png", &bytes, 3, 2).unwrap();
    assert_eq!(raster.image().color(), ColorType::Rgb16);
    match encode_image(&raster) {
        Err(TransformError::EncodeFailed(reason)) => assert!(!reason.is_empty()),
        other => panic!("gave {:?}", other.map(|b| b.len())),
    }
    assert!(matches!(
        render("deep.png", &bytes, 3, 2),
        Err(TransformError::EncodeFailed(_))
    ));
}

#[test]
fn rendering_goes_from_bytes_to_bytes() {
    let source = gradient_png(90, 60);
    let bytes = render("/in/a.png", &source, 30, 30).unwrap();
    let back = image::load_from_memory_with_format(&bytes, ImageFormat::Jpeg).unwrap();
    assert_eq!(back.dimensions(), (30, 30));
    let raster = transform_image("/in/a.png", &source, 30, 30).unwrap();
    assert_eq!(bytes, encode_image(&raster).unwrap());
    assert!(matches!(render("a.png", b"junk", 30, 30), Err(TransformError::DecodeFailed(_))));
    assert!(matches!(
        render("a.png", &gradient_png(7, 1), 70000, 1),
        Err(TransformError::EncodeFailed(_))
    ));
}

fn grey_png(width: u32, height: u32) -> Vec<u8> {
    let picture = GrayImage::from_fn(width, height, |x, y| Luma([((x + y) % 251) as u8]));
    encoded(DynamicImage::ImageLuma8(picture), ImageFormat::Png)
}

#[test]
fn long_thin_sources_are_cut() {
    let bytes = grey_png(1, 100000);
    for (w, h) in [(1u32, 1u32), (2, 2), (1, 7), (3, 1)] {
        let raster = transform_image("strip.png", &bytes, w, h).unwrap();
        assert_eq!(raster.image().dimensions(), (w, h));
    }
    let bytes = grey_png(300000, 3);
    for (w, h) in [(1u32, 1u32), (2, 2), (9, 1)] {
        let raster = transform_image("band.png", &bytes, w, h).unwrap();
        assert_eq!(raster.image().dimensions(), (w, h));
    }
}

#[test]
fn the_longest_source_is_still_cut() {
    let bytes = grey_png(MAX_EDGE, 1);
    let raster = transform_image("edge.png", &bytes, 1, 1).unwrap();
    assert_eq!(raster.image().dimensions(), (1, 1));
    assert_eq!(MAX_EDGE, 1048576);
}

#[test]
fn a_source_with_a_side_too_long_is_refused() {
    let bytes = grey_png(1, MAX_EDGE + 1);
    for (w, h) in [(1u32, 1u32), (200, 200)] {
        match transform_image("long.png", &bytes, w, h) {
            Err(TransformError::ResizeFailed(reason)) => assert_eq!(reason, TOO_LONG),
            other => panic!("gave {:?}", other.map(|r| (r.width(), r.height()))),
        }
        assert!(matches!(
            render("long.png", &bytes, w, h),
            Err(TransformError::ResizeFailed(_))
        ));
    }
}

#[test]
fn a_cut_that_would_scale_a_side_too_long_is_refused() {
    let bytes = grey_png(1, 100);
    match transform_image("thin.png", &bytes, 65535, 1) {
        Err(TransformError::ResizeFailed(reason)) => assert_eq!(reason, TOO_LONG),
        other => panic!("gave {:?}", other.map(|r| (r.width(), r.height()))),
    }
    let bytes = grey_png(100, 1);
    assert!(matches!(
        transform_image("flat.png", &bytes, 1, 65535),
        Err(TransformError::ResizeFailed(_))
    ));
}

#[test]
fn the_scale_is_judged_by_the_sides_and_their_proportions() {
    // A source of 4 by 2.
    let source = transform_image("a.png", &grey_png(8, 4), 4, 2).unwrap();
    assert!(admit_scale(&source, 1, 1).is_ok());
    assert!(admit_scale(&source, 65535, 65535).is_ok());
    // Covering 1 by 65535 scales the width to 4 * 65535 / 2, within the bound.
    assert!(admit_scale(&source, 1, 65535).is_ok());
    let strip = transform_image("a.png", &grey_png(40, 1), 40, 1).unwrap();
    // Covering 1 by 26214 scales the width of 40 to 1048560; one row more is too much.
    assert!(admit_scale(&strip, 1, 26214).is_ok());
    match admit_scale(&strip, 1, 26215) {
        Err(TransformError::ResizeFailed(reason)) => assert_eq!(reason, TOO_LONG),
        other => panic!("gave {:?}", other),
    }
    let column = transform_image("a.png", &grey_png(1, 40), 1, 40).unwrap();
    assert!(admit_scale(&column, 26214, 1).is_ok());
    assert!(admit_scale(&column, 26215, 1).is_err());
}

#[test]
fn decoding_and_size_are_judged_before_the_scale() {
    assert!(matches!(
        transform_image("a.png", b"junk", 65535, 1),
        Err(TransformError::DecodeFailed(_))
    ));
    assert!(matches!(
        transform_image("a.png", &grey_png(1, 100), 65536, 1),
        Err(TransformError::EncodeFailed(_))
    ));
}

#[test]
fn a_decoded_raster_with_pixels_is_admitted() {
    let raster = transform_image("a.png", &gradient_png(9, 9), 1, 1).unwrap();
    let raster = admit_decoded(raster).unwrap();
    assert_eq!((raster.width(), raster.height()), (1, 1));
    assert_eq!(EMPTY_IMAGE, "the image has no pixels");
}
