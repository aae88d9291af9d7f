use image::{DynamicImage, GrayImage, ImageFormat, RgbImage, RgbaImage};
use pdfcompressor::codec::{LosslessEffort, SourceKind};
use pdfcompressor::error::CompressionError;
use pdfcompressor::image_pipeline::{
    compress_image_bytes, encode_image_with_quality, encode_prepared, extension, format_choice,
    lossless_effort, parse_target_format, pick_candidate, FormatChoice, TargetFormat,
};

fn gradient(width: u32, height: u32) -> DynamicImage {
    let mut img = RgbImage::new(width, height);
    for y in 0..height {
        for x in 0..width {
            let r = ((x as f32 / width as f32) * 255.0) as u8;
            let g = ((y as f32 / height as f32) * 255.0) as u8;
            img.put_pixel(x, y, image::Rgb([r, g, 128]));
        }
    }
    DynamicImage::ImageRgb8(img)
}

fn noise(width: u32, height: u32) -> DynamicImage {
    let mut state: u64 = 0x9e37_79b9_7f4a_7c15;
    let mut img = RgbImage::new(width, height);
    for pixel in img.pixels_mut() {
        state ^= state << 13;
        state ^= state >> 7;
        state ^= state << 17;
        *pixel = image::Rgb([(state >> 8) as u8, (state >> 24) as u8, (state >> 40) as u8]);
    }
    DynamicImage::ImageRgb8(img)
}

fn encoded(image: &DynamicImage, format: ImageFormat) -> Vec<u8> {
    let mut output = Vec::new();
    image.write_to(&mut std::io::Cursor::new(&mut output), format).unwrap();
    output
}

fn failure(text: &str) -> Result<Vec<u8>, CompressionError> {
    Err(CompressionError::SerializeFailed(text.to_string()))
}

#[test]
fn parse_target_format_accepts_the_supported_names_in_any_case() {
    for name in ["jpg", "jpeg", "JPG", "Jpeg", "JPEG"] {
        assert_eq!(parse_target_format(name), Some(TargetFormat::Jpeg));
    }
    for name in ["png", "PNG", "Png"] {
        assert_eq!(parse_target_format(name), Some(TargetFormat::Png));
    }
    for name in ["webp", "WebP", "WEBP"] {
        assert_eq!(parse_target_format(name), Some(TargetFormat::WebP));
    }
    for name in ["", "invalid", "gif", "jpg ", ".png", "jpe", "tiff"] {
        assert_eq!(parse_target_format(name), None);
    }
}

#[test]
fn extensions_and_efforts() {
    assert_eq!(extension(TargetFormat::Jpeg), "jpg");
    assert_eq!(extension(TargetFormat::Png), "png");
    assert_eq!(extension(TargetFormat::WebP), "webp");
    assert_eq!(lossless_effort(100), LosslessEffort::Best);
    assert_eq!(lossless_effort(90), LosslessEffort::Best);
    assert_eq!(lossless_effort(89), LosslessEffort::Default);
    assert_eq!(lossless_effort(70), LosslessEffort::Default);
    assert_eq!(lossless_effort(69), LosslessEffort::Fast);
    assert_eq!(lossless_effort(0), LosslessEffort::Fast);
}

#[test]
fn format_choice_follows_request_then_source() {
    for kind in [SourceKind::Jpeg, SourceKind::WebP, SourceKind::Other] {
        assert_eq!(format_choice(kind, Some("png")), Some(FormatChoice::Fixed(TargetFormat::Png)));
        assert_eq!(format_choice(kind, Some("JPEG")), Some(FormatChoice::Fixed(TargetFormat::Jpeg)));
        assert_eq!(format_choice(kind, Some("webp")), Some(FormatChoice::Fixed(TargetFormat::WebP)));
        assert_eq!(format_choice(kind, Some("bmp")), None);
        assert_eq!(format_choice(kind, Some("")), None);
    }
    assert_eq!(format_choice(SourceKind::Jpeg, None), Some(FormatChoice::Fixed(TargetFormat::Jpeg)));
    assert_eq!(format_choice(SourceKind::WebP, None), Some(FormatChoice::Fixed(TargetFormat::Jpeg)));
    assert_eq!(format_choice(SourceKind::Other, None), Some(FormatChoice::Smaller));
}

#[test]
fn pick_candidate_prefers_lossless_within_a_tenth() {
    // exactly a tenth longer: lossless
    let picked = pick_candidate(Ok(vec![1; 100]), Ok(vec![2; 110])).unwrap();
    assert_eq!(picked, (vec![2; 110], TargetFormat::Png));
    // one byte more: lossy
    let picked = pick_candidate(Ok(vec![1; 100]), Ok(vec![2; 111])).unwrap();
    assert_eq!(picked, (vec![1; 100], TargetFormat::Jpeg));
    // shorter lossless
    let picked = pick_candidate(Ok(vec![1; 100]), Ok(vec![2; 10])).unwrap();
    assert_eq!(picked.1, TargetFormat::Png);
    // sizes that are no multiple of ten: 11 * 7 = 77 >= 10 * 7, and 10 * 8 = 80 > 77
    assert_eq!(pick_candidate(Ok(vec![1; 7]), Ok(vec![2; 7])).unwrap().1, TargetFormat::Png);
    assert_eq!(pick_candidate(Ok(vec![1; 7]), Ok(vec![2; 8])).unwrap().1, TargetFormat::Jpeg);
    assert_eq!(pick_candidate(Ok(vec![]), Ok(vec![])).unwrap().1, TargetFormat::Png);
    assert_eq!(pick_candidate(Ok(vec![]), Ok(vec![0])).unwrap().1, TargetFormat::Jpeg);
}

#[test]
fn pick_candidate_falls_back_to_the_one_that_exists() {
    assert_eq!(pick_candidate(Ok(vec![1; 5]), failure("png broke")).unwrap(), (vec![1; 5], TargetFormat::Jpeg));
    assert_eq!(pick_candidate(failure("jpeg broke"), Ok(vec![2; 500])).unwrap(), (vec![2; 500], TargetFormat::Png));
    match pick_candidate(failure("JPEG encoding failed: a"), failure("PNG encoding failed: b")) {
        Err(CompressionError::SerializeFailed(text)) => assert_eq!(
            text,
            "Both JPEG and PNG encoding failed: JPEG encoding failed: a / PNG encoding failed: b"
        ),
        other => panic!("unexpected result {:?}", other),
    }
}

#[test]
fn encode_image_with_quality_writes_the_requested_format() {
    let image = gradient(64, 48);
    let jpeg = encode_image_with_quality(&image, 50, TargetFormat::Jpeg).unwrap();
    assert_eq!(image::guess_format(&jpeg).unwrap(), ImageFormat::Jpeg);
    let png = encode_image_with_quality(&image, 50, TargetFormat::Png).unwrap();
    assert_eq!(image::guess_format(&png).unwrap(), ImageFormat::Png);
    let webp = encode_image_with_quality(&image, 50, TargetFormat::WebP).unwrap();
    assert_eq!(image::guess_format(&webp).unwrap(), ImageFormat::WebP);
    // the lossless formats give the pixels back
    assert_eq!(image::load_from_memory(&png).unwrap().to_rgb8(), image.to_rgb8());
    assert_eq!(image::load_from_memory(&webp).unwrap().to_rgb8(), image.to_rgb8());
    // the lossy format at a lower quality is shorter
    let coarse = encode_image_with_quality(&noise(64, 48), 30, TargetFormat::Jpeg).unwrap();
    let fine = encode_image_with_quality(&noise(64, 48), 85, TargetFormat::Jpeg).unwrap();
    assert!(coarse.len() < fine.len());
}

#[test]
fn encode_image_with_quality_downsamples_by_the_quality() {
    let image = gradient(1600, 400);
    for (quality, expected) in [(40u8, (1000, 250)), (50, (1200, 300)), (69, (1200, 300)), (70, (1500, 375)), (90, (1600, 400))] {
        for format in [TargetFormat::Jpeg, TargetFormat::Png] {
            let bytes = encode_image_with_quality(&image, quality, format).unwrap();
            let decoded = image::load_from_memory(&bytes).unwrap();
            assert_eq!((decoded.width(), decoded.height()), expected, "quality {}", quality);
        }
    }
    // layouts other than 8-bit RGB pass through
    let gray = DynamicImage::ImageLuma8(GrayImage::from_pixel(30, 20, image::Luma([90])));
    let png = encode_image_with_quality(&gray, 50, TargetFormat::Png).unwrap();
    assert_eq!(image::load_from_memory(&png).unwrap().color(), image::ColorType::L8);
    let rgba = DynamicImage::ImageRgba8(RgbaImage::from_pixel(30, 20, image::Rgba([1, 2, 3, 4])));
    let png = encode_image_with_quality(&rgba, 95, TargetFormat::Png).unwrap();
    assert_eq!(image::load_from_memory(&png).unwrap().to_rgba8(), rgba.to_rgba8());
}

#[test]
fn encode_image_with_quality_reports_a_failing_encoder() {
    // a JPEG file cannot be wider than 65535 pixels
    let wide = DynamicImage::ImageLuma8(GrayImage::new(70_000, 1));
    match encode_image_with_quality(&wide, 95, TargetFormat::Jpeg) {
        Err(CompressionError::SerializeFailed(text)) => assert!(text.starts_with("JPEG encoding failed: ")),
        other => panic!("unexpected result {:?}", other.map(|bytes| bytes.len())),
    }
    assert!(encode_image_with_quality(&wide, 95, TargetFormat::Png).is_ok());
}

#[test]
fn compress_image_bytes_classifies_its_failures() {
    assert!(matches!(compress_image_bytes(&[], 75, None), Err(CompressionError::EmptyInput)));
    assert!(matches!(compress_image_bytes(&[], 75, Some("invalid")), Err(CompressionError::EmptyInput)));
    match compress_image_bytes(b"hello, no image here", 75, None) {
        Err(CompressionError::ParseFailed(text)) => {
            assert!(text.starts_with("Failed to detect image format: "));
            assert!(text.len() > "Failed to detect image format: ".len());
        }
        other => panic!("unexpected result {:?}", other.map(|r| r.1)),
    }
    match compress_image_bytes(b"\xFF\xD8\xFF\xE0\x00\x10JFIF\x00\x01\x01\x00CORRUPTED", 75, Some("png")) {
        Err(CompressionError::ParseFailed(text)) => assert!(text.starts_with("Failed to load image: ")),
        other => panic!("unexpected result {:?}", other.map(|r| r.1)),
    }
    let jpeg = encoded(&gradient(40, 30), ImageFormat::Jpeg);
    match compress_image_bytes(&jpeg, 75, Some("invalid")) {
        Err(error @ CompressionError::UnsupportedFormat(_)) => {
            assert_eq!(error.message(), "Unsupported output format: invalid")
        }
        other => panic!("unexpected result {:?}", other.map(|r| r.1)),
    }
    // an undecodable input is reported before an unknown format is
    match compress_image_bytes(b"\xFF\xD8\xFF\xE0 broken", 75, Some("invalid")) {
        Err(CompressionError::ParseFailed(_)) => {}
        other => panic!("unexpected result {:?}", other.map(|r| r.1)),
    }
}

#[test]
fn compress_image_bytes_honours_the_requested_format() {
    let jpeg = encoded(&gradient(60, 40), ImageFormat::Jpeg);
    let png = encoded(&gradient(60, 40), ImageFormat::Png);
    for (input, name, expected) in [
        (&jpeg, "png", ImageFormat::Png),
        (&jpeg, "PNG", ImageFormat::Png),
        (&jpeg, "webp", ImageFormat::WebP),
        (&jpeg, "jpeg", ImageFormat::Jpeg),
        (&png, "jpg", ImageFormat::Jpeg),
        (&png, "webp", ImageFormat::WebP),
    ] {
        let (bytes, ext) = compress_image_bytes(input, 75, Some(name)).unwrap();
        assert_eq!(image::guess_format(&bytes).unwrap(), expected);
        let wanted = match expected {
            ImageFormat::Png => "png",
            ImageFormat::WebP => "webp",
            _ => "jpg",
        };
        assert_eq!(ext, wanted);
    }
}

#[test]
fn compress_image_bytes_writes_lossy_sources_as_jpeg() {
    let jpeg = encoded(&gradient(60, 40), ImageFormat::Jpeg);
    let (bytes, ext) = compress_image_bytes(&jpeg, 75, None).unwrap();
    assert_eq!(ext, "jpg");
    assert_eq!(image::guess_format(&bytes).unwrap(), ImageFormat::Jpeg);
    let webp = encoded(&gradient(60, 40), ImageFormat::WebP);
    let (bytes, ext) = compress_image_bytes(&webp, 75, None).unwrap();
    assert_eq!(ext, "jpg");
    assert_eq!(image::guess_format(&bytes).unwrap(), ImageFormat::Jpeg);
}

#[test]
fn compress_image_bytes_picks_among_both_candidates_for_lossless_sources() {
    // flat colour: the PNG is tiny, the JPEG is not
    let flat = DynamicImage::ImageRgb8(RgbImage::from_pixel(200, 200, image::Rgb([10, 20, 30])));
    let (bytes, ext) = compress_image_bytes(&encoded(&flat, ImageFormat::Png), 75, None).unwrap();
    assert_eq!(ext, "png");
    assert_eq!(image::load_from_memory(&bytes).unwrap().to_rgb8(), flat.to_rgb8());

    // noise: the PNG is far longer than the JPEG
    let grain = noise(200, 200);
    let (bytes, ext) = compress_image_bytes(&encoded(&grain, ImageFormat::Png), 75, None).unwrap();
    assert_eq!(ext, "jpg");
    assert_eq!(image::guess_format(&bytes).unwrap(), ImageFormat::Jpeg);

    // the pick is the one that the rule names
    for source in [gradient(90, 70), noise(33, 17), flat.clone()] {
        let input = encoded(&source, ImageFormat::Bmp);
        let decoded = image::load_from_memory(&input).unwrap();
        let jpeg = encode_image_with_quality(&decoded, 50, TargetFormat::Jpeg).unwrap();
        let png = encode_image_with_quality(&decoded, 50, TargetFormat::Png).unwrap();
        let (bytes, ext) = compress_image_bytes(&input, 75, None).unwrap();
        if png.len() * 10 <= jpeg.len() * 11 {
            assert_eq!((bytes, ext.as_str()), (png, "png"));
        } else {
            assert_eq!((bytes, ext.as_str()), (jpeg, "jpg"));
        }
    }
}

#[test]
fn compress_image_bytes_maps_the_level_to_the_quality() {
    let input = encoded(&noise(120, 80), ImageFormat::Jpeg);
    let decoded = image::load_from_memory(&input).unwrap();
    for (level, quality) in [(0u8, 96u8), (10, 96), (25, 90), (50, 70), (75, 50), (95, 30), (255, 30)] {
        let (bytes, _) = compress_image_bytes(&input, level, None).unwrap();
        assert_eq!(bytes, encode_image_with_quality(&decoded, quality, TargetFormat::Jpeg).unwrap());
    }
}

#[test]
fn compress_image_bytes_downsamples_large_images() {
    let input = encoded(&gradient(1800, 600), ImageFormat::Jpeg);
    let (bytes, _) = compress_image_bytes(&input, 75, None).unwrap();
    let decoded = image::load_from_memory(&bytes).unwrap();
    assert_eq!((decoded.width(), decoded.height()), (1200, 400));
    assert!(bytes.len() < input.len());
    let (bytes, _) = compress_image_bytes(&input, 10, None).unwrap();
    let decoded = image::load_from_memory(&bytes).unwrap();
    assert_eq!((decoded.width(), decoded.height()), (1800, 600));
}

#[test]
fn downsample_only_where_the_quality_asks_for_it() {
    let image = gradient(1600, 400);
    let smaller = pdfcompressor::resample::downsample(&image, 50).unwrap();
    assert_eq!((smaller.width(), smaller.height()), (1200, 300));
    assert_eq!(smaller.color(), image.color());
    assert!(pdfcompressor::resample::downsample(&image, 90).is_none());
    assert!(pdfcompressor::resample::downsample(&gradient(1200, 300), 50).is_none());
    let gray = DynamicImage::ImageLuma8(GrayImage::new(2000, 10));
    assert!(pdfcompressor::resample::downsample(&gray, 95).is_none());
    let smaller = pdfcompressor::resample::downsample(&gray, 10).unwrap();
    assert_eq!((smaller.width(), smaller.height(), smaller.color()), (1000, 5, image::ColorType::L8));
    assert_eq!(pdfcompressor::resample::new_dimensions(1600, 400, 50), Some((1200, 300)));
    assert_eq!(pdfcompressor::resample::new_dimensions(1600, 400, 90), None);
    assert_eq!(pdfcompressor::resample::new_dimensions(10, 10, 0), None);
}

#[test]
fn compress_image_bytes_reports_an_encoder_that_fails() {
    // at level 10 nothing is downsampled, and a JPEG file cannot be 70000 pixels wide
    let wide = DynamicImage::ImageLuma8(GrayImage::new(70_000, 1));
    let input = encoded(&wide, ImageFormat::Png);
    match compress_image_bytes(&input, 10, Some("jpg")) {
        Err(error @ CompressionError::SerializeFailed(_)) => {
            assert!(error.message().starts_with("JPEG encoding failed: "))
        }
        other => panic!("unexpected result {:?}", other.map(|r| r.1)),
    }
    // without a request the candidate that exists is taken
    let (bytes, ext) = compress_image_bytes(&input, 10, None).unwrap();
    assert_eq!(ext, "png");
    assert_eq!(image::load_from_memory(&bytes).unwrap().width(), 70_000);
    // at level 75 the image is brought down to 1200 pixels first
    let (bytes, ext) = compress_image_bytes(&input, 75, Some("jpg")).unwrap();
    assert_eq!(ext, "jpg");
    assert_eq!(image::load_from_memory(&bytes).unwrap().width(), 1200);
}

#[test]
fn encode_prepared_keeps_the_dimensions() {
    let source = gradient(3000, 2000);
    for (format, read_as) in [
        (TargetFormat::Jpeg, ImageFormat::Jpeg),
        (TargetFormat::Png, ImageFormat::Png),
        (TargetFormat::WebP, ImageFormat::WebP),
    ] {
        let small = gradient(64, 48);
        let encoded = encode_prepared(&small, 50, format).unwrap();
        let decoded = image::load_from_memory_with_format(&encoded, read_as).unwrap();
        assert_eq!((decoded.width(), decoded.height()), (64, 48));
    }
    // the image goes to the encoder as it is, also where it is above the cap
    let encoded = encode_prepared(&source, 50, TargetFormat::Jpeg).unwrap();
    let decoded = image::load_from_memory(&encoded).unwrap();
    assert_eq!((decoded.width(), decoded.height()), (3000, 2000));
    // the lossless encoder filters each row adaptively
    let small = gradient(64, 48);
    let mut expected = Vec::new();
    let encoder = image::codecs::png::PngEncoder::new_with_quality(
        &mut expected,
        image::codecs::png::CompressionType::Fast,
        image::codecs::png::FilterType::Adaptive,
    );
    image::ImageEncoder::write_image(encoder, small.as_bytes(), 64, 48, small.color()).unwrap();
    assert_eq!(encode_prepared(&small, 50, TargetFormat::Png).unwrap(), expected);
}

#[test]
fn format_names_are_read_whatever_their_case() {
    for name in ["jpg", "JPG", "Jpg", "jPG", "jpeg", "JPEG", "JpEg"] {
        assert_eq!(parse_target_format(name), Some(TargetFormat::Jpeg));
    }
    for name in ["png", "PNG", "pNg"] {
        assert_eq!(parse_target_format(name), Some(TargetFormat::Png));
    }
    for name in ["webp", "WEBP", "WebP"] {
        assert_eq!(parse_target_format(name), Some(TargetFormat::WebP));
    }
    // only capital letters change: what is no letter stays what it is
    for name in ["jp g", "j-pg", "png ", ".png", "jpe", "", "JPG\u{130}"] {
        assert_eq!(parse_target_format(name), None);
    }
}
