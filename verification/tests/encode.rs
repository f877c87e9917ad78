use libgeotiles::encode::options::{EncodeOptions, JpegOptions, PngCompression, PngFilter};
use libgeotiles::encode::{color_type, color_type_no_alpha, encode_tile, la8_to_rgba, strip_alpha, ColorType};
use libgeotiles::tile::Format;
use libgeotiles::Error;

#[test]
fn png_grayscale_has_valid_header() {
    let pixels = vec![128u8; 4 * 4];
    let out = encode_tile(&pixels, 4, 4, 1, Format::Png, &EncodeOptions::default()).unwrap();
    assert!(out.starts_with(b"\x89PNG"), "expected PNG magic bytes");
    assert!(!out.is_empty());
}

#[test]
fn png_rgb_has_valid_header() {
    let pixels = vec![255u8; 4 * 4 * 3];
    let out = encode_tile(&pixels, 4, 4, 3, Format::Png, &EncodeOptions::default()).unwrap();
    assert!(out.starts_with(b"\x89PNG"), "expected PNG magic bytes");
}

#[test]
fn unimplemented_format_returns_encode_error() {
    let pixels = vec![0u8; 4 * 4];
    let err = encode_tile(&pixels, 4, 4, 1, Format::Avif, &EncodeOptions::default()).unwrap_err();
    assert!(matches!(err, Error::Encode(_)), "unexpected error: {err:?}");
}

#[test]
fn band_counts_outside_one_to_four_are_refused() {
    let pixels = vec![0u8; 4 * 4 * 5];
    for bands in [0usize, 5] {
        let err = encode_tile(&pixels, 4, 4, bands, Format::Png, &EncodeOptions::default()).unwrap_err();
        assert!(matches!(err, Error::BadBandCount(n) if n == bands), "unexpected error: {err:?}");
    }
}

#[test]
fn jxl_is_refused_with_its_message() {
    let pixels = vec![0u8; 4];
    match encode_tile(&pixels, 2, 2, 1, Format::Jxl, &EncodeOptions::default()) {
        Err(Error::Encode(m)) => assert_eq!(m, "JXL feature not compiled in"),
        other => panic!("unexpected {:?}", other),
    }
    match encode_tile(&pixels, 2, 2, 1, Format::Avif, &EncodeOptions::default()) {
        Err(Error::Encode(m)) => assert_eq!(m, "AVIF feature not compiled in"),
        other => panic!("unexpected {:?}", other),
    }
}

#[test]
fn every_png_layout_and_option_encodes() {
    let mut opts = EncodeOptions::default();
    for (c, f) in [
        (PngCompression::Fast, PngFilter::NoFilter),
        (PngCompression::Best, PngFilter::Paeth),
        (PngCompression::Default, PngFilter::Sub),
    ] {
        opts.png.compression = c;
        opts.png.filter = f;
        for bands in [1usize, 3, 4] {
            let pixels = vec![77u8; 3 * 2 * bands];
            let out = encode_tile(&pixels, 3, 2, bands, Format::Png, &opts).unwrap();
            assert_eq!(&out[..8], &[137u8, 80, 78, 71, 13, 10, 26, 10]);
        }
    }
}

#[test]
fn png_of_zero_width_fails() {
    assert!(encode_tile(&[], 0, 4, 1, Format::Png, &EncodeOptions::default()).is_err());
}

#[test]
fn jpeg_takes_every_band_count() {
    let opts = EncodeOptions { jpeg: JpegOptions { quality: 90 }, ..EncodeOptions::default() };
    for bands in 1usize..=4 {
        let pixels = vec![200u8; 8 * 8 * bands];
        let out = encode_tile(&pixels, 8, 8, bands, Format::Jpeg, &opts).unwrap();
        assert_eq!(&out[..2], &[0xFF, 0xD8]);
    }
    assert!(encode_tile(&[], 0, 0, 3, Format::Jpeg, &opts).is_err());
}

#[test]
fn webp_takes_every_band_count() {
    for bands in 1usize..=4 {
        let pixels = vec![9u8; 4 * 4 * bands];
        let out = encode_tile(&pixels, 4, 4, bands, Format::WebP, &EncodeOptions::default()).unwrap();
        assert_eq!(&out[..4], b"RIFF");
        assert_eq!(&out[8..12], b"WEBP");
    }
}

#[test]
fn strip_alpha_and_la8_expansion() {
    assert_eq!(strip_alpha(&[1, 2, 3, 4, 5, 6, 7, 8], 4), vec![1, 2, 3, 5, 6, 7]);
    assert_eq!(strip_alpha(&[1, 2, 3, 4, 5], 2), vec![1, 3]);
    assert_eq!(la8_to_rgba(&[10, 20, 30, 40]), vec![10, 10, 10, 20, 30, 30, 30, 40]);
}

#[test]
fn colour_layouts_by_band_count() {
    assert!(matches!(color_type(1), Ok(ColorType::L8)));
    assert!(matches!(color_type(2), Ok(ColorType::La8)));
    assert!(matches!(color_type(3), Ok(ColorType::Rgb8)));
    assert!(matches!(color_type(4), Ok(ColorType::Rgba8)));
    assert!(matches!(color_type(0), Err(Error::BadBandCount(0))));
    assert!(matches!(color_type_no_alpha(3), Ok(ColorType::Rgb8)));
    assert!(matches!(color_type_no_alpha(2), Err(Error::BadBandCount(2))));
}

#[test]
fn bad_band_count_returns_error() {
    // 2-band images are not supported.
    let pixels = vec![0u8; 4 * 4 * 2];
    let err = encode_tile(&pixels, 4, 4, 2, Format::Png, &EncodeOptions::default()).unwrap_err();
    assert!(matches!(err, Error::BadBandCount(2)), "unexpected error: {err:?}");
}

#[test]
fn jpeg_of_alpha_input_equals_jpeg_of_the_stripped_pixels() {
    let opts = EncodeOptions::default();
    let rgba: Vec<u8> = (0..8 * 8 * 4).map(|i| (i * 7 % 256) as u8).collect();
    let with_alpha = encode_tile(&rgba, 8, 8, 4, Format::Jpeg, &opts).unwrap();
    let stripped = encode_tile(&strip_alpha(&rgba, 4), 8, 8, 3, Format::Jpeg, &opts).unwrap();
    assert_eq!(with_alpha, stripped);
    let la: Vec<u8> = (0..8 * 8 * 2).map(|i| (i * 5 % 256) as u8).collect();
    let with_alpha = encode_tile(&la, 8, 8, 2, Format::Jpeg, &opts).unwrap();
    let stripped = encode_tile(&strip_alpha(&la, 2), 8, 8, 1, Format::Jpeg, &opts).unwrap();
    assert_eq!(with_alpha, stripped);
}

#[test]
fn encoders_refuse_sizes_beyond_their_limits() {
    let opts = EncodeOptions::default();
    let row = vec![1u8; 16385];
    assert!(encode_tile(&row, 16385, 1, 1, Format::WebP, &opts).is_err());
    assert!(encode_tile(&row[..16384], 16384, 1, 1, Format::WebP, &opts).is_ok());
    assert!(encode_tile(&row, 16385, 1, 1, Format::Jpeg, &opts).is_ok());
    assert!(encode_tile(&row, 16385, 1, 1, Format::Png, &opts).is_ok());
    assert!(encode_tile(&[], 0, 1, 1, Format::WebP, &opts).is_err());
}

#[test]
fn encoding_is_a_function_of_its_inputs() {
    let opts = EncodeOptions::default();
    let pixels = vec![33u8; 5 * 3 * 3];
    for f in [Format::Png, Format::Jpeg, Format::WebP] {
        let a = encode_tile(&pixels, 5, 3, 3, f, &opts).unwrap();
        let b = encode_tile(&pixels, 5, 3, 3, f, &opts).unwrap();
        assert_eq!(a, b);
    }
}
