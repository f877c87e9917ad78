//! Tile encoder: PNG, JPEG and WebP through the `image` crate; AVIF and JPEG XL are not
//! built into this library and are refused at run time.

pub mod options;

use vstd::prelude::*;
use vstd::arithmetic::div_mod::lemma_fundamental_div_mod_converse;

use image::codecs::jpeg::JpegEncoder;
use image::codecs::png::{CompressionType, FilterType, PngEncoder};
use image::codecs::webp::WebPEncoder;
use image::{ExtendedColorType, ImageEncoder};

use crate::error::Error;
use crate::tile::Format;
use options::{EncodeOptions, PngCompression, PngFilter};

verus! {

/// `image::ExtendedColorType`, the colour layout the encoders of `image` take; carried
/// opaque, nothing is claimed of it.
#[verifier::external_type_specification]
#[verifier::external_body]
pub struct ExExtendedColorType(image::ExtendedColorType);

/// 8-bit colour layouts of tile pixels.
#[derive(Debug, Clone, Copy, PartialEq, Eq, Structural)]
pub enum ColorType {
    L8,
    La8,
    Rgb8,
    Rgba8,
}

/// Bytes per pixel of a colour layout.
pub open spec fn bytes_per_pixel(c: ColorType) -> int {
    match c {
        ColorType::L8 => 1,
        ColorType::La8 => 2,
        ColorType::Rgb8 => 3,
        ColorType::Rgba8 => 4,
    }
}

/// Colour layout of `bands` interleaved 8-bit samples, for 1 to 4 bands.
pub open spec fn color_of(bands: int) -> ColorType {
    if bands == 1 {
        ColorType::L8
    } else if bands == 2 {
        ColorType::La8
    } else if bands == 3 {
        ColorType::Rgb8
    } else {
        ColorType::Rgba8
    }
}

/// Map band count to the corresponding colour layout.
pub fn color_type(bands: usize) -> (r: Result<ColorType, Error>)
    ensures
        1 <= bands <= 4 ==> r == Ok::<ColorType, Error>(color_of(bands as int)),
        !(1 <= bands <= 4) ==> (r matches Err(Error::BadBandCount(n)) && n == bands),
{
    match bands {
        1 => Ok(ColorType::L8),
        2 => Ok(ColorType::La8),
        3 => Ok(ColorType::Rgb8),
        4 => Ok(ColorType::Rgba8),
        n => Err(Error::BadBandCount(n)),
    }
}

/// For formats without alpha: map band count to a colour layout, grey or RGB only.
pub fn color_type_no_alpha(bands: usize) -> (r: Result<ColorType, Error>)
    ensures
        bands == 1 ==> r == Ok::<ColorType, Error>(ColorType::L8),
        bands == 3 ==> r == Ok::<ColorType, Error>(ColorType::Rgb8),
        bands != 1 && bands != 3 ==> (r matches Err(Error::BadBandCount(n)) && n == bands),
{
    match bands {
        1 => Ok(ColorType::L8),
        3 => Ok(ColorType::Rgb8),
        n => Err(Error::BadBandCount(n)),
    }
}

/// The pixels with the last (alpha) sample of every whole pixel of `src_bands` samples
/// removed; a trailing partial pixel is dropped.
pub open spec fn alpha_stripped(pixels: Seq<u8>, src_bands: int) -> Seq<u8> {
    let dst = src_bands - 1;
    Seq::new(
        ((pixels.len() as int / src_bands) * dst) as nat,
        |i: int| pixels[(i / dst) * src_bands + i % dst],
    )
}

/// Strip the last (alpha) channel from a packed interleaved pixel buffer, keeping the
/// remaining `src_bands - 1` channels.
pub fn strip_alpha(pixels: &[u8], src_bands: usize) -> (out: Vec<u8>)
    requires
        src_bands >= 1,
    ensures
        out@ == alpha_stripped(pixels@, src_bands as int),
{
    let dst_bands = src_bands - 1;
    let plen = pixels.len();
    let npx = plen / src_bands;
    let ghost want = alpha_stripped(pixels@, src_bands as int);
    proof {
        assert(npx * src_bands <= plen) by {
            vstd::arithmetic::div_mod::lemma_fundamental_div_mod(plen as int, src_bands as int);
            vstd::arithmetic::div_mod::lemma_mod_bound(plen as int, src_bands as int);
            assert(src_bands * npx == npx * src_bands) by (nonlinear_arith);
        }
        assert(npx * dst_bands <= npx * src_bands) by (nonlinear_arith)
            requires
                dst_bands <= src_bands,
        ;
    }
    let mut out: Vec<u8> = Vec::new();
    let mut px: usize = 0;
    while px < npx
        invariant
            dst_bands == src_bands - 1,
            src_bands >= 1,
            plen == pixels@.len(),
            npx == plen / src_bands,
            npx * src_bands <= plen,
            npx * dst_bands <= plen,
            want == alpha_stripped(pixels@, src_bands as int),
            0 <= px <= npx,
            out@.len() == px * dst_bands,
            forall|k: int| 0 <= k < out@.len() ==> #[trigger] out@[k] == want[k],
        decreases npx - px,
    {
        proof {
            assert((px + 1) * src_bands <= npx * src_bands) by (nonlinear_arith)
                requires
                    px < npx,
            ;
            assert((px + 1) * dst_bands <= npx * dst_bands) by (nonlinear_arith)
                requires
                    px < npx,
            ;
        }
        let mut b: usize = 0;
        while b < dst_bands
            invariant
                dst_bands == src_bands - 1,
                src_bands >= 1,
                plen == pixels@.len(),
                (px + 1) * src_bands <= plen,
                (px + 1) * dst_bands <= npx * dst_bands,
                want == alpha_stripped(pixels@, src_bands as int),
                want.len() == npx * dst_bands,
                0 <= px < npx,
                0 <= b <= dst_bands,
                out@.len() == px * dst_bands + b,
                forall|k: int| 0 <= k < out@.len() ==> #[trigger] out@[k] == want[k],
            decreases dst_bands - b,
        {
            proof {
                assert(px * dst_bands + b < (px + 1) * dst_bands) by (nonlinear_arith)
                    requires
                        b < dst_bands,
                ;
                assert(px * src_bands + b < (px + 1) * src_bands) by (nonlinear_arith)
                    requires
                        b < src_bands,
                ;
                lemma_fundamental_div_mod_converse(
                    (px * dst_bands + b) as int,
                    dst_bands as int,
                    px as int,
                    b as int,
                );
            }
            out.push(pixels[px * src_bands + b]);
            b += 1;
        }
        proof {
            assert(px * dst_bands + dst_bands == (px + 1) * dst_bands) by (nonlinear_arith);
        }
        px += 1;
    }
    assert(out@ =~= want);
    out
}

/// A 2-band grey + alpha buffer expanded to RGBA: the grey value replicated into R, G and
/// B, the alpha kept; a trailing odd byte is dropped.
pub open spec fn la8_expanded(pixels: Seq<u8>) -> Seq<u8> {
    Seq::new(
        ((pixels.len() / 2) * 4) as nat,
        |i: int|
            if i % 4 < 3 {
                pixels[(i / 4) * 2]
            } else {
                pixels[(i / 4) * 2 + 1]
            },
    )
}

/// Expand a 2-band La8 (grey + alpha) buffer to 4-band RGBA by replicating the grey value
/// into R, G and B. Used for encoders that do not take La8.
pub fn la8_to_rgba(pixels: &[u8]) -> (out: Vec<u8>)
    requires
        pixels@.len() * 2 <= usize::MAX,
    ensures
        out@ == la8_expanded(pixels@),
{
    let plen = pixels.len();
    let npx = plen / 2;
    let ghost want = la8_expanded(pixels@);
    let mut out: Vec<u8> = Vec::new();
    let mut px: usize = 0;
    while px < npx
        invariant
            plen == pixels@.len(),
            npx == plen / 2,
            want == la8_expanded(pixels@),
            0 <= px <= npx,
            out@.len() == px * 4,
            forall|k: int| 0 <= k < out@.len() ==> #[trigger] out@[k] == want[k],
        decreases npx - px,
    {
        let g = pixels[px * 2];
        let a = pixels[px * 2 + 1];
        proof {
            assert forall|j: int| 0 <= j < 4 implies #[trigger] want[px * 4 + j] == (if j < 3 {
                g
            } else {
                a
            }) by {
                lemma_fundamental_div_mod_converse(px * 4 + j, 4, px as int, j);
            }
        }
        out.push(g);
        out.push(g);
        out.push(g);
        out.push(a);
        px += 1;
    }
    assert(out@ =~= want);
    out
}

/// The PNG file signature.
pub open spec fn png_signature() -> Seq<u8> {
    seq![137u8, 80, 78, 71, 13, 10, 26, 10]
}

/// Converts a colour layout to the `image` crate's `ExtendedColorType`, variant for
/// variant. Nothing is claimed of the value: the encoders' contracts speak of the
/// library's own colour layout.
#[verifier::external_body]
fn extended_color(c: ColorType) -> ExtendedColorType {
    match c {
        ColorType::L8 => ExtendedColorType::L8,
        ColorType::La8 => ExtendedColorType::La8,
        ColorType::Rgb8 => ExtendedColorType::Rgb8,
        ColorType::Rgba8 => ExtendedColorType::Rgba8,
    }
}

/// The PNG file that `image`'s `PngEncoder` writes for these pixels, size, colour layout
/// and presets.
pub uninterp spec fn png_encoded(
    pixels: Seq<u8>,
    width: u32,
    height: u32,
    color: ColorType,
    compression: PngCompression,
    filter: PngFilter,
) -> Seq<u8>;

/// The JPEG file that `image`'s `JpegEncoder` writes for these pixels, size, colour layout
/// and quality.
pub uninterp spec fn jpeg_encoded(
    pixels: Seq<u8>,
    width: u32,
    height: u32,
    color: ColorType,
    quality: u8,
) -> Seq<u8>;

/// The lossless WebP file that `image`'s `WebPEncoder` writes for these pixels, size and
/// colour layout.
pub uninterp spec fn webp_encoded(pixels: Seq<u8>, width: u32, height: u32, color: ColorType) -> Seq<u8>;

/// Calls `PngEncoder::new_with_quality(..).write_image(..)` of the `image` crate into a
/// `Vec`, with the compression and filter presets mapped variant for variant.
///
/// Claimed of the crate, as its source shows (through the `png` crate's writer): the
/// encoding succeeds exactly when width and height are nonzero (the bytes go to a `Vec`,
/// whose writes do not fail); a successful encoding starts with the PNG signature and is
/// a function of the pixels, the size, the colour layout and the two presets alone, named
/// [`png_encoded`]. The buffer must hold exactly `width * height` pixels (the crate panics
/// otherwise). The compressed bytes themselves are not stated.
#[verifier::external_body]
fn png_encode(
    pixels: &[u8],
    width: u32,
    height: u32,
    color: ColorType,
    compression: PngCompression,
    filter: PngFilter,
) -> (r: Result<Vec<u8>, Error>)
    requires
        pixels@.len() == width * height * bytes_per_pixel(color),
    ensures
        width > 0 && height > 0 ==> r is Ok,
        r is Ok ==> width > 0 && height > 0,
        r matches Ok(v) ==> v@ == png_encoded(pixels@, width, height, color, compression, filter),
        r matches Ok(v) ==> v@.len() >= 8 && v@.subrange(0, 8) == png_signature(),
{
    let c = match compression { PngCompression::Default => CompressionType::Default,
        PngCompression::Fast => CompressionType::Fast, PngCompression::Best => CompressionType::Best };
    let f = match filter { PngFilter::Adaptive => FilterType::Adaptive, PngFilter::NoFilter => FilterType::NoFilter,
        PngFilter::Sub => FilterType::Sub, PngFilter::Up => FilterType::Up,
        PngFilter::Avg => FilterType::Avg, PngFilter::Paeth => FilterType::Paeth };
    let mut out = Vec::new();
    PngEncoder::new_with_quality(&mut out, c, f)
        .write_image(pixels, width, height, extended_color(color))
        .map_err(|e| Error::Encode(e.to_string()))?;
    Ok(out)
}

/// Calls `JpegEncoder::new_with_quality(..).write_image(..)` of the `image` crate into a
/// `Vec`.
///
/// Claimed of the crate, as its source shows: the encoding succeeds exactly for grey or
/// RGB input with width and height from 1 to 65535 (the bytes go to a `Vec`, whose
/// writes do not fail); a successful encoding starts with the JPEG start-of-image marker
/// `FF D8` and is a function of the pixels, the size, the colour layout and the quality
/// alone, named [`jpeg_encoded`]. The buffer must hold exactly `width * height` pixels
/// (the crate panics otherwise). The compressed bytes themselves are not stated.
#[verifier::external_body]
fn jpeg_encode(pixels: &[u8], width: u32, height: u32, color: ColorType, quality: u8) -> (r: Result<
    Vec<u8>,
    Error,
>)
    requires
        pixels@.len() == width * height * bytes_per_pixel(color),
    ensures
        (color == ColorType::L8 || color == ColorType::Rgb8) && 1 <= width <= 65535 && 1 <= height
            <= 65535 ==> r is Ok,
        r is Ok ==> (color == ColorType::L8 || color == ColorType::Rgb8) && 1 <= width <= 65535
            && 1 <= height <= 65535,
        r matches Ok(v) ==> v@ == jpeg_encoded(pixels@, width, height, color, quality),
        r matches Ok(v) ==> v@.len() >= 2 && v@[0] == 0xFFu8 && v@[1] == 0xD8u8,
{
    let mut out = Vec::new();
    JpegEncoder::new_with_quality(&mut out, quality)
        .write_image(pixels, width, height, extended_color(color))
        .map_err(|e| Error::Encode(e.to_string()))?;
    Ok(out)
}

/// Calls `WebPEncoder::new_lossless(..).write_image(..)` of the `image` crate into a `Vec`.
///
/// Claimed of the crate, as its source shows (through `image-webp`): the encoding succeeds
/// exactly when width and height are from 1 to 16384 (the bytes go to a `Vec`, whose
/// writes do not fail); a successful encoding is a RIFF container of type `WEBP` and is a
/// function of the pixels, the size and the colour layout alone, named [`webp_encoded`].
/// The buffer must hold exactly `width * height` pixels (the crate panics otherwise). The
/// compressed bytes themselves are not stated.
#[verifier::external_body]
fn webp_encode(pixels: &[u8], width: u32, height: u32, color: ColorType) -> (r: Result<Vec<u8>, Error>)
    requires
        pixels@.len() == width * height * bytes_per_pixel(color),
    ensures
        1 <= width <= 16384 && 1 <= height <= 16384 ==> r is Ok,
        r is Ok ==> 1 <= width <= 16384 && 1 <= height <= 16384,
        r matches Ok(v) ==> v@ == webp_encoded(pixels@, width, height, color),
        r matches Ok(v) ==> v@.len() >= 12 && v@.subrange(0, 4) == seq![82u8, 73, 70, 70]
            && v@.subrange(8, 12) == seq![87u8, 69, 66, 80],
{
    let mut out = Vec::new();
    WebPEncoder::new_lossless(&mut out)
        .write_image(pixels, width, height, extended_color(color))
        .map_err(|e| Error::Encode(e.to_string()))?;
    Ok(out)
}

/// A fresh vector holding the samples of `pixels`.
fn copy_of(pixels: &[u8]) -> (out: Vec<u8>)
    ensures
        out@ == pixels@,
{
    let mut out: Vec<u8> = Vec::new();
    out.extend_from_slice(pixels);
    assert(out@ =~= pixels@);
    out
}

/// What the encoder of `format` is handed for `bands`-band pixels: JPEG loses the alpha
/// of 2- and 4-band input, WebP gets 2-band input expanded to RGBA, everything else goes
/// as it is.
pub open spec fn encoder_input(pixels: Seq<u8>, bands: int, format: Format) -> (Seq<u8>, ColorType) {
    match format {
        Format::Jpeg => if bands == 4 {
            (alpha_stripped(pixels, 4), ColorType::Rgb8)
        } else if bands == 2 {
            (alpha_stripped(pixels, 2), ColorType::L8)
        } else {
            (pixels, color_of(bands))
        },
        Format::WebP => if bands == 2 {
            (la8_expanded(pixels), ColorType::Rgba8)
        } else {
            (pixels, color_of(bands))
        },
        _ => (pixels, color_of(bands)),
    }
}

proof fn lemma_input_size(pixels: Seq<u8>, width: int, height: int, bands: int, format: Format)
    requires
        1 <= bands <= 4,
        width >= 0,
        height >= 0,
        pixels.len() == width * height * bands,
    ensures
        encoder_input(pixels, bands, format).0.len() == width * height * bytes_per_pixel(
            encoder_input(pixels, bands, format).1,
        ),
{
    let n = width * height;
    assert(width * height >= 0) by (nonlinear_arith)
        requires
            width >= 0,
            height >= 0,
    ;
    assert(pixels.len() as int / bands == n) by {
        lemma_fundamental_div_mod_converse(pixels.len() as int, bands, n, 0);
    }
    assert(n * 2 / 2 * 4 == n * 4) by (nonlinear_arith)
        requires
            n >= 0,
    ;
    assert(n * 2 / 2 * 1 == n * 1) by (nonlinear_arith)
        requires
            n >= 0,
    ;
    assert(n * 4 / 4 * 3 == n * 3) by (nonlinear_arith)
        requires
            n >= 0,
    ;
}

/// Prepare the pixels handed to the encoder of `format`: strip alpha for JPEG, expand
/// grey + alpha to RGBA for WebP.
pub fn prepare_pixels(pixels: &[u8], bands: usize, format: Format) -> (r: (Vec<u8>, ColorType))
    requires
        1 <= bands <= 4,
        format == Format::WebP && bands == 2 ==> pixels@.len() * 2 <= usize::MAX,
    ensures
        r.0@ == encoder_input(pixels@, bands as int, format).0,
        r.1 == encoder_input(pixels@, bands as int, format).1,
{
    match format {
        Format::Jpeg => {
            if bands == 4 {
                (strip_alpha(pixels, 4), ColorType::Rgb8)
            } else if bands == 2 {
                (strip_alpha(pixels, 2), ColorType::L8)
            } else {
                let c = if bands == 1 {
                    ColorType::L8
                } else {
                    ColorType::Rgb8
                };
                (copy_of(pixels), c)
            }
        },
        Format::WebP => {
            if bands == 2 {
                (la8_to_rgba(pixels), ColorType::Rgba8)
            } else {
                let c = if bands == 1 {
                    ColorType::L8
                } else if bands == 3 {
                    ColorType::Rgb8
                } else {
                    ColorType::Rgba8
                };
                (copy_of(pixels), c)
            }
        },
        _ => {
            let c = if bands == 1 {
                ColorType::L8
            } else if bands == 2 {
                ColorType::La8
            } else if bands == 3 {
                ColorType::Rgb8
            } else {
                ColorType::Rgba8
            };
            (copy_of(pixels), c)
        },
    }
}

/// Message of the error for AVIF tiles.
pub open spec fn avif_missing() -> Seq<char> {
    "AVIF feature not compiled in"@
}

/// Message of the error for JPEG XL tiles.
pub open spec fn jxl_missing() -> Seq<char> {
    "JXL feature not compiled in"@
}

/// The bytes of a successful encoding of `pixels` as `format` under `opts`: the encoder's
/// output for the pixels it is handed (see [`encoder_input`]).
pub open spec fn encoded_tile(
    pixels: Seq<u8>,
    width: u32,
    height: u32,
    bands: int,
    format: Format,
    opts: EncodeOptions,
) -> Seq<u8> {
    let (input, color) = encoder_input(pixels, bands, format);
    match format {
        Format::Png => png_encoded(input, width, height, color, opts.png.compression, opts.png.filter),
        Format::Jpeg => jpeg_encoded(input, width, height, color, opts.jpeg.quality),
        _ => webp_encoded(input, width, height, color),
    }
}

/// Whether the encoder of `format` takes a `width × height` tile: PNG any nonzero size,
/// JPEG sides up to 65535, WebP sides up to 16384.
pub open spec fn size_taken(format: Format, width: u32, height: u32) -> bool {
    match format {
        Format::Png => width > 0 && height > 0,
        Format::Jpeg => 1 <= width <= 65535 && 1 <= height <= 65535,
        Format::WebP => 1 <= width <= 16384 && 1 <= height <= 16384,
        _ => false,
    }
}

/// The band counts the encoder of `format` takes: 1 to 4, except that PNG tiles take 1, 3
/// or 4 (grey, RGB, RGBA).
pub open spec fn bands_taken(format: Format, bands: int) -> bool {
    &&& 1 <= bands <= 4
    &&& (format == Format::Png ==> bands != 2)
}

/// Encode `pixels` (interleaved 8-bit samples, `bands` per pixel) into the wire format of
/// `format`, applying the per-format options from `opts`.
///
/// Only 1 to 4 bands are taken (1 = L8, 2 = La8, 3 = RGB, 4 = RGBA); PNG tiles take 1, 3
/// or 4, and a band count that is not taken gives [`Error::BadBandCount`]. JPEG drops the
/// alpha of 2- and 4-band input; WebP gets 2-band input expanded to RGBA. AVIF and JPEG XL
/// are not built into this library and are refused with [`Error::Encode`].
pub fn encode_tile(
    pixels: &[u8],
    width: u32,
    height: u32,
    bands: usize,
    format: Format,
    opts: &EncodeOptions,
) -> (r: Result<Vec<u8>, Error>)
    requires
        bands_taken(format, bands as int) && (format == Format::Png || format == Format::Jpeg
            || format == Format::WebP) ==> pixels@.len() == width * height * bands,
        format == Format::WebP && bands == 2 ==> pixels@.len() * 2 <= usize::MAX,
    ensures
        !bands_taken(format, bands as int) ==> (r matches Err(Error::BadBandCount(n)) && n
            == bands),
        1 <= bands <= 4 && format == Format::Avif ==> (r matches Err(Error::Encode(m)) && m@
            == avif_missing()),
        1 <= bands <= 4 && format == Format::Jxl ==> (r matches Err(Error::Encode(m)) && m@
            == jxl_missing()),
        bands_taken(format, bands as int) && (format == Format::Png || format == Format::Jpeg
            || format == Format::WebP) ==> {
            &&& (r is Ok <==> size_taken(format, width, height))
            &&& r matches Ok(v) ==> v@ == encoded_tile(
                pixels@,
                width,
                height,
                bands as int,
                format,
                *opts,
            )
        },
        bands_taken(format, bands as int) && format == Format::Png ==> (r matches Ok(v) ==> v@.len()
            >= 8 && v@.subrange(0, 8) == png_signature()),
        bands_taken(format, bands as int) && format == Format::Jpeg ==> (r matches Ok(v) ==> v@.len()
            >= 2 && v@[0] == 0xFFu8 && v@[1] == 0xD8u8),
        bands_taken(format, bands as int) && format == Format::WebP ==> (r matches Ok(v) ==> v@.len()
            >= 12 && v@.subrange(0, 4) == seq![82u8, 73, 70, 70] && v@.subrange(8, 12) == seq![
            87u8,
            69,
            66,
            80,
        ]),
{
    if bands < 1 || bands > 4 {
        return Err(Error::BadBandCount(bands));
    }
    match format {
        Format::Avif => Err(Error::Encode(String::from_str("AVIF feature not compiled in"))),
        Format::Jxl => Err(Error::Encode(String::from_str("JXL feature not compiled in"))),
        Format::Png if bands == 2 => Err(Error::BadBandCount(bands)),
        _ => {
            proof {
                lemma_input_size(pixels@, width as int, height as int, bands as int, format);
            }
            let (input, color) = prepare_pixels(pixels, bands, format);
            match format {
                Format::Png => png_encode(
                    input.as_slice(),
                    width,
                    height,
                    color,
                    opts.png.compression,
                    opts.png.filter,
                ),
                Format::Jpeg => jpeg_encode(input.as_slice(), width, height, color, opts.jpeg.quality),
                _ => webp_encode(input.as_slice(), width, height, color),
            }
        },
    }
}

/// JPEG drops alpha and keeps the grey or RGB samples as they are: a 2- or 4-band tile
/// hands its encoder the same pixels and layout as the tile with the alpha already
/// stripped, so both encode to the same bytes.
pub proof fn lemma_jpeg_drops_alpha(pixels: Seq<u8>, bands: int)
    requires
        bands == 2 || bands == 4,
    ensures
        encoder_input(pixels, bands, Format::Jpeg) == encoder_input(
            alpha_stripped(pixels, bands),
            bands - 1,
            Format::Jpeg,
        ),
        forall|width: u32, height: u32, opts: EncodeOptions|
            #![trigger encoded_tile(pixels, width, height, bands, Format::Jpeg, opts)]
            encoded_tile(pixels, width, height, bands, Format::Jpeg, opts) == encoded_tile(
                alpha_stripped(pixels, bands),
                width,
                height,
                bands - 1,
                Format::Jpeg,
                opts,
            ),
{
}

/// WebP keeps a tile's pixels as they are, alpha included: grey, RGB and RGBA tiles are
/// handed to the encoder unchanged as L8, Rgb8 and Rgba8, and only a grey + alpha tile is
/// widened to RGBA, each pixel's grey value copied into R, G and B and its alpha kept.
pub proof fn lemma_webp_keeps_pixels(pixels: Seq<u8>)
    ensures
        encoder_input(pixels, 1, Format::WebP) == (pixels, ColorType::L8),
        encoder_input(pixels, 3, Format::WebP) == (pixels, ColorType::Rgb8),
        encoder_input(pixels, 4, Format::WebP) == (pixels, ColorType::Rgba8),
        encoder_input(pixels, 2, Format::WebP).1 == ColorType::Rgba8,
        encoder_input(pixels, 2, Format::WebP).0.len() == pixels.len() / 2 * 4,
        forall|i: int, c: int|
            0 <= i < pixels.len() / 2 && 0 <= c < 4 ==> #[trigger] encoder_input(
                pixels,
                2,
                Format::WebP,
            ).0[4 * i + c] == if c < 3 {
                pixels[2 * i]
            } else {
                pixels[2 * i + 1]
            },
        forall|width: u32, height: u32, opts: EncodeOptions|
            #![trigger encoded_tile(pixels, width, height, 4, Format::WebP, opts)]
            encoded_tile(pixels, width, height, 4, Format::WebP, opts) == webp_encoded(
                pixels,
                width,
                height,
                ColorType::Rgba8,
            ),
{
    assert forall|i: int, c: int| 0 <= i < pixels.len() / 2 && 0 <= c < 4 implies #[trigger] encoder_input(
        pixels,
        2,
        Format::WebP,
    ).0[4 * i + c] == if c < 3 {
        pixels[2 * i]
    } else {
        pixels[2 * i + 1]
    } by {
        lemma_fundamental_div_mod_converse(4 * i + c, 4, i, c);
        assert(4 * i + c < pixels.len() / 2 * 4);
    }
}

} // verus!
