//! Per-format encoder options passed to [`crate::encode::encode_tile`].
//!
//! Each option struct has a `Default` with sensible values, so callers that do not
//! customise encoding still get reasonable output.

use vstd::prelude::*;

verus! {

/// PNG compression preset.
#[derive(Debug, Clone, Copy, PartialEq, Eq, Structural)]
pub enum PngCompression {
    /// Balanced compression, a good trade of file size and speed.
    Default,
    /// Fast compression: larger files, quicker to encode.
    Fast,
    /// Maximum compression: smallest files, slowest to encode.
    Best,
}

impl Default for PngCompression {
    fn default() -> (c: Self)
        ensures
            c == PngCompression::Default,
    {
        PngCompression::Default
    }
}

/// PNG pre-compression filter heuristic applied per scanline.
#[derive(Debug, Clone, Copy, PartialEq, Eq, Structural)]
pub enum PngFilter {
    /// Let the encoder pick the best filter per scanline.
    Adaptive,
    NoFilter,
    Sub,
    Up,
    Avg,
    Paeth,
}

impl Default for PngFilter {
    fn default() -> (f: Self)
        ensures
            f == PngFilter::Adaptive,
    {
        PngFilter::Adaptive
    }
}

/// Options for PNG encoding.
#[derive(Debug, Clone, Copy, PartialEq, Eq, Structural)]
pub struct PngOptions {
    pub compression: PngCompression,
    pub filter: PngFilter,
}

impl Default for PngOptions {
    fn default() -> (o: Self)
        ensures
            o == (PngOptions { compression: PngCompression::Default, filter: PngFilter::Adaptive }),
    {
        PngOptions { compression: PngCompression::Default, filter: PngFilter::Adaptive }
    }
}

/// Options for JPEG encoding. JPEG has no alpha channel: the alpha of 2- and 4-band tiles
/// is stripped (no compositing against a background) before encoding.
#[derive(Debug, Clone, Copy, PartialEq, Eq, Structural)]
pub struct JpegOptions {
    /// Quality factor, 1 to 100. Default: 85.
    pub quality: u8,
}

impl Default for JpegOptions {
    fn default() -> (o: Self)
        ensures
            o == (JpegOptions { quality: 85 }),
    {
        JpegOptions { quality: 85 }
    }
}

/// Options for WebP encoding. Only lossless WebP is produced; `quality` and
/// `lossless = false` are kept for a future lossy path.
#[derive(Debug, Clone, Copy, PartialEq, Eq, Structural)]
pub struct WebPOptions {
    /// Use lossless encoding. Default: `true`.
    pub lossless: bool,
    /// Quality for a lossy path, 0 to 100. Default: 85.
    pub quality: u8,
}

impl Default for WebPOptions {
    fn default() -> (o: Self)
        ensures
            o == (WebPOptions { lossless: true, quality: 85 }),
    {
        WebPOptions { lossless: true, quality: 85 }
    }
}

/// Options for AVIF encoding.
#[derive(Debug, Clone, Copy, PartialEq, Eq, Structural)]
pub struct AvifOptions {
    /// Encoder quality, 1 to 100. Default: 60.
    pub quality: u8,
    /// Encoder speed, 1 to 10 (lower is slower and compresses better). Default: 4.
    pub speed: u8,
}

impl Default for AvifOptions {
    fn default() -> (o: Self)
        ensures
            o == (AvifOptions { quality: 60, speed: 4 }),
    {
        AvifOptions { quality: 60, speed: 4 }
    }
}

/// The per-format encoder options the tile encoder reads, bundled together.
#[derive(Debug, Clone, Copy, PartialEq, Eq, Structural)]
pub struct EncodeOptions {
    pub png: PngOptions,
    pub jpeg: JpegOptions,
    pub webp: WebPOptions,
    pub avif: AvifOptions,
}

impl Default for EncodeOptions {
    fn default() -> (o: Self)
        ensures
            o == (EncodeOptions {
                png: PngOptions { compression: PngCompression::Default, filter: PngFilter::Adaptive },
                jpeg: JpegOptions { quality: 85 },
                webp: WebPOptions { lossless: true, quality: 85 },
                avif: AvifOptions { quality: 60, speed: 4 },
            }),
    {
        EncodeOptions {
            png: PngOptions::default(),
            jpeg: JpegOptions::default(),
            webp: WebPOptions::default(),
            avif: AvifOptions::default(),
        }
    }
}

} // verus!
