//! Values of the application config file, as plain data.
//!
//! Every field is optional: an absent key falls back to the command line, then to the
//! built-in default (see [`crate::settings`]).

use vstd::prelude::*;

verus! {

/// PNG encoder settings.
#[derive(Debug)]
pub struct PngConfig {
    /// Compression preset: `default`, `fast`, `best`.
    pub compression: Option<String>,
    /// Filter heuristic: `adaptive`, `none`, `sub`, `up`, `avg`, `paeth`.
    pub filter: Option<String>,
}

impl Default for PngConfig {
    fn default() -> (c: Self)
        ensures
            c.compression is None,
            c.filter is None,
    {
        PngConfig { compression: None, filter: None }
    }
}

/// JPEG encoder settings.
#[derive(Debug, Clone, Copy, PartialEq, Eq, Structural)]
pub struct JpegConfig {
    /// Quality 1–100 (default 85).
    pub quality: Option<u8>,
}

impl Default for JpegConfig {
    fn default() -> (c: Self)
        ensures
            c.quality is None,
    {
        JpegConfig { quality: None }
    }
}

/// WebP encoder settings.
#[derive(Debug, Clone, Copy, PartialEq, Eq, Structural)]
pub struct WebPConfig {
    /// Use lossless encoding (default true; only lossless is produced).
    pub lossless: Option<bool>,
    /// Quality for a lossy path (0–100, default 85).
    pub quality: Option<u8>,
}

impl Default for WebPConfig {
    fn default() -> (c: Self)
        ensures
            c.lossless is None,
            c.quality is None,
    {
        WebPConfig { lossless: None, quality: None }
    }
}

/// AVIF encoder settings.
#[derive(Debug, Clone, Copy, PartialEq, Eq, Structural)]
pub struct AvifConfig {
    /// Encoder quality 1–100 (default 60).
    pub quality: Option<u8>,
    /// Encoder speed 1–10 (default 4).
    pub speed: Option<u8>,
}

impl Default for AvifConfig {
    fn default() -> (c: Self)
        ensures
            c.quality is None,
            c.speed is None,
    {
        AvifConfig { quality: None, speed: None }
    }
}

/// Top-level config file structure. All fields are optional.
#[derive(Debug)]
pub struct Config {
    /// Output tile format extension: `png`, `jpg`, `webp`, `avif`, `jxl`.
    pub extension: Option<String>,
    /// Use TMS (south-origin) y-axis ordering.
    pub tms: Option<bool>,
    /// Target coordinate system: `geographic` (EPSG:4326) or `mercator` (EPSG:3857).
    pub crs: Option<String>,
    /// Output band count per tile (1–4).
    pub bands: Option<usize>,
    /// Tile width/height in pixels.
    pub tilesize: Option<u32>,
    /// Generate `tilemapresource.xml` in the output directory.
    pub tmr: Option<bool>,
    /// Source-pixel rows to hold in RAM at once (chunked I/O budget).
    pub chunk_size: Option<usize>,
    /// PNG encoder options.
    pub png: PngConfig,
    /// JPEG encoder options.
    pub jpeg: JpegConfig,
    /// WebP encoder options.
    pub webp: WebPConfig,
    /// AVIF encoder options.
    pub avif: AvifConfig,
}

impl Config {
    /// No key set anywhere.
    pub open spec fn is_empty(&self) -> bool {
        &&& self.extension is None
        &&& self.tms is None
        &&& self.crs is None
        &&& self.bands is None
        &&& self.tilesize is None
        &&& self.tmr is None
        &&& self.chunk_size is None
        &&& self.png.compression is None
        &&& self.png.filter is None
        &&& self.jpeg.quality is None
        &&& self.webp.lossless is None
        &&& self.webp.quality is None
        &&& self.avif.quality is None
        &&& self.avif.speed is None
    }
}

impl Default for Config {
    fn default() -> (c: Self)
        ensures
            c.is_empty(),
    {
        Config {
            extension: None,
            tms: None,
            crs: None,
            bands: None,
            tilesize: None,
            tmr: None,
            chunk_size: None,
            png: PngConfig::default(),
            jpeg: JpegConfig::default(),
            webp: WebPConfig::default(),
            avif: AvifConfig::default(),
        }
    }
}

} // verus!
