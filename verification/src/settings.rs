//! Resolved run settings: command-line flags merged over config values over built-in
//! defaults, in that order of precedence.

use vstd::prelude::*;

use crate::cli::{zoom_spec, Cli, ZoomError, ZoomRange};
use crate::config::Config;
use crate::encode::options::{
    AvifOptions, EncodeOptions, JpegOptions, PngCompression, PngFilter, PngOptions, WebPOptions,
};
use crate::text::{
    ascii_lowered, chars_of, is_ascii_text, is_space, lemma_trimmed_ascii, lowercase, same_text,
    string_from_chars, strip_leading_dots, to_lowercase, trim_chars, trim_end, trim_start, trimmed,
    without_leading_dots,
};
use crate::tile::{extension_of, Format};

verus! {

/// Target coordinate reference system for the output tile grid.
#[derive(Debug, Clone, Copy, PartialEq, Eq, Structural)]
pub enum Crs {
    /// EPSG:4326 — geographic (longitude / latitude).
    Geographic,
    /// EPSG:3857 — Web Mercator.
    Mercator,
}

/// Why the settings could not be resolved.
#[derive(Debug)]
pub enum SettingsError {
    /// The zoom range did not parse.
    Zoom(ZoomError),
    /// The format name (normalised: trimmed, lowercased, leading dots removed) is unknown.
    UnknownFormat(String),
    /// The coordinate system name (normalised: trimmed, lowercased) is unknown.
    UnknownCrs(String),
}

/// All resolved run parameters after merging command-line flags and config values.
#[derive(Debug)]
pub struct Settings {
    /// Path to the source GeoTIFF.
    pub input: String,
    /// Path to the output tile directory.
    pub output: String,
    /// Minimum zoom level (inclusive).
    pub min_zoom: u8,
    /// Maximum zoom level (inclusive).
    pub max_zoom: u8,
    /// Output tile image format.
    pub format: Format,
    /// Use TMS (south-origin) y-axis ordering instead of XYZ.
    pub tms: bool,
    /// Target coordinate reference system.
    pub crs: Crs,
    /// Output band count override (1–4); `None` keeps the source band count.
    pub bands: Option<usize>,
    /// Tile width and height in pixels.
    pub tile_size: u32,
    /// Write `tilemapresource.xml` into the output directory.
    pub tmr: bool,
    /// Source-pixel rows held in RAM at once.
    pub chunk_size: usize,
    /// Per-format encoder options taken from the config file.
    pub encode_opts: EncodeOptions,
}

// ── Names ────────────────────────────────────────────────────────────────────

/// The format a normalised name stands for.
pub open spec fn format_named(n: Seq<char>) -> Option<Format> {
    if n == "png"@ {
        Some(Format::Png)
    } else if n == "jpg"@ || n == "jpeg"@ {
        Some(Format::Jpeg)
    } else if n == "webp"@ {
        Some(Format::WebP)
    } else if n == "avif"@ {
        Some(Format::Avif)
    } else if n == "jxl"@ {
        Some(Format::Jxl)
    } else {
        None
    }
}

/// A format name as it is looked up: trimmed, lowercased, leading dots removed.
pub open spec fn format_key(s: Seq<char>) -> Seq<char> {
    strip_leading_dots(lowercase(trimmed(s)))
}

/// The coordinate system a normalised name stands for.
pub open spec fn crs_named(n: Seq<char>) -> Option<Crs> {
    if n == "geographic"@ || n == "geodetic"@ || n == "4326"@ || n == "epsg:4326"@ {
        Some(Crs::Geographic)
    } else if n == "mercator"@ || n == "webmercator"@ || n == "3857"@ || n == "epsg:3857"@ {
        Some(Crs::Mercator)
    } else {
        None
    }
}

/// A coordinate system name as it is looked up: trimmed and lowercased.
pub open spec fn crs_key(s: Seq<char>) -> Seq<char> {
    lowercase(trimmed(s))
}

/// The PNG compression preset a config value names; anything else is the default.
pub open spec fn compression_named(n: Seq<char>) -> PngCompression {
    if n == "fast"@ {
        PngCompression::Fast
    } else if n == "best"@ {
        PngCompression::Best
    } else {
        PngCompression::Default
    }
}

/// The PNG filter a config value names; anything else is adaptive filtering.
pub open spec fn filter_named(n: Seq<char>) -> PngFilter {
    if n == "none"@ || n == "nofilter"@ {
        PngFilter::NoFilter
    } else if n == "sub"@ {
        PngFilter::Sub
    } else if n == "up"@ {
        PngFilter::Up
    } else if n == "avg"@ || n == "average"@ {
        PngFilter::Avg
    } else if n == "paeth"@ {
        PngFilter::Paeth
    } else {
        PngFilter::Adaptive
    }
}

// ── Precedence ───────────────────────────────────────────────────────────────

/// The first value that is set.
pub open spec fn prefer<T>(first: Option<T>, second: Option<T>) -> Option<T> {
    if first is Some {
        first
    } else {
        second
    }
}

/// The value if set, else the default.
pub open spec fn or_default<T>(v: Option<T>, default: T) -> T {
    match v {
        Some(x) => x,
        None => default,
    }
}

/// The text of the first of two optional strings that is set, else `fallback`.
pub open spec fn chosen_text(first: Option<String>, second: Option<String>, fallback: Seq<
    char,
>) -> Seq<char> {
    match first {
        Some(s) => s@,
        None => match second {
            Some(s) => s@,
            None => fallback,
        },
    }
}

fn chosen<'a>(first: &'a Option<String>, second: &'a Option<String>, fallback: &'a str) -> (r:
    &'a str)
    ensures
        r@ == chosen_text(*first, *second, fallback@),
{
    match first {
        Some(s) => s.as_str(),
        None => match second {
            Some(s) => s.as_str(),
            None => fallback,
        },
    }
}

fn prefer_copy<T: Copy>(first: Option<T>, second: Option<T>) -> (r: Option<T>)
    ensures
        r == prefer(first, second),
{
    match first {
        Some(v) => Some(v),
        None => second,
    }
}

fn or_default_copy<T: Copy>(v: Option<T>, default: T) -> (r: T)
    ensures
        r == or_default(v, default),
{
    match v {
        Some(x) => x,
        None => default,
    }
}

// ── Parsing names ────────────────────────────────────────────────────────────

/// Trimmed, lowercased text of `s`.
fn lowered_trimmed(s: &str) -> (r: String)
    ensures
        r@ == lowercase(trimmed(s@)),
        is_ascii_text(s@) ==> r@ == ascii_lowered(trimmed(s@)),
{
    let cs = chars_of(s);
    let n = cs.len();
    let t = trim_chars(&cs, 0, n);
    proof {
        assert(cs@.subrange(0, n as int) =~= cs@);
        if is_ascii_text(s@) {
            lemma_trimmed_ascii(s@);
        }
    }
    let text = string_from_chars(t.as_slice());
    to_lowercase(text.as_str())
}

/// Look up a lowercased format name, after removing its leading `.` characters.
pub fn format_from_lowered(lowered: &str) -> (r: Result<Format, SettingsError>)
    ensures
        match format_named(strip_leading_dots(lowered@)) {
            Some(f) => r == Ok::<Format, SettingsError>(f),
            None => r matches Err(SettingsError::UnknownFormat(t)) && t@ == strip_leading_dots(
                lowered@,
            ),
        },
{
    let low = chars_of(lowered);
    let key = without_leading_dots(&low);
    let k = key.as_slice();
    if same_text(k, "png") {
        Ok(Format::Png)
    } else if same_text(k, "jpg") || same_text(k, "jpeg") {
        Ok(Format::Jpeg)
    } else if same_text(k, "webp") {
        Ok(Format::WebP)
    } else if same_text(k, "avif") {
        Ok(Format::Avif)
    } else if same_text(k, "jxl") {
        Ok(Format::Jxl)
    } else {
        Err(SettingsError::UnknownFormat(string_from_chars(k)))
    }
}

/// Parse a format extension (case-insensitive, surrounding white space and leading `.`
/// removed) into a [`Format`].
pub fn parse_format(s: &str) -> (r: Result<Format, SettingsError>)
    ensures
        match format_named(format_key(s@)) {
            Some(f) => r == Ok::<Format, SettingsError>(f),
            None => r matches Err(SettingsError::UnknownFormat(t)) && t@ == format_key(s@),
        },
        is_ascii_text(s@) ==> format_key(s@) == strip_leading_dots(ascii_lowered(trimmed(s@))),
{
    let low = lowered_trimmed(s);
    format_from_lowered(low.as_str())
}

/// Look up a lowercased coordinate system name.
pub fn crs_from_lowered(lowered: &str) -> (r: Result<Crs, SettingsError>)
    ensures
        match crs_named(lowered@) {
            Some(c) => r == Ok::<Crs, SettingsError>(c),
            None => r matches Err(SettingsError::UnknownCrs(t)) && t@ == lowered@,
        },
{
    let low = chars_of(lowered);
    let k = low.as_slice();
    if same_text(k, "geographic") || same_text(k, "geodetic") || same_text(k, "4326")
        || same_text(k, "epsg:4326") {
        Ok(Crs::Geographic)
    } else if same_text(k, "mercator") || same_text(k, "webmercator") || same_text(k, "3857")
        || same_text(k, "epsg:3857") {
        Ok(Crs::Mercator)
    } else {
        Err(SettingsError::UnknownCrs(string_from_chars(k)))
    }
}

/// Parse a coordinate system name (case-insensitive, surrounding white space removed).
///
/// `geographic`, `geodetic`, `4326`, `epsg:4326` name [`Crs::Geographic`];
/// `mercator`, `webmercator`, `3857`, `epsg:3857` name [`Crs::Mercator`].
pub fn parse_crs(s: &str) -> (r: Result<Crs, SettingsError>)
    ensures
        match crs_named(crs_key(s@)) {
            Some(c) => r == Ok::<Crs, SettingsError>(c),
            None => r matches Err(SettingsError::UnknownCrs(t)) && t@ == crs_key(s@),
        },
        is_ascii_text(s@) ==> crs_key(s@) == ascii_lowered(trimmed(s@)),
{
    let low = lowered_trimmed(s);
    crs_from_lowered(low.as_str())
}

/// Parsing a format's own extension gives the format back.
pub proof fn lemma_extension_parses_back(f: Format)
    ensures
        is_ascii_text(extension_of(f)),
        format_named(strip_leading_dots(ascii_lowered(trimmed(extension_of(f))))) == Some(f),
{
    reveal_strlit("png");
    reveal_strlit("jpg");
    reveal_strlit("jpeg");
    reveal_strlit("webp");
    reveal_strlit("avif");
    reveal_strlit("jxl");
    let e = extension_of(f);
    assert(e.len() > 0 && !is_space(e[0]) && !is_space(e.last()) && e[0] != '.');
    assert(trim_start(e) == e);
    assert(trim_end(e) == e);
    assert(ascii_lowered(e) =~= e);
    assert(strip_leading_dots(e) == e);
    assert(strip_leading_dots(ascii_lowered(trimmed(e))) == e);
    match f {
        Format::Png => {},
        Format::Jpeg => {
            assert(e != "png"@);
        },
        Format::WebP => {
            assert(e != "png"@ && e != "jpg"@ && e != "jpeg"@);
        },
        Format::Avif => {
            assert(e != "png"@ && e != "jpg"@ && e != "jpeg"@ && e != "webp"@);
        },
        Format::Jxl => {
            assert(e != "png"@ && e != "jpg"@ && e != "jpeg"@ && e != "webp"@ && e != "avif"@);
        },
    }
}

// ── Encoder options ──────────────────────────────────────────────────────────

/// The encoder options a config file asks for, each absent key at its default.
pub open spec fn encode_opts_of(cfg: &Config) -> EncodeOptions {
    EncodeOptions {
        png: PngOptions {
            compression: match cfg.png.compression {
                Some(s) => compression_named(s@),
                None => PngCompression::Default,
            },
            filter: match cfg.png.filter {
                Some(s) => filter_named(s@),
                None => PngFilter::Adaptive,
            },
        },
        jpeg: JpegOptions { quality: or_default(cfg.jpeg.quality, 85u8) },
        webp: WebPOptions {
            lossless: or_default(cfg.webp.lossless, true),
            quality: or_default(cfg.webp.quality, 85u8),
        },
        avif: AvifOptions {
            quality: or_default(cfg.avif.quality, 60u8),
            speed: or_default(cfg.avif.speed, 4u8),
        },
    }
}

fn compression_of(s: &str) -> (c: PngCompression)
    ensures
        c == compression_named(s@),
{
    let k = chars_of(s);
    if same_text(k.as_slice(), "fast") {
        PngCompression::Fast
    } else if same_text(k.as_slice(), "best") {
        PngCompression::Best
    } else {
        PngCompression::Default
    }
}

fn filter_of(s: &str) -> (f: PngFilter)
    ensures
        f == filter_named(s@),
{
    let k = chars_of(s);
    let k = k.as_slice();
    if same_text(k, "none") || same_text(k, "nofilter") {
        PngFilter::NoFilter
    } else if same_text(k, "sub") {
        PngFilter::Sub
    } else if same_text(k, "up") {
        PngFilter::Up
    } else if same_text(k, "avg") || same_text(k, "average") {
        PngFilter::Avg
    } else if same_text(k, "paeth") {
        PngFilter::Paeth
    } else {
        PngFilter::Adaptive
    }
}

/// Build the encoder options from the per-format config sections; each absent key
/// falls back to its default.
pub fn build_encode_opts(cfg: &Config) -> (o: EncodeOptions)
    ensures
        o == encode_opts_of(cfg),
{
    let compression = match &cfg.png.compression {
        Some(s) => compression_of(s.as_str()),
        None => PngCompression::default(),
    };
    let filter = match &cfg.png.filter {
        Some(s) => filter_of(s.as_str()),
        None => PngFilter::default(),
    };
    EncodeOptions {
        png: PngOptions { compression, filter },
        jpeg: JpegOptions { quality: or_default_copy(cfg.jpeg.quality, 85) },
        webp: WebPOptions {
            lossless: or_default_copy(cfg.webp.lossless, true),
            quality: or_default_copy(cfg.webp.quality, 85),
        },
        avif: AvifOptions {
            quality: or_default_copy(cfg.avif.quality, 60),
            speed: or_default_copy(cfg.avif.speed, 4),
        },
    }
}

// ── Resolution ───────────────────────────────────────────────────────────────

/// The format name in effect: the flag, else the config value, else `png`.
pub open spec fn format_text(cli: &Cli, config: &Config) -> Seq<char> {
    chosen_text(cli.extension, config.extension, "png"@)
}

/// The coordinate system name in effect: the flag, else the config value, else
/// `geographic`.
pub open spec fn crs_text(cli: &Cli, config: &Config) -> Seq<char> {
    chosen_text(cli.crs, config.crs, "geographic"@)
}

/// The settings resolved from `cli` over `config`, given the zoom range, format and
/// coordinate system they name.
pub open spec fn resolved_as(
    s: &Settings,
    cli: &Cli,
    config: &Config,
    zoom: (u8, u8),
    format: Format,
    crs: Crs,
) -> bool {
    &&& s.input@ == cli.input@
    &&& s.output@ == cli.output@
    &&& s.min_zoom == zoom.0
    &&& s.max_zoom == zoom.1
    &&& s.format == format
    &&& s.tms == or_default(prefer(cli.tms, config.tms), false)
    &&& s.crs == crs
    &&& s.bands == prefer(cli.bands, config.bands)
    &&& s.tile_size == or_default(prefer(cli.tilesize, config.tilesize), 256u32)
    &&& s.tmr == or_default(prefer(cli.tmr, config.tmr), false)
    &&& s.chunk_size == or_default(prefer(cli.chunk_size, config.chunk_size), 512usize)
    &&& s.encode_opts == encode_opts_of(config)
}

impl Settings {
    /// Merge `config` under `cli`: a flag always wins, a config value fills an absent
    /// flag, and a built-in default applies when neither is set. Fails on a malformed
    /// zoom range, then on an unknown format, then on an unknown coordinate system.
    pub fn resolve(cli: &Cli, config: &Config) -> (r: Result<Settings, SettingsError>)
        ensures
            match zoom_spec(cli.zoom@) {
                Err(zf) => r matches Err(SettingsError::Zoom(e)) && e.failure() == zf,
                Ok(zoom) => match format_named(format_key(format_text(cli, config))) {
                    None => r matches Err(SettingsError::UnknownFormat(t)) && t@ == format_key(
                        format_text(cli, config),
                    ),
                    Some(f) => match crs_named(crs_key(crs_text(cli, config))) {
                        None => r matches Err(SettingsError::UnknownCrs(t)) && t@ == crs_key(
                            crs_text(cli, config),
                        ),
                        Some(c) => r matches Ok(s) && resolved_as(&s, cli, config, zoom, f, c),
                    },
                },
            },
            is_ascii_text(format_text(cli, config)) ==> format_key(format_text(cli, config))
                == strip_leading_dots(ascii_lowered(trimmed(format_text(cli, config)))),
            is_ascii_text(crs_text(cli, config)) ==> crs_key(crs_text(cli, config)) == ascii_lowered(
                trimmed(crs_text(cli, config)),
            ),
    {
        let zoom_parsed = ZoomRange::parse(cli.zoom.as_str());
        let format_parsed = parse_format(chosen(&cli.extension, &config.extension, "png"));
        let crs_parsed = parse_crs(chosen(&cli.crs, &config.crs, "geographic"));
        let zoom = match zoom_parsed {
            Ok(z) => z,
            Err(e) => return Err(SettingsError::Zoom(e)),
        };
        let format = match format_parsed {
            Ok(f) => f,
            Err(e) => return Err(e),
        };
        let tms = or_default_copy(prefer_copy(cli.tms, config.tms), false);
        let crs = match crs_parsed {
            Ok(c) => c,
            Err(e) => return Err(e),
        };
        let bands = prefer_copy(cli.bands, config.bands);
        let tile_size = or_default_copy(prefer_copy(cli.tilesize, config.tilesize), 256);
        let tmr = or_default_copy(prefer_copy(cli.tmr, config.tmr), false);
        let chunk_size = or_default_copy(prefer_copy(cli.chunk_size, config.chunk_size), 512);
        let encode_opts = build_encode_opts(config);
        Ok(Settings {
            input: cli.input.clone(),
            output: cli.output.clone(),
            min_zoom: zoom.min,
            max_zoom: zoom.max,
            format,
            tms,
            crs,
            bands,
            tile_size,
            tmr,
            chunk_size,
            encode_opts,
        })
    }
}

} // verus!
