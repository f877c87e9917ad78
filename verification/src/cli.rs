//! Command-line values: the bare argument record and the zoom range syntax.

use vstd::prelude::*;

use crate::text::{
    chars_of, find_dots, first_dots, parse_u8, parse_u8_spec, string_from_chars, sub_chars,
    trim_chars, trimmed, IntErrorKind,
};

verus! {

/// GeoTIFF → web-map tiles (XYZ / TMS layout): the command-line arguments.
#[derive(Debug)]
pub struct Cli {
    /// Path to the input GeoTIFF.
    pub input: String,
    /// Path to the output directory, created if it does not exist.
    pub output: String,
    /// Zoom range (inclusive): `min..max`, e.g. `0..10`, or a single level, e.g. `5`.
    pub zoom: String,
    /// Output tile format: `png`, `jpg`, `webp`, `avif`, `jxl`.
    pub extension: Option<String>,
    /// Use TMS (south-origin) y-axis ordering instead of XYZ.
    pub tms: Option<bool>,
    /// Target coordinate system: `geographic` (EPSG:4326) or `mercator` (EPSG:3857).
    pub crs: Option<String>,
    /// Output band count per tile (1–4). Defaults to the source raster band count.
    pub bands: Option<usize>,
    /// Tile width/height in pixels (default 256).
    pub tilesize: Option<u32>,
    /// Generate `tilemapresource.xml` in the output directory.
    pub tmr: Option<bool>,
    /// Source-pixel rows to hold in RAM per chunk (default 512).
    pub chunk_size: Option<usize>,
    /// Path to a TOML config file.
    pub config: Option<String>,
}

/// Parsed zoom range with inclusive min and max.
#[derive(Debug, Clone, Copy, PartialEq, Eq, Structural)]
pub struct ZoomRange {
    pub min: u8,
    pub max: u8,
}

/// Why a zoom range could not be read.
#[derive(Debug)]
pub enum ZoomError {
    /// The part before `..` (as written) is not a zoom level.
    InvalidMin { text: String, kind: IntErrorKind },
    /// The part after `..` (as written) is not a zoom level.
    InvalidMax { text: String, kind: IntErrorKind },
    /// The range runs backwards.
    MinAboveMax { min: u8, max: u8 },
    /// A single zoom level (the whole text, as written) could not be read.
    Invalid { text: String, kind: IntErrorKind },
}

/// The failure of a zoom range, with its texts as characters.
pub ghost enum ZoomFailure {
    InvalidMin(Seq<char>, IntErrorKind),
    InvalidMax(Seq<char>, IntErrorKind),
    MinAboveMax(u8, u8),
    Invalid(Seq<char>, IntErrorKind),
}

impl ZoomError {
    pub open spec fn failure(&self) -> ZoomFailure {
        match self {
            ZoomError::InvalidMin { text, kind } => ZoomFailure::InvalidMin(text@, *kind),
            ZoomError::InvalidMax { text, kind } => ZoomFailure::InvalidMax(text@, *kind),
            ZoomError::MinAboveMax { min, max } => ZoomFailure::MinAboveMax(*min, *max),
            ZoomError::Invalid { text, kind } => ZoomFailure::Invalid(text@, *kind),
        }
    }
}

/// `"min..max"` (split at the first `..`, each side trimmed) or a single trimmed level
/// `"z"`, read into an inclusive range.
pub open spec fn zoom_spec(s: Seq<char>) -> Result<(u8, u8), ZoomFailure> {
    match first_dots(s) {
        Some(i) => {
            let a = s.take(i);
            let b = s.skip(i + 2);
            match parse_u8_spec(trimmed(a)) {
                Err(k) => Err(ZoomFailure::InvalidMin(a, k)),
                Ok(min) => match parse_u8_spec(trimmed(b)) {
                    Err(k) => Err(ZoomFailure::InvalidMax(b, k)),
                    Ok(max) => if min > max {
                        Err(ZoomFailure::MinAboveMax(min, max))
                    } else {
                        Ok((min, max))
                    },
                },
            }
        },
        None => match parse_u8_spec(trimmed(s)) {
            Err(k) => Err(ZoomFailure::Invalid(s, k)),
            Ok(z) => Ok((z, z)),
        },
    }
}

impl ZoomRange {
    /// Parse `"min..max"` or `"z"` (single zoom level) into an inclusive range.
    pub fn parse(s: &str) -> (r: Result<Self, ZoomError>)
        ensures
            r matches Ok(z) ==> zoom_spec(s@) == Ok::<(u8, u8), ZoomFailure>((z.min, z.max)),
            r matches Err(e) ==> zoom_spec(s@) == Err::<(u8, u8), ZoomFailure>(e.failure()),
            r matches Ok(z) ==> z.min <= z.max,
    {
        let cs = chars_of(s);
        let n = cs.len();
        match find_dots(&cs) {
            Some(i) => {
                proof {
                    assert(cs@.take(i as int) =~= cs@.subrange(0, i as int));
                    assert(cs@.skip(i + 2) =~= cs@.subrange(i + 2, cs@.len() as int));
                }
                let a = trim_chars(&cs, 0, i);
                let b = trim_chars(&cs, i + 2, n);
                let min = match parse_u8(&a, 0, a.len()) {
                    Ok(v) => v,
                    Err(kind) => {
                        proof {
                            assert(a@.subrange(0, a@.len() as int) =~= a@);
                        }
                        let raw = sub_chars(&cs, 0, i);
                        return Err(ZoomError::InvalidMin { text: string_from_chars(raw.as_slice()), kind });
                    },
                };
                proof {
                    assert(a@.subrange(0, a@.len() as int) =~= a@);
                    assert(b@.subrange(0, b@.len() as int) =~= b@);
                }
                let max = match parse_u8(&b, 0, b.len()) {
                    Ok(v) => v,
                    Err(kind) => {
                        let raw = sub_chars(&cs, i + 2, n);
                        return Err(ZoomError::InvalidMax { text: string_from_chars(raw.as_slice()), kind });
                    },
                };
                if min > max {
                    return Err(ZoomError::MinAboveMax { min, max });
                }
                Ok(ZoomRange { min, max })
            },
            None => {
                let t = trim_chars(&cs, 0, cs.len());
                proof {
                    assert(cs@.subrange(0, cs@.len() as int) =~= cs@);
                    assert(t@.subrange(0, t@.len() as int) =~= t@);
                }
                match parse_u8(&t, 0, t.len()) {
                    Ok(z) => Ok(ZoomRange { min: z, max: z }),
                    Err(kind) => Err(ZoomError::Invalid { text: string_from_chars(cs.as_slice()), kind }),
                }
            },
        }
    }
}

} // verus!
