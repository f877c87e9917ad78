//! Core data types: output format, pixel windows, destination rectangles, chunk buffers.

use vstd::prelude::*;

verus! {

/// Output format for encoded tiles.
#[derive(Debug, Clone, Copy, PartialEq, Eq, Structural)]
pub enum Format {
    Png,
    Jpeg,
    WebP,
    Avif,
    Jxl,
}

impl Default for Format {
    fn default() -> (f: Self)
        ensures
            f == Format::Png,
    {
        Format::Png
    }
}

/// File extension used for tiles of format `f`.
pub open spec fn extension_of(f: Format) -> Seq<char> {
    match f {
        Format::Png => "png"@,
        Format::Jpeg => "jpg"@,
        Format::WebP => "webp"@,
        Format::Avif => "avif"@,
        Format::Jxl => "jxl"@,
    }
}

impl Format {
    pub fn extension(self) -> (ext: &'static str)
        ensures
            ext@ == extension_of(self),
    {
        match self {
            Format::Png => "png",
            Format::Jpeg => "jpg",
            Format::WebP => "webp",
            Format::Avif => "avif",
            Format::Jxl => "jxl",
        }
    }
}

/// A rectangular region in source-pixel space (top-left origin).
#[derive(Debug, Clone, Copy, PartialEq, Eq, Structural)]
pub struct PixelWindow {
    pub col: usize,
    pub row: usize,
    pub width: usize,
    pub height: usize,
}

/// The sub-rectangle of a `tile_size × tile_size` destination canvas that a resampled
/// [`PixelWindow`] is written into. Equal to the full canvas when the dataset covers the
/// tile on every side; smaller for tiles that straddle the dataset edge. The rest of the
/// canvas stays zero (transparent, for RGBA).
#[derive(Debug, Clone, Copy, PartialEq, Eq, Structural)]
pub struct DstRect {
    pub x: u32,
    pub y: u32,
    pub width: u32,
    pub height: u32,
}

impl DstRect {
    /// The full `tile_size × tile_size` canvas.
    pub open spec fn full_spec(tile_size: u32) -> DstRect {
        DstRect { x: 0, y: 0, width: tile_size, height: tile_size }
    }

    /// The full `tile_size × tile_size` canvas.
    pub fn full(tile_size: u32) -> (r: Self)
        ensures
            r == DstRect::full_spec(tile_size),
    {
        DstRect { x: 0, y: 0, width: tile_size, height: tile_size }
    }

    /// Whether canvas pixel `(col, row)` lies inside the rectangle.
    pub open spec fn covers(self, col: int, row: int) -> bool {
        &&& self.x <= col < self.x + self.width
        &&& self.y <= row < self.y + self.height
    }

    /// The rectangle lies within a `tile_size × tile_size` canvas.
    pub open spec fn fits(self, tile_size: u32) -> bool {
        &&& self.x + self.width <= tile_size
        &&& self.y + self.height <= tile_size
    }
}

/// In-RAM buffer for a horizontal slice of source rows, all bands, planar layout.
///
/// `band_data[b]` holds `ds_width * row_count` samples in row-major order for band `b+1`.
pub struct ChunkBuffer {
    pub band_data: Vec<Vec<u8>>,
    pub ds_width: usize,
    pub row_start: usize,
    pub row_count: usize,
}

impl ChunkBuffer {
    /// The planar bands as sequences of samples.
    pub open spec fn bands(&self) -> Seq<Seq<u8>> {
        self.band_data@.map_values(|v: Vec<u8>| v@)
    }

    /// Every band holds exactly `ds_width * row_count` samples.
    pub open spec fn wf(&self) -> bool {
        forall|b: int|
            0 <= b < self.band_data@.len() ==> #[trigger] self.band_data@[b]@.len() == self.ds_width
                * self.row_count
    }

    /// Sample of band `b` at dataset row `row`, column `col`.
    pub open spec fn sample(&self, b: int, row: int, col: int) -> u8 {
        self.band_data@[b]@[(row - self.row_start) * self.ds_width + col]
    }

    pub fn band_count(&self) -> (n: usize)
        ensures
            n == self.band_data@.len(),
    {
        self.band_data.len()
    }

    pub fn contains_row(&self, row: usize) -> (r: bool)
        requires
            self.row_start + self.row_count <= usize::MAX,
        ensures
            r == (self.row_start <= row < self.row_start + self.row_count),
    {
        row >= self.row_start && row < self.row_start + self.row_count
    }
}

} // verus!
