//! The builder that configures a tiling run over one GeoTIFF.

use vstd::prelude::*;

use std::ops::RangeInclusive;

use crate::backend::ResampleBackend;
use crate::coords::DEFAULT_TILE_SIZE;
use crate::error::Error;
use crate::tile::Format;

verus! {

/// Builder for the tile generation pipeline: the input path and every run parameter.
///
/// Defaults: zoom `0..=12`, 512-row chunks, PNG tiles under `tiles`, the CPU backend,
/// 256-pixel tiles.
#[derive(Debug)]
pub struct GeoTiff {
    path: String,
    zoom: RangeInclusive<u8>,
    /// Maximum source-pixel rows loaded into RAM per iteration.
    chunk_size: usize,
    format: Format,
    output: String,
    backend: ResampleBackend,
    tile_size: u32,
}

impl GeoTiff {
    pub closed spec fn path_view(&self) -> Seq<char> {
        self.path@
    }

    pub closed spec fn zoom_view(&self) -> RangeInclusive<u8> {
        self.zoom
    }

    pub closed spec fn chunk_size_view(&self) -> usize {
        self.chunk_size
    }

    pub closed spec fn format_view(&self) -> Format {
        self.format
    }

    pub closed spec fn output_view(&self) -> Seq<char> {
        self.output@
    }

    pub closed spec fn backend_view(&self) -> ResampleBackend {
        self.backend
    }

    pub closed spec fn tile_size_view(&self) -> u32 {
        self.tile_size
    }

    /// Builder for `path` with the default parameters, once the dataset at `path` has
    /// been opened for reading; a failure to open it is returned as it came.
    pub fn open(path: &str, opened: Result<(), Error>) -> (r: Result<Self, Error>)
        ensures
            opened is Err <==> r is Err,
            r matches Err(e) ==> opened == Err::<(), Error>(e),
            r matches Ok(g) ==> {
                &&& g.path_view() == path@
                &&& g.zoom_view()@.start == 0
                &&& g.zoom_view()@.end == 12
                &&& !g.zoom_view()@.exhausted
                &&& g.chunk_size_view() == 512
                &&& g.format_view() == Format::Png
                &&& g.output_view() == "tiles"@
                &&& g.backend_view() == ResampleBackend::Cpu
                &&& g.tile_size_view() == DEFAULT_TILE_SIZE
            },
    {
        match opened {
            Err(e) => Err(e),
            Ok(()) => Ok(GeoTiff {
                path: path.to_owned(),
                zoom: RangeInclusive::new(0, 12),
                chunk_size: 512,
                format: Format::Png,
                output: "tiles".to_owned(),
                backend: ResampleBackend::Cpu,
                tile_size: DEFAULT_TILE_SIZE,
            }),
        }
    }

    /// The zoom levels to generate, inclusive.
    pub fn zoom(self, range: RangeInclusive<u8>) -> (r: Self)
        ensures
            r.zoom_view() == range,
            r.path_view() == self.path_view(),
            r.chunk_size_view() == self.chunk_size_view(),
            r.format_view() == self.format_view(),
            r.output_view() == self.output_view(),
            r.backend_view() == self.backend_view(),
            r.tile_size_view() == self.tile_size_view(),
    {
        GeoTiff { zoom: range, ..self }
    }

    /// Maximum source-pixel rows read into RAM at once. Smaller values reduce peak
    /// memory; larger values reduce reads. Default: 512.
    pub fn chunk_size(self, rows: usize) -> (r: Self)
        ensures
            r.chunk_size_view() == rows,
            r.path_view() == self.path_view(),
            r.zoom_view() == self.zoom_view(),
            r.format_view() == self.format_view(),
            r.output_view() == self.output_view(),
            r.backend_view() == self.backend_view(),
            r.tile_size_view() == self.tile_size_view(),
    {
        GeoTiff { chunk_size: rows, ..self }
    }

    pub fn format(self, fmt: Format) -> (r: Self)
        ensures
            r.format_view() == fmt,
            r.path_view() == self.path_view(),
            r.zoom_view() == self.zoom_view(),
            r.chunk_size_view() == self.chunk_size_view(),
            r.output_view() == self.output_view(),
            r.backend_view() == self.backend_view(),
            r.tile_size_view() == self.tile_size_view(),
    {
        GeoTiff { format: fmt, ..self }
    }

    pub fn output(self, dir: &str) -> (r: Self)
        ensures
            r.output_view() == dir@,
            r.path_view() == self.path_view(),
            r.zoom_view() == self.zoom_view(),
            r.chunk_size_view() == self.chunk_size_view(),
            r.format_view() == self.format_view(),
            r.backend_view() == self.backend_view(),
            r.tile_size_view() == self.tile_size_view(),
    {
        GeoTiff { output: dir.to_owned(), ..self }
    }

    pub fn backend(self, b: ResampleBackend) -> (r: Self)
        ensures
            r.backend_view() == b,
            r.path_view() == self.path_view(),
            r.zoom_view() == self.zoom_view(),
            r.chunk_size_view() == self.chunk_size_view(),
            r.format_view() == self.format_view(),
            r.output_view() == self.output_view(),
            r.tile_size_view() == self.tile_size_view(),
    {
        GeoTiff { backend: b, ..self }
    }

    pub fn tile_size(self, size: u32) -> (r: Self)
        ensures
            r.tile_size_view() == size,
            r.path_view() == self.path_view(),
            r.zoom_view() == self.zoom_view(),
            r.chunk_size_view() == self.chunk_size_view(),
            r.format_view() == self.format_view(),
            r.output_view() == self.output_view(),
            r.backend_view() == self.backend_view(),
    {
        GeoTiff { tile_size: size, ..self }
    }

    /// The input path.
    pub fn input_path(&self) -> (p: &str)
        ensures
            p@ == self.path_view(),
    {
        self.path.as_str()
    }

    /// The zoom levels to generate.
    pub fn zoom_levels(&self) -> (z: &RangeInclusive<u8>)
        ensures
            *z == self.zoom_view(),
    {
        &self.zoom
    }

    /// Source rows per chunk.
    pub fn rows_per_chunk(&self) -> (n: usize)
        ensures
            n == self.chunk_size_view(),
    {
        self.chunk_size
    }

    /// Output tile format.
    pub fn tile_format(&self) -> (f: Format)
        ensures
            f == self.format_view(),
    {
        self.format
    }

    /// Output directory.
    pub fn output_dir(&self) -> (d: &str)
        ensures
            d@ == self.output_view(),
    {
        self.output.as_str()
    }

    /// Resample backend.
    pub fn resample_backend(&self) -> (b: ResampleBackend)
        ensures
            b == self.backend_view(),
    {
        self.backend
    }

    /// Tile width and height in pixels.
    pub fn tile_pixels(&self) -> (n: u32)
        ensures
            n == self.tile_size_view(),
    {
        self.tile_size
    }
}

} // verus!
