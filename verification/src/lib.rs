//! Verified building blocks for cutting GeoTIFF rasters into web-map tiles.

/// Resample backends: cropping a tile's window and resampling it onto the tile canvas.
pub mod backend;
/// Command-line values and the zoom range syntax.
pub mod cli;
/// Values of the config file.
pub mod config;
/// Tile addresses and the integer side of the EPSG:4326 / EPSG:3857 grids.
pub mod coords;
/// Tile encoding: PNG, JPEG, WebP; per-format options.
pub mod encode;
/// The library's error type.
pub mod error;
/// The run builder.
pub mod geotiff;
/// Tile jobs, chunk grouping and band repacking.
pub mod pipeline;
/// Resolved run settings: flags over config over defaults.
pub mod settings;
/// Character-level text handling.
pub mod text;
/// Chunked reads of strip- or tile-organised TIFF rasters.
pub mod tiff_io;
/// Core data types: output format, pixel windows, canvas rectangles, chunk buffers.
pub mod tile;
/// Values of the `tilemapresource.xml` document.
pub mod tmr;

pub use backend::ResampleBackend;
pub use coords::{flip_y, Tile};
pub use error::Error;
pub use tile::Format;
