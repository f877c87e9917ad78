//! Tile enumeration and grouping for the chunked pipeline, and band repacking of tiles.

pub mod bands;
pub mod chunks;

pub use chunks::TileJob;
