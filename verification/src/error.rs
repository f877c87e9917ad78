//! The library's error type.

use vstd::prelude::*;

verus! {

/// `tiff::TiffError`, carried opaque inside [`Error::Tiff`]; nothing is claimed of it.
#[verifier::external_type_specification]
#[verifier::external_body]
pub struct ExTiffError(tiff::TiffError);

/// `std::io::Error`, carried opaque inside [`Error::Io`]; nothing is claimed of it.
#[verifier::external_type_specification]
#[verifier::external_body]
pub struct ExIoError(std::io::Error);

/// `fast_image_resize::ImageBufferError`, carried opaque inside [`Error::ImageBuffer`];
/// nothing is claimed of it.
#[verifier::external_type_specification]
#[verifier::external_body]
pub struct ExImageBufferError(fast_image_resize::ImageBufferError);

/// `fast_image_resize::ResizeError`, carried opaque inside [`Error::Resize`]; nothing is
/// claimed of it.
#[verifier::external_type_specification]
#[verifier::external_body]
pub struct ExResizeError(fast_image_resize::ResizeError);

/// `fast_image_resize::CropBoxError`, carried opaque inside [`Error::CropBox`]; nothing is
/// claimed of it.
#[verifier::external_type_specification]
#[verifier::external_body]
pub struct ExCropBoxError(fast_image_resize::CropBoxError);

/// Everything that can go wrong while cutting, resampling or encoding tiles.
#[derive(Debug)]
pub enum Error {
    /// The TIFF decoder rejected the input.
    Tiff(tiff::TiffError),
    /// Reading the input failed.
    Io(std::io::Error),
    /// A pixel buffer did not fit the image it was meant to hold.
    ImageBuffer(fast_image_resize::ImageBufferError),
    /// The resampler failed.
    Resize(fast_image_resize::ResizeError),
    /// A crop box did not fit the source image.
    CropBox(fast_image_resize::CropBoxError),
    /// Encoding a tile to the requested format failed.
    Encode(String),
    /// The requested tile does not overlap the dataset.
    OutOfBounds { x: u32, y: u32, z: u8 },
    /// Band count not supported by the pipeline (1 to 4 bands expected; 1, 3 or 4 for PNG).
    BadBandCount(usize),
    /// GPU context initialisation or per-tile operation failed.
    Gpu(String),
    /// The TIFF carries no GeoTIFF model tags.
    MissingGeoreferencing,
    /// A TIFF layout or sample format this pipeline does not support.
    Unsupported(String),
}

} // verus!
