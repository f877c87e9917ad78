//! Values of the `tilemapresource.xml` document that do not depend on coordinates.

use vstd::prelude::*;

use crate::tile::Format;

verus! {

/// MIME type of tiles of format `f`.
pub open spec fn mime_of(f: Format) -> Seq<char> {
    match f {
        Format::Png => "image/png"@,
        Format::Jpeg => "image/jpeg"@,
        Format::WebP => "image/webp"@,
        Format::Avif => "image/avif"@,
        Format::Jxl => "image/jxl"@,
    }
}

/// The MIME type written as the tile format's `mime-type` attribute.
pub fn mime_type(format: Format) -> (m: &'static str)
    ensures
        m@ == mime_of(format),
{
    match format {
        Format::Png => "image/png",
        Format::Jpeg => "image/jpeg",
        Format::WebP => "image/webp",
        Format::Avif => "image/avif",
        Format::Jxl => "image/jxl",
    }
}

} // verus!
