use libgeotiles::tmr::mime_type;
use libgeotiles::tile::Format;

#[test]
fn mime_type_all_formats() {
    assert_eq!(mime_type(Format::Png), "image/png");
    assert_eq!(mime_type(Format::Jpeg), "image/jpeg");
    assert_eq!(mime_type(Format::WebP), "image/webp");
    assert_eq!(mime_type(Format::Avif), "image/avif");
    assert_eq!(mime_type(Format::Jxl), "image/jxl");
}

#[test]
fn extension_of_every_format() {
    assert_eq!(Format::Png.extension(), "png");
    assert_eq!(Format::Jpeg.extension(), "jpg");
    assert_eq!(Format::WebP.extension(), "webp");
    assert_eq!(Format::Avif.extension(), "avif");
    assert_eq!(Format::Jxl.extension(), "jxl");
    assert_eq!(Format::default(), Format::Png);
}
