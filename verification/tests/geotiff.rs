use libgeotiles::backend::ResampleBackend;
use libgeotiles::geotiff::GeoTiff;
use libgeotiles::tile::Format;
use libgeotiles::Error;

fn probe(path: &str) -> Result<(), Error> {
    if std::path::Path::new(path).exists() {
        Ok(())
    } else {
        Err(Error::Io(std::io::Error::from(std::io::ErrorKind::NotFound)))
    }
}

fn chained(g: GeoTiff) -> GeoTiff {
    g.zoom(2..=8)
        .chunk_size(256)
        .format(Format::Png)
        .output("/tmp/tiles")
        .backend(ResampleBackend::Cpu)
        .tile_size(512)
}

#[test]
fn open_nonexistent_returns_error() {
    let path = "/definitely/does/not/exist/input.tif";
    let result = GeoTiff::open(path, probe(path));
    assert!(result.is_err(), "expected error for nonexistent path");
}

#[test]
fn builder_setters_are_chainable() {
    let _ = chained as fn(GeoTiff) -> GeoTiff;
}

#[test]
fn open_starts_from_the_defaults_and_setters_replace_one_field() {
    let g = GeoTiff::open("input.tif", Ok(())).unwrap();
    assert_eq!(g.input_path(), "input.tif");
    assert_eq!(g.zoom_levels().clone(), 0..=12);
    assert_eq!(g.rows_per_chunk(), 512);
    assert_eq!(g.tile_format(), Format::Png);
    assert_eq!(g.output_dir(), "tiles");
    assert_eq!(g.resample_backend(), ResampleBackend::Cpu);
    assert_eq!(g.tile_pixels(), 256);

    let g = chained(g);
    assert_eq!(g.input_path(), "input.tif");
    assert_eq!(g.zoom_levels().clone(), 2..=8);
    assert_eq!(g.rows_per_chunk(), 256);
    assert_eq!(g.output_dir(), "/tmp/tiles");
    assert_eq!(g.tile_pixels(), 512);

    let g = g.format(Format::WebP);
    assert_eq!(g.tile_format(), Format::WebP);
    assert_eq!(g.tile_pixels(), 512);
}
