use libgeotiles::cli::{Cli, ZoomError};
use libgeotiles::config::{AvifConfig, Config, JpegConfig, PngConfig, WebPConfig};
use libgeotiles::encode::options::{EncodeOptions, PngCompression, PngFilter};
use libgeotiles::settings::{
    build_encode_opts, crs_from_lowered, format_from_lowered, parse_crs, parse_format, Crs,
    Settings, SettingsError,
};
use libgeotiles::tile::Format;

fn minimal_cli() -> Cli {
    Cli {
        input: String::from("input.tif"),
        output: String::from("output"),
        zoom: String::from("0..5"),
        extension: None,
        tms: None,
        crs: None,
        bands: None,
        tilesize: None,
        tmr: None,
        chunk_size: None,
        config: None,
    }
}

#[test]
fn defaults_apply_when_nothing_set() {
    let cli = minimal_cli();
    let config = Config::default();
    let s = Settings::resolve(&cli, &config).unwrap();
    assert_eq!(s.min_zoom, 0);
    assert_eq!(s.max_zoom, 5);
    assert_eq!(s.format, Format::Png);
    assert!(!s.tms);
    assert_eq!(s.crs, Crs::Geographic);
    assert_eq!(s.tile_size, 256);
    assert!(!s.tmr);
    assert_eq!(s.chunk_size, 512);
}

#[test]
fn cli_overrides_config() {
    let mut cli = minimal_cli();
    cli.extension = Some(String::from("jpg"));
    cli.tms = Some(true);
    cli.tilesize = Some(512);
    let mut config = Config::default();
    config.extension = Some(String::from("png"));
    config.tms = Some(false);
    let s = Settings::resolve(&cli, &config).unwrap();
    assert_eq!(s.format, Format::Jpeg);
    assert!(s.tms);
    assert_eq!(s.tile_size, 512);
}

#[test]
fn config_fills_absent_cli() {
    let cli = minimal_cli();
    let mut config = Config::default();
    config.extension = Some(String::from("webp"));
    config.chunk_size = Some(1024);
    let s = Settings::resolve(&cli, &config).unwrap();
    assert_eq!(s.format, Format::WebP);
    assert_eq!(s.chunk_size, 1024);
}

#[test]
fn parse_crs_all_aliases() {
    assert_eq!(parse_crs("geographic").unwrap(), Crs::Geographic);
    assert_eq!(parse_crs("EPSG:4326").unwrap(), Crs::Geographic);
    assert_eq!(parse_crs("4326").unwrap(), Crs::Geographic);
    assert_eq!(parse_crs("mercator").unwrap(), Crs::Mercator);
    assert_eq!(parse_crs("EPSG:3857").unwrap(), Crs::Mercator);
    assert_eq!(parse_crs("3857").unwrap(), Crs::Mercator);
    assert!(parse_crs("unknown").is_err());
}

#[test]
fn parse_format_all_variants() {
    assert_eq!(parse_format("png").unwrap(), Format::Png);
    assert_eq!(parse_format(".jpg").unwrap(), Format::Jpeg);
    assert_eq!(parse_format("JPEG").unwrap(), Format::Jpeg);
    assert_eq!(parse_format("webp").unwrap(), Format::WebP);
    assert_eq!(parse_format("avif").unwrap(), Format::Avif);
    assert_eq!(parse_format("jxl").unwrap(), Format::Jxl);
    assert!(parse_format("tif").is_err());
}

#[test]
fn default_is_all_none() {
    let cfg = Config::default();
    assert!(cfg.extension.is_none());
    assert!(cfg.tms.is_none());
    assert!(cfg.crs.is_none());
    assert!(cfg.bands.is_none());
    assert!(cfg.tilesize.is_none());
    assert!(cfg.tmr.is_none());
    assert!(cfg.chunk_size.is_none());
}

#[test]
fn every_extension_parses_back_to_its_format() {
    for f in [Format::Png, Format::Jpeg, Format::WebP, Format::Avif, Format::Jxl] {
        assert_eq!(parse_format(f.extension()).unwrap(), f);
        let dotted = format!("..{}", f.extension().to_uppercase());
        assert_eq!(parse_format(&dotted).unwrap(), f);
    }
}

#[test]
fn unknown_names_report_the_normalised_text() {
    match parse_format("  .TIF ") {
        Err(SettingsError::UnknownFormat(t)) => assert_eq!(t, "tif"),
        other => panic!("unexpected {:?}", other),
    }
    match parse_crs(" Lambert ") {
        Err(SettingsError::UnknownCrs(t)) => assert_eq!(t, "lambert"),
        other => panic!("unexpected {:?}", other),
    }
    assert_eq!(parse_crs("  GeoDetic ").unwrap(), Crs::Geographic);
    assert_eq!(parse_crs("WebMercator").unwrap(), Crs::Mercator);
}

#[test]
fn resolve_fails_in_order_zoom_format_crs() {
    let mut cli = minimal_cli();
    cli.zoom = String::from("9..1");
    cli.extension = Some(String::from("tif"));
    cli.crs = Some(String::from("lambert"));
    match Settings::resolve(&cli, &Config::default()) {
        Err(SettingsError::Zoom(ZoomError::MinAboveMax { min, max })) => assert_eq!((min, max), (9, 1)),
        other => panic!("unexpected {:?}", other),
    }
    cli.zoom = String::from("1..9");
    match Settings::resolve(&cli, &Config::default()) {
        Err(SettingsError::UnknownFormat(t)) => assert_eq!(t, "tif"),
        other => panic!("unexpected {:?}", other),
    }
    cli.extension = None;
    match Settings::resolve(&cli, &Config::default()) {
        Err(SettingsError::UnknownCrs(t)) => assert_eq!(t, "lambert"),
        other => panic!("unexpected {:?}", other),
    }
}

#[test]
fn resolve_keeps_paths_and_merges_the_rest() {
    let mut cli = minimal_cli();
    cli.bands = Some(3);
    let mut config = Config::default();
    config.bands = Some(1);
    config.tmr = Some(true);
    config.crs = Some(String::from("epsg:3857"));
    config.tilesize = Some(128);
    let s = Settings::resolve(&cli, &config).unwrap();
    assert_eq!(s.input, "input.tif");
    assert_eq!(s.output, "output");
    assert_eq!(s.bands, Some(3));
    assert!(s.tmr);
    assert_eq!(s.crs, Crs::Mercator);
    assert_eq!(s.tile_size, 128);
    assert_eq!(s.encode_opts, EncodeOptions::default());
}

#[test]
fn encode_options_follow_the_config_sections() {
    let cfg = Config {
        extension: None,
        tms: None,
        crs: None,
        bands: None,
        tilesize: None,
        tmr: None,
        chunk_size: None,
        png: PngConfig { compression: Some(String::from("best")), filter: Some(String::from("average")) },
        jpeg: JpegConfig { quality: Some(70) },
        webp: WebPConfig { lossless: Some(false), quality: None },
        avif: AvifConfig { quality: None, speed: Some(9) },
    };
    let o = build_encode_opts(&cfg);
    assert_eq!(o.png.compression, PngCompression::Best);
    assert_eq!(o.png.filter, PngFilter::Avg);
    assert_eq!(o.jpeg.quality, 70);
    assert!(!o.webp.lossless);
    assert_eq!(o.webp.quality, 85);
    assert_eq!(o.avif.quality, 60);
    assert_eq!(o.avif.speed, 9);

    let mut cfg = Config::default();
    cfg.png.compression = Some(String::from("FAST"));
    cfg.png.filter = Some(String::from("none"));
    let o = build_encode_opts(&cfg);
    assert_eq!(o.png.compression, PngCompression::Default);
    assert_eq!(o.png.filter, PngFilter::NoFilter);
    assert_eq!(build_encode_opts(&Config::default()), EncodeOptions::default());
}

#[test]
fn lowered_names_are_looked_up_exactly() {
    assert_eq!(format_from_lowered("...webp").unwrap(), Format::WebP);
    assert_eq!(format_from_lowered("jpeg").unwrap(), Format::Jpeg);
    match format_from_lowered("PNG") {
        Err(SettingsError::UnknownFormat(t)) => assert_eq!(t, "PNG"),
        other => panic!("unexpected {:?}", other),
    }
    assert_eq!(crs_from_lowered("epsg:4326").unwrap(), Crs::Geographic);
    match crs_from_lowered(" mercator") {
        Err(SettingsError::UnknownCrs(t)) => assert_eq!(t, " mercator"),
        other => panic!("unexpected {:?}", other),
    }
}
