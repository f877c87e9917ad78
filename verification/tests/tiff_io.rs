use std::io::Cursor;

use libgeotiles::tiff_io::{
    assemble_chunk, copy_interleaved_rows, georef_source, pixel_window_between, plan_chunk_reads,
    raster_layout, ChunkKind, ChunkPiece, DecodedChunk, GeorefSource, RasterLayout,
};
use libgeotiles::tile::ChunkBuffer;
use libgeotiles::Error;
use tiff::decoder::{ChunkType, Decoder, DecodingResult};
use tiff::encoder::{colortype, TiffEncoder};
use tiff::tags::Tag;

/// A grey `w × h` TIFF with values `0, 1, 2, ...` in row-major order, written in memory with
/// `rows_per_strip` rows per strip.
fn grey_tiff(w: u32, h: u32, rows_per_strip: u32) -> Vec<u8> {
    let mut bytes = Cursor::new(Vec::new());
    {
        let mut tiff = TiffEncoder::new(&mut bytes).unwrap();
        let mut image = tiff.new_image::<colortype::Gray8>(w, h).unwrap();
        image.rows_per_strip(rows_per_strip).unwrap();
        let data: Vec<u8> = (0..w * h).map(|v| v as u8).collect();
        image.write_data(&data).unwrap();
    }
    bytes.into_inner()
}

/// Read rows `[row_start, row_start + row_count)` the way the tiling run does: plan the
/// strips or tiles, decode each one, assemble them into a chunk.
fn read_rows(bytes: &[u8], row_start: usize, row_count: usize) -> ChunkBuffer {
    let mut dec = Decoder::new(Cursor::new(bytes)).unwrap();
    let (w, h) = dec.dimensions().unwrap();
    let spp = dec.find_tag(Tag::SamplesPerPixel).unwrap().map(|v| v.into_u16().unwrap());
    let pc = dec.find_tag(Tag::PlanarConfiguration).unwrap().map(|v| v.into_u16().unwrap());
    let kind = match dec.get_chunk_type() {
        ChunkType::Strip => ChunkKind::Strip,
        ChunkType::Tile => ChunkKind::Tile,
    };
    let (cw, ch) = dec.chunk_dimensions();
    let layout = raster_layout(w, h, spp, pc, kind, cw, ch).unwrap();
    let pieces = plan_chunk_reads(&layout, row_start, row_count);
    let mut decoded = Vec::new();
    for p in pieces {
        let (dw, dh) = dec.chunk_data_dimensions(p.index);
        let data = match dec.read_chunk(p.index).unwrap() {
            DecodingResult::U8(v) => v,
            _ => panic!("expected 8-bit samples"),
        };
        decoded.push(DecodedChunk {
            data,
            data_w: dw as usize,
            data_h: dh as usize,
            abs_row_start: p.abs_row_start,
            col_offset: p.col_offset,
        });
    }
    assemble_chunk(&layout, row_start, row_count, &decoded)
}

#[test]
fn read_chunk_returns_expected_pixels() {
    let bytes = grey_tiff(4, 4, 4);
    let chunk = read_rows(&bytes, 1, 2);
    assert_eq!(chunk.band_count(), 1);
    assert_eq!(chunk.row_start, 1);
    assert_eq!(chunk.row_count, 2);
    // 4x4 image with values 0..16 row-major; rows 1..3 are [4..8) and [8..12).
    assert_eq!(chunk.band_data[0], vec![4, 5, 6, 7, 8, 9, 10, 11]);
}

#[test]
fn reads_across_strip_boundaries_give_the_same_rows() {
    let one = grey_tiff(5, 7, 1);
    let three = grey_tiff(5, 7, 3);
    let a = read_rows(&one, 2, 4);
    let b = read_rows(&three, 2, 4);
    assert_eq!(a.band_data, b.band_data);
    let want: Vec<u8> = (10u8..30).collect();
    assert_eq!(a.band_data[0], want);
    // Rows past the image end stay zero.
    let tail = read_rows(&three, 6, 3);
    assert_eq!(tail.band_data[0][..5], [30, 31, 32, 33, 34]);
    assert!(tail.band_data[0][5..].iter().all(|&v| v == 0));
}

#[test]
fn layout_refuses_planar_storage() {
    match raster_layout(4, 4, Some(3), Some(2), ChunkKind::Strip, 4, 1) {
        Err(Error::Unsupported(m)) => assert!(m.starts_with("planar (non-interleaved)")),
        other => panic!("unexpected {:?}", other),
    }
    let l = raster_layout(10, 4, None, Some(1), ChunkKind::Tile, 4, 4).unwrap();
    assert_eq!(l.band_count, 1);
    assert_eq!(l.tiles_across, 3);
    let l = raster_layout(8, 4, Some(4), None, ChunkKind::Strip, 8, 2).unwrap();
    assert_eq!((l.band_count, l.tiles_across), (4, 0));
}

#[test]
fn tiled_reads_plan_every_tile_of_every_tile_row() {
    let layout = RasterLayout {
        width: 10,
        height: 9,
        band_count: 1,
        chunk_kind: ChunkKind::Tile,
        chunk_w: 4,
        chunk_h: 4,
        tiles_across: 3,
    };
    let pieces = plan_chunk_reads(&layout, 3, 2);
    let want: Vec<ChunkPiece> = vec![
        ChunkPiece { index: 0, abs_row_start: 0, col_offset: 0 },
        ChunkPiece { index: 1, abs_row_start: 0, col_offset: 4 },
        ChunkPiece { index: 2, abs_row_start: 0, col_offset: 8 },
        ChunkPiece { index: 3, abs_row_start: 4, col_offset: 0 },
        ChunkPiece { index: 4, abs_row_start: 4, col_offset: 4 },
        ChunkPiece { index: 5, abs_row_start: 4, col_offset: 8 },
    ];
    assert_eq!(pieces, want);
    let strips = RasterLayout { chunk_kind: ChunkKind::Strip, chunk_w: 10, chunk_h: 2, tiles_across: 0, ..layout };
    let pieces = plan_chunk_reads(&strips, 3, 20);
    let idx: Vec<u32> = pieces.iter().map(|p| p.index).collect();
    assert_eq!(idx, vec![1, 2, 3, 4]);
}

#[test]
fn copy_places_interleaved_samples_into_planar_bands() {
    // A 2×2 RGB tile at dataset column 1, row 3, copied into a read of rows [3, 5) of a
    // 4-wide dataset.
    let buf = [1u8, 2, 3, 4, 5, 6, 7, 8, 9, 10, 11, 12];
    let mut bands = vec![vec![0u8; 8], vec![0u8; 8], vec![0u8; 8]];
    copy_interleaved_rows(&buf, 2, 2, 3, 3, 1, 3, 5, 4, &mut bands);
    assert_eq!(bands[0], vec![0, 1, 4, 0, 0, 7, 10, 0]);
    assert_eq!(bands[1], vec![0, 2, 5, 0, 0, 8, 11, 0]);
    assert_eq!(bands[2], vec![0, 3, 6, 0, 0, 9, 12, 0]);
}

#[test]
fn georeferencing_tags_are_chosen_by_their_sizes() {
    assert_eq!(georef_source(Some(16), None, None).unwrap(), GeorefSource::Transformation);
    assert_eq!(georef_source(Some(16), Some(1), Some(1)).unwrap(), GeorefSource::Transformation);
    match georef_source(Some(12), Some(3), Some(6)) {
        Err(Error::Unsupported(m)) => assert_eq!(m, "ModelTransformationTag must have 16 values"),
        other => panic!("unexpected {:?}", other),
    }
    assert_eq!(georef_source(None, Some(3), Some(6)).unwrap(), GeorefSource::TiepointScale);
    assert_eq!(georef_source(None, Some(3), Some(12)).unwrap(), GeorefSource::TiepointScale);
    assert!(matches!(georef_source(None, Some(2), Some(6)), Err(Error::Unsupported(_))));
    assert!(matches!(georef_source(None, Some(3), Some(5)), Err(Error::Unsupported(_))));
    assert!(matches!(georef_source(None, None, Some(6)), Err(Error::MissingGeoreferencing)));
    assert!(matches!(georef_source(None, None, None), Err(Error::MissingGeoreferencing)));

    let w = pixel_window_between(2, 5, 1, 3).unwrap();
    assert_eq!((w.col, w.row, w.width, w.height), (2, 1, 3, 2));
    assert!(pixel_window_between(5, 5, 1, 3).is_none());
    assert!(pixel_window_between(0, 5, 4, 3).is_none());
}
