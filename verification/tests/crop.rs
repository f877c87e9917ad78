use libgeotiles::backend::cpu::{crop_tile, interleave_window};
use libgeotiles::backend::gpu::{build_rgba, unpack_rgba};
use libgeotiles::pipeline::bands::apply_bands;
use libgeotiles::tile::{ChunkBuffer, DstRect, PixelWindow};
use libgeotiles::Error;

fn grey_4x4() -> ChunkBuffer {
    ChunkBuffer { band_data: vec![(0u8..16).collect()], ds_width: 4, row_start: 0, row_count: 4 }
}

#[test]
fn crop_tile_identity_1band() {
    let data = (0u8..16).collect::<Vec<_>>();
    let chunk = ChunkBuffer { band_data: vec![data], ds_width: 4, row_start: 0, row_count: 4 };
    let window = PixelWindow { col: 0, row: 0, width: 4, height: 4 };
    let result = crop_tile(&chunk, window, 2, DstRect::full(2)).unwrap();
    assert_eq!(result.len(), 4, "2×2 × 1 band = 4 bytes");
}

#[test]
fn tests_crop_tile_identity_1band() {
    // 4×4 grayscale chunk, tile window = entire chunk → resize to 2×2
    let data = (0u8..16).collect::<Vec<_>>();
    let chunk = ChunkBuffer { band_data: vec![data], ds_width: 4, row_start: 0, row_count: 4 };
    let window = PixelWindow { col: 0, row: 0, width: 4, height: 4 };
    let result = crop_tile(&chunk, window, 2, DstRect::full(2)).unwrap();
    assert_eq!(result.len(), 4, "2×2 × 1 band = 4 bytes");
}

#[test]
fn crop_tile_sub_window_3band() {
    let band: Vec<u8> = (0u8..24).collect();
    let chunk = ChunkBuffer {
        band_data: vec![band.clone(), band.clone(), band],
        ds_width: 6,
        row_start: 0,
        row_count: 4,
    };
    let window = PixelWindow { col: 2, row: 1, width: 2, height: 2 };
    let result = crop_tile(&chunk, window, 4, DstRect::full(4)).unwrap();
    assert_eq!(result.len(), 4 * 4 * 3, "4×4 × 3 bands = 48 bytes");
}

#[test]
fn tests_crop_tile_sub_window_3band() {
    // 6×4 RGB chunk; extract a 2×2 sub-window and scale to 4×4
    let band: Vec<u8> = (0u8..24).collect();
    let chunk = ChunkBuffer {
        band_data: vec![band.clone(), band.clone(), band],
        ds_width: 6,
        row_start: 0,
        row_count: 4,
    };
    let window = PixelWindow { col: 2, row: 1, width: 2, height: 2 };
    let result = crop_tile(&chunk, window, 4, DstRect::full(4)).unwrap();
    assert_eq!(result.len(), 4 * 4 * 3, "4×4 × 3 bands = 48 bytes");
}

#[test]
fn crop_tile_respects_chunk_row_offset() {
    let data = vec![42u8; 8 * 4];
    let chunk = ChunkBuffer { band_data: vec![data], ds_width: 8, row_start: 10, row_count: 4 };
    let window = PixelWindow { col: 0, row: 10, width: 8, height: 4 };
    let result = crop_tile(&chunk, window, 4, DstRect::full(4)).unwrap();
    assert_eq!(result.len(), 16);
    assert!(result.iter().all(|&p| p == 42));
}

#[test]
fn tests_crop_tile_respects_chunk_row_offset() {
    // Chunk starts at row 10; tile window is at absolute row 10
    let data = vec![42u8; 8 * 4];
    let chunk = ChunkBuffer { band_data: vec![data], ds_width: 8, row_start: 10, row_count: 4 };
    let window = PixelWindow { col: 0, row: 10, width: 8, height: 4 };
    let result = crop_tile(&chunk, window, 4, DstRect::full(4)).unwrap();
    assert_eq!(result.len(), 16);
    // All source pixels are 42, so resized result should stay 42
    assert!(result.iter().all(|&p| p == 42));
}

#[test]
fn crop_tile_of_tile_sized_window_copies_the_pixels() {
    let chunk = grey_4x4();
    let window = PixelWindow { col: 1, row: 1, width: 2, height: 2 };
    let result = crop_tile(&chunk, window, 2, DstRect::full(2)).unwrap();
    assert_eq!(result, vec![5, 6, 9, 10]);
}

#[test]
fn crop_tile_places_the_image_inside_dst_only() {
    let chunk = grey_4x4();
    let window = PixelWindow { col: 0, row: 2, width: 2, height: 1 };
    let dst = DstRect { x: 1, y: 2, width: 2, height: 1 };
    let result = crop_tile(&chunk, window, 4, dst).unwrap();
    let mut want = vec![0u8; 16];
    want[2 * 4 + 1] = 8;
    want[2 * 4 + 2] = 9;
    assert_eq!(result, want);
}

#[test]
fn crop_tile_refuses_five_bands() {
    let b = vec![0u8; 4];
    let chunk = ChunkBuffer { band_data: vec![b.clone(), b.clone(), b.clone(), b.clone(), b], ds_width: 2, row_start: 0, row_count: 2 };
    let window = PixelWindow { col: 0, row: 0, width: 2, height: 2 };
    match crop_tile(&chunk, window, 2, DstRect::full(2)) {
        Err(Error::BadBandCount(5)) => {}
        other => panic!("unexpected {:?}", other),
    }
}

#[test]
fn window_pixels_do_not_depend_on_chunk_boundaries() {
    // The same dataset rows 2..4 of a 3-band 4-wide raster, held by two chunks that start
    // at different rows.
    let rows = |start: usize, count: usize, band: u8| -> Vec<u8> {
        (start..start + count)
            .flat_map(|r| (0..4usize).map(move |c| (r * 10 + c) as u8 + band))
            .collect()
    };
    let a = ChunkBuffer { band_data: (0..3).map(|b| rows(0, 4, b)).collect(), ds_width: 4, row_start: 0, row_count: 4 };
    let b = ChunkBuffer { band_data: (0..3).map(|b| rows(2, 1, b)).collect(), ds_width: 4, row_start: 2, row_count: 1 };
    let window = PixelWindow { col: 1, row: 2, width: 3, height: 1 };
    let ia = interleave_window(&a, window);
    let ib = interleave_window(&b, window);
    assert_eq!(ia, ib);
    assert_eq!(ia, vec![21, 22, 23, 22, 23, 24, 23, 24, 25]);
    let ta = crop_tile(&a, window, 3, DstRect { x: 0, y: 0, width: 3, height: 1 }).unwrap();
    let tb = crop_tile(&b, window, 3, DstRect { x: 0, y: 0, width: 3, height: 1 }).unwrap();
    assert_eq!(ta, tb);
}

#[test]
fn apply_bands_pads_alpha_opaque_inside_dst_and_transparent_outside() {
    // 2×2 tile, RGB → RGBA, real data only in the top-left pixel (dst = 1×1 at origin).
    let pixels = vec![
        10, 20, 30, 0, 0, 0, // row 0: real pixel, padding pixel
        0, 0, 0, 0, 0, 0, // row 1: padding, padding
    ];
    let dst = DstRect { x: 0, y: 0, width: 1, height: 1 };
    let out = apply_bands(pixels, 3, 4, 2, dst);
    assert_eq!(out, vec![10, 20, 30, 255, 0, 0, 0, 0, 0, 0, 0, 0, 0, 0, 0, 0]);
}

#[test]
fn apply_bands_noop_when_band_counts_match() {
    let pixels = vec![1, 2, 3, 4];
    let out = apply_bands(pixels.clone(), 4, 4, 1, DstRect::full(1));
    assert_eq!(out, pixels);
}

#[test]
fn apply_bands_drops_excess_channels() {
    let pixels = vec![1, 2, 3, 4, 5, 6, 7, 8];
    let out = apply_bands(pixels, 4, 1, 1, DstRect::full(1));
    assert_eq!(out, vec![1, 5]);
}

#[test]
fn build_rgba_expands_each_band_layout() {
    let grey = grey_4x4();
    let window = PixelWindow { col: 1, row: 0, width: 2, height: 1 };
    assert_eq!(build_rgba(&grey, window, 0, 1).unwrap(), vec![1, 1, 1, 255, 2, 2, 2, 255]);
    let la = ChunkBuffer { band_data: vec![vec![7, 8], vec![100, 200]], ds_width: 2, row_start: 5, row_count: 1 };
    let window = PixelWindow { col: 0, row: 5, width: 2, height: 1 };
    assert_eq!(build_rgba(&la, window, 0, 2).unwrap(), vec![7, 7, 7, 100, 8, 8, 8, 200]);
    match build_rgba(&la, window, 0, 5) {
        Err(Error::BadBandCount(5)) => {}
        other => panic!("unexpected {:?}", other),
    }
}

#[test]
fn readback_texels_come_out_byte_for_byte() {
    let mapped = [1u8, 2, 3, 4, 250, 251, 252, 253, 9];
    assert_eq!(unpack_rgba(&mapped), vec![1, 2, 3, 4, 250, 251, 252, 253]);
    assert!(unpack_rgba(&[7, 7, 7]).is_empty());
}

#[test]
fn resampled_tiles_do_not_depend_on_chunk_boundaries() {
    // Rows 1..5 of a 6-wide, 3-band raster, held by a chunk of the whole raster and by a
    // chunk of just those rows, scaled down onto a 3×3 tile.
    let rows = |start: usize, count: usize, band: u8| -> Vec<u8> {
        (start..start + count)
            .flat_map(|r| (0..6usize).map(move |c| (r * 31 + c * 7) as u8 ^ band))
            .collect()
    };
    let whole = ChunkBuffer { band_data: (0..3).map(|b| rows(0, 6, b)).collect(), ds_width: 6, row_start: 0, row_count: 6 };
    let part = ChunkBuffer { band_data: (0..3).map(|b| rows(1, 4, b)).collect(), ds_width: 6, row_start: 1, row_count: 4 };
    let window = PixelWindow { col: 0, row: 1, width: 6, height: 4 };
    let a = crop_tile(&whole, window, 3, DstRect::full(3)).unwrap();
    let b = crop_tile(&part, window, 3, DstRect::full(3)).unwrap();
    assert_eq!(a.len(), 27);
    assert_eq!(a, b);
}
