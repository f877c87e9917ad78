use libgeotiles::coords::Tile;
use libgeotiles::pipeline::chunks::{chunk_read_rows, dst_rect_between, group_tiles_by_chunk, output_y, tiles_in_range, TileJob};
use libgeotiles::tile::{DstRect, PixelWindow};

/// The jobs of the 2×2 grid over a 100×100 dataset: each tile covers a 50×50 quarter, so
/// the top-row tiles read source rows [0, 50) and the bottom-row tiles rows [50, 100).
fn jobs_2x2() -> Vec<TileJob> {
    let mut jobs = Vec::new();
    for ty in 0..2u32 {
        for tx in 0..2u32 {
            jobs.push(TileJob {
                tile: Tile::new(tx, ty, 0),
                window: PixelWindow { col: 50 * tx as usize, row: 50 * ty as usize, width: 50, height: 50 },
                dst: DstRect::full(256),
            });
        }
    }
    jobs
}

#[test]
fn tiles_grouped_by_chunk_id() {
    let groups = group_tiles_by_chunk(&jobs_2x2(), 40);
    assert_eq!(groups.len(), 2, "expected two distinct chunk groups");
    assert_eq!(groups[&0].len(), 2, "chunk 0 should contain the two top-row tiles");
    assert_eq!(groups[&1].len(), 2, "chunk 1 should contain the two bottom-row tiles");
}

#[test]
fn chunk_size_larger_than_dataset_gives_one_chunk() {
    let groups = group_tiles_by_chunk(&jobs_2x2(), 1000);
    assert_eq!(groups.len(), 1, "all tiles should land in chunk 0 when chunk_size >= ds_height");
    assert_eq!(groups[&0].len(), 4, "all four tiles in chunk 0");
}

#[test]
fn chunk_size_1_groups_tiles_by_first_row() {
    let groups = group_tiles_by_chunk(&jobs_2x2(), 1);
    assert_eq!(groups.len(), 2, "two distinct starting rows → two chunks");
    assert_eq!(groups[&0].len(), 2, "both tiles starting at row 0 in chunk 0");
    assert_eq!(groups[&50].len(), 2, "both tiles starting at row 50 in chunk 50");
}

#[test]
fn chunk_id_matches_row_div_chunk_size() {
    let chunk_size = 30;
    let groups = group_tiles_by_chunk(&jobs_2x2(), chunk_size);
    for (chunk_id, jobs) in &groups {
        for job in jobs {
            assert_eq!(job.window.row / chunk_size, *chunk_id, "tile {:?} window row {} not in chunk {}", job.tile, job.window.row, chunk_id);
        }
    }
    let total: usize = groups.values().map(|v| v.len()).sum();
    assert_eq!(total, 4);
}

#[test]
fn groups_keep_the_jobs_in_order() {
    let groups = group_tiles_by_chunk(&jobs_2x2(), 50);
    let xs: Vec<u32> = groups[&1].iter().map(|j| j.tile.x).collect();
    assert_eq!(xs, vec![0, 1]);
    assert_eq!(groups.keys().copied().collect::<Vec<_>>(), vec![0, 1]);
}

#[test]
fn chunk_reads_grow_to_the_deepest_window() {
    // Chunk 0 of 40 rows holds the top-row tiles, whose windows reach row 50.
    let jobs: Vec<TileJob> = jobs_2x2().into_iter().filter(|j| j.window.row == 0).collect();
    assert_eq!(chunk_read_rows(&jobs, 0, 40, 100), (0, 50));
    // A read never passes the dataset height, and reads at least one row.
    assert_eq!(chunk_read_rows(&jobs, 0, 40, 30), (0, 30));
    assert_eq!(chunk_read_rows(&Vec::new(), 3, 40, 100), (120, 1));
    assert_eq!(chunk_read_rows(&Vec::new(), 1, 40, 100), (40, 40));
}

#[test]
fn tiles_come_row_by_row() {
    let tiles = tiles_in_range(Tile::new(1, 2, 3), Tile::new(2, 3, 3), 3);
    assert_eq!(tiles, vec![Tile::new(1, 2, 3), Tile::new(2, 2, 3), Tile::new(1, 3, 3), Tile::new(2, 3, 3)]);
    assert!(tiles_in_range(Tile::new(2, 0, 1), Tile::new(1, 0, 1), 1).is_empty());
}

#[test]
fn output_row_flips_only_for_tms() {
    let t = Tile::new(0, 1, 2);
    assert_eq!(output_y(t, 2, false), 1);
    assert_eq!(output_y(t, 2, true), 2);
}

#[test]
fn canvas_rectangles_stay_on_the_canvas() {
    assert_eq!(dst_rect_between(0, 256, 0, 256, 256), DstRect::full(256));
    assert_eq!(dst_rect_between(10, 100, 20, 20, 256), DstRect { x: 10, y: 20, width: 90, height: 1 });
    assert_eq!(dst_rect_between(256, 256, 0, 10, 256), DstRect { x: 256, y: 0, width: 0, height: 10 });
    assert_eq!(dst_rect_between(250, 300, 0, 3, 256), DstRect { x: 250, y: 0, width: 6, height: 3 });
}
