//! Grouping tile jobs by the source chunk they are read from.

use std::collections::BTreeMap;

use vstd::prelude::*;
use vstd::arithmetic::div_mod::lemma_fundamental_div_mod_converse;

use crate::coords::{flip_y, flipped_row, Tile};
use crate::tile::{DstRect, PixelWindow};

verus! {

/// One tile to produce: its address, the source window it is resampled from, and where
/// that window lands on the tile canvas.
#[derive(Debug, Clone, Copy, PartialEq, Eq, Structural)]
pub struct TileJob {
    pub tile: Tile,
    pub window: PixelWindow,
    pub dst: DstRect,
}

/// The tiles of the inclusive range `min..=max` at zoom `z`, row by row from the top,
/// left to right within a row.
pub open spec fn tiles_between(min: Tile, max: Tile, z: u8) -> Seq<Tile> {
    let nx = if max.x >= min.x {
        max.x - min.x + 1
    } else {
        0
    };
    let ny = if max.y >= min.y {
        max.y - min.y + 1
    } else {
        0
    };
    Seq::new(
        (nx * ny) as nat,
        |k: int| Tile { x: (min.x + k % nx) as u32, y: (min.y + k / nx) as u32, z },
    )
}

/// Enumerate the tiles of the inclusive range `min..=max` at zoom `z`, row by row.
pub fn tiles_in_range(min: Tile, max: Tile, z: u8) -> (tiles: Vec<Tile>)
    requires
        (max.x - min.x + 1) * (max.y - min.y + 1) <= usize::MAX,
    ensures
        tiles@ == tiles_between(min, max, z),
{
    let ghost want = tiles_between(min, max, z);
    let ghost nx: int = if max.x >= min.x {
        max.x - min.x + 1
    } else {
        0
    };
    let mut tiles: Vec<Tile> = Vec::new();
    if max.x < min.x || max.y < min.y {
        assert(want.len() == 0) by (nonlinear_arith)
            requires
                want.len() == nx * (if max.y >= min.y {
                    max.y - min.y + 1
                } else {
                    0
                }),
                max.x < min.x || max.y < min.y,
                max.x < min.x ==> nx == 0,
        ;
        assert(tiles@ =~= want);
        return tiles;
    }
    let nxx: u64 = (max.x - min.x) as u64 + 1;
    let ny: u64 = (max.y - min.y) as u64 + 1;
    let mut oy: u64 = 0;
    while oy < ny
        invariant
            want == tiles_between(min, max, z),
            nx == max.x - min.x + 1,
            nxx == nx,
            ny == max.y - min.y + 1,
            min.x <= max.x,
            min.y <= max.y,
            nx * ny <= usize::MAX,
            0 <= oy <= ny,
            tiles@.len() == oy * nx,
            forall|k: int| 0 <= k < tiles@.len() ==> #[trigger] tiles@[k] == want[k],
        decreases ny - oy,
    {
        proof {
            assert((oy + 1) * nx <= nx * ny) by (nonlinear_arith)
                requires
                    oy < ny,
                    nx >= 1,
            ;
        }
        let mut ox: u64 = 0;
        while ox < nxx
            invariant
                want == tiles_between(min, max, z),
                nx == max.x - min.x + 1,
                nxx == nx,
                ny == max.y - min.y + 1,
                min.x <= max.x,
                min.y <= max.y,
                0 <= oy < ny,
                0 <= ox <= nxx,
                (oy + 1) * nx <= want.len(),
                tiles@.len() == oy * nx + ox,
                forall|k: int| 0 <= k < tiles@.len() ==> #[trigger] tiles@[k] == want[k],
            decreases nxx - ox,
        {
            proof {
                lemma_fundamental_div_mod_converse(tiles@.len() as int, nx, oy as int, ox as int);
                assert(oy * nx + ox < (oy + 1) * nx) by (nonlinear_arith)
                    requires
                        ox < nx,
                ;
            }
            tiles.push(Tile::new((min.x as u64 + ox) as u32, (min.y as u64 + oy) as u32, z));
            ox += 1;
        }
        proof {
            assert(oy * nx + nx == (oy + 1) * nx) by (nonlinear_arith);
        }
        oy += 1;
    }
    proof {
        assert(tiles@.len() == want.len()) by (nonlinear_arith)
            requires
                tiles@.len() == oy * nx,
                oy == ny,
                want.len() == nx * ny,
        ;
    }
    assert(tiles@ =~= want);
    tiles
}

/// Jobs whose source window starts in chunk `id`, the chunk of rows
/// `[id * chunk_size, (id + 1) * chunk_size)`.
pub open spec fn in_chunk(chunk_size: usize, id: usize) -> spec_fn(TileJob) -> bool {
    |j: TileJob| j.window.row / chunk_size == id
}

/// Group tile jobs by chunk id: chunk `j` covers source rows
/// `[j * chunk_size, (j+1) * chunk_size)`, and a job belongs to the chunk that holds the
/// first row of its source window.
///
/// Every chunk id with at least one job maps to exactly its jobs, in the order they came;
/// no other id is present. The map iterates in ascending row order, so a caller can read
/// the chunks sequentially and process the tiles of each one in parallel.
pub fn group_tiles_by_chunk(jobs: &Vec<TileJob>, chunk_size: usize) -> (map: BTreeMap<
    usize,
    Vec<TileJob>,
>)
    requires
        chunk_size > 0,
    ensures
        forall|id: usize|
            #![trigger map@.contains_key(id)]
            map@.contains_key(id) <==> jobs@.filter(in_chunk(chunk_size, id)).len() > 0,
        forall|id: usize|
            #![trigger map@[id]]
            map@.contains_key(id) ==> map@[id]@ == jobs@.filter(in_chunk(chunk_size, id)),
{
    broadcast use vstd::std_specs::btree::group_btree_axioms;
    let mut map: BTreeMap<usize, Vec<TileJob>> = BTreeMap::new();
    let mut i: usize = 0;
    while i < jobs.len()
        invariant
            chunk_size > 0,
            0 <= i <= jobs@.len(),
            forall|id: usize|
                #![trigger map@.contains_key(id)]
                map@.contains_key(id) <==> jobs@.take(i as int).filter(in_chunk(chunk_size, id)).len() > 0,
            forall|id: usize|
                #![trigger map@[id]]
                map@.contains_key(id) ==> map@[id]@ == jobs@.take(i as int).filter(
                    in_chunk(chunk_size, id),
                ),
        decreases jobs@.len() - i,
    {
        let job = jobs[i];
        let id = job.window.row / chunk_size;
        let ghost before = map@;
        proof {
            assert(jobs@.take(i + 1).drop_last() =~= jobs@.take(i as int));
            assert(jobs@.take(i + 1).last() == job);
            assert forall|c: usize| c != id implies jobs@.take(i + 1).filter(in_chunk(chunk_size, c))
                == jobs@.take(i as int).filter(in_chunk(chunk_size, c)) by {
                reveal_with_fuel(Seq::filter, 1);
            }
            assert(jobs@.take(i + 1).filter(in_chunk(chunk_size, id)) == jobs@.take(
                i as int,
            ).filter(in_chunk(chunk_size, id)).push(job)) by {
                reveal_with_fuel(Seq::filter, 1);
            }
        }
        let group = match map.remove(&id) {
            Some(mut g) => {
                g.push(job);
                g
            },
            None => {
                proof {
                    assert(jobs@.take(i as int).filter(in_chunk(chunk_size, id)).len() == 0);
                    assert(jobs@.take(i as int).filter(in_chunk(chunk_size, id)) =~= Seq::<
                        TileJob,
                    >::empty());
                }
                let mut g: Vec<TileJob> = Vec::new();
                g.push(job);
                g
            },
        };
        map.insert(id, group);
        i += 1;
    }
    assert(jobs@.take(jobs@.len() as int) =~= jobs@);
    map
}

/// Grouping partitions the jobs: a job belongs to the group of the chunk that holds the
/// first row of its source window, and to no other group.
pub proof fn lemma_job_in_exactly_one_group(jobs: Seq<TileJob>, chunk_size: usize, k: int, id: usize)
    requires
        chunk_size > 0,
        0 <= k < jobs.len(),
    ensures
        jobs.filter(in_chunk(chunk_size, (jobs[k].window.row / chunk_size) as usize)).contains(
            jobs[k],
        ),
        id != jobs[k].window.row / chunk_size ==> !jobs.filter(in_chunk(chunk_size, id)).contains(
            jobs[k],
        ),
{
    let own = (jobs[k].window.row / chunk_size) as usize;
    jobs.lemma_filter_contains(in_chunk(chunk_size, own), k);
    let other = jobs.filter(in_chunk(chunk_size, id));
    if id != own && other.contains(jobs[k]) {
        let i = choose|i: int| 0 <= i < other.len() && other[i] == jobs[k];
        jobs.lemma_filter_pred(in_chunk(chunk_size, id), i);
    }
}

/// The largest `row + height` over the jobs' source windows.
pub open spec fn deepest_row(jobs: Seq<TileJob>) -> Option<int>
    decreases jobs.len(),
{
    if jobs.len() == 0 {
        None
    } else {
        let here = jobs.last().window.row + jobs.last().window.height;
        match deepest_row(jobs.drop_last()) {
            None => Some(here),
            Some(d) => Some(if d < here {
                here
            } else {
                d
            }),
        }
    }
}

/// The rows to read for chunk `chunk_id`: from `chunk_id * chunk_size` down to the deepest
/// source row any of its jobs needs (by default the chunk's own rows), clipped to the
/// dataset height, and at least one row.
pub open spec fn chunk_rows(
    jobs: Seq<TileJob>,
    chunk_id: int,
    chunk_size: int,
    ds_h: int,
) -> (int, int) {
    let row_start = chunk_id * chunk_size;
    let natural = if row_start + chunk_size < ds_h {
        row_start + chunk_size
    } else {
        ds_h
    };
    let deepest = match deepest_row(jobs) {
        Some(d) => d,
        None => natural,
    };
    let required = if deepest < ds_h {
        deepest
    } else {
        ds_h
    };
    let count = if required > row_start {
        required - row_start
    } else {
        0
    };
    (row_start, if count < 1 {
        1
    } else {
        count
    })
}

proof fn lemma_deepest_covers(jobs: Seq<TileJob>, k: int)
    requires
        0 <= k < jobs.len(),
    ensures
        deepest_row(jobs) matches Some(d) && jobs[k].window.row + jobs[k].window.height <= d,
    decreases jobs.len(),
{
    if k < jobs.len() - 1 {
        lemma_deepest_covers(jobs.drop_last(), k);
    }
}

/// The rows read for a chunk hold every job grouped under it: a job whose source window
/// starts in chunk `id` and ends inside the dataset lies wholly within
/// `chunk_rows(jobs, id, ..)`, so cropping it reads only rows the chunk holds.
pub proof fn lemma_grouped_job_is_read(
    jobs: Seq<TileJob>,
    id: usize,
    chunk_size: usize,
    ds_h: usize,
    k: int,
)
    requires
        chunk_size > 0,
        0 <= k < jobs.len(),
        jobs[k].window.row / chunk_size == id,
        jobs[k].window.row + jobs[k].window.height <= ds_h,
    ensures
        chunk_rows(jobs, id as int, chunk_size as int, ds_h as int).0 <= jobs[k].window.row,
        jobs[k].window.row + jobs[k].window.height <= chunk_rows(
            jobs,
            id as int,
            chunk_size as int,
            ds_h as int,
        ).0 + chunk_rows(jobs, id as int, chunk_size as int, ds_h as int).1,
{
    let row = jobs[k].window.row as int;
    let cs = chunk_size as int;
    vstd::arithmetic::div_mod::lemma_fundamental_div_mod(row, cs);
    vstd::arithmetic::div_mod::lemma_mod_bound(row, cs);
    assert((row / cs) * cs == cs * (row / cs)) by (nonlinear_arith);
    assert(id * cs <= row);
    lemma_deepest_covers(jobs, k);
}

/// The source rows to hold in RAM for chunk `chunk_id`: `(row_start, row_count)`.
///
/// The read is expanded to cover the deepest source row required by any tile assigned to
/// the chunk, so that a tile whose window straddles the chunk boundary (common at low zoom
/// levels, where one tile can span the whole raster) is read whole.
pub fn chunk_read_rows(jobs: &Vec<TileJob>, chunk_id: usize, chunk_size: usize, ds_h: usize) -> (rows:
    (usize, usize))
    requires
        chunk_id * chunk_size + chunk_size <= usize::MAX,
        forall|k: int|
            0 <= k < jobs@.len() ==> #[trigger] jobs@[k].window.row + jobs@[k].window.height
                <= usize::MAX,
    ensures
        rows.0 == chunk_rows(jobs@, chunk_id as int, chunk_size as int, ds_h as int).0,
        rows.1 == chunk_rows(jobs@, chunk_id as int, chunk_size as int, ds_h as int).1,
        forall|k: int|
            0 <= k < jobs@.len() && rows.0 <= #[trigger] jobs@[k].window.row && jobs@[k].window.row
                + jobs@[k].window.height <= ds_h ==> jobs@[k].window.row + jobs@[k].window.height
                <= rows.0 + rows.1,
{
    proof {
        assert(chunk_id * chunk_size <= chunk_id * chunk_size + chunk_size);
    }
    let row_start = chunk_id * chunk_size;
    let natural_row_end = if row_start + chunk_size < ds_h {
        row_start + chunk_size
    } else {
        ds_h
    };
    let mut deepest: Option<usize> = None;
    let mut i: usize = 0;
    while i < jobs.len()
        invariant
            0 <= i <= jobs@.len(),
            forall|k: int|
                0 <= k < jobs@.len() ==> #[trigger] jobs@[k].window.row + jobs@[k].window.height
                    <= usize::MAX,
            deepest_row(jobs@.take(i as int)) == match deepest {
                Some(d) => Some(d as int),
                None => None::<int>,
            },
        decreases jobs@.len() - i,
    {
        let here = jobs[i].window.row + jobs[i].window.height;
        proof {
            assert(jobs@.take(i + 1).drop_last() =~= jobs@.take(i as int));
        }
        deepest = match deepest {
            None => Some(here),
            Some(d) => Some(if d < here {
                here
            } else {
                d
            }),
        };
        i += 1;
    }
    assert(jobs@.take(jobs@.len() as int) =~= jobs@);
    let deepest_end = match deepest {
        Some(d) => d,
        None => natural_row_end,
    };
    let required_row_end = if deepest_end < ds_h {
        deepest_end
    } else {
        ds_h
    };
    let count = if required_row_end > row_start {
        required_row_end - row_start
    } else {
        0
    };
    let row_count = if count < 1 {
        1
    } else {
        count
    };
    proof {
        assert forall|k: int|
            0 <= k < jobs@.len() && row_start <= #[trigger] jobs@[k].window.row
                && jobs@[k].window.row + jobs@[k].window.height <= ds_h implies jobs@[k].window.row
            + jobs@[k].window.height <= row_start + row_count by {
            lemma_deepest_covers(jobs@, k);
        }
    }
    (row_start, row_count)
}

/// The row a tile is written under: its XYZ row, or the flipped TMS row.
pub fn output_y(tile: Tile, z: u8, tms: bool) -> (y: u32)
    requires
        tms ==> z < 32,
    ensures
        y == (if tms {
            flipped_row(tile.y, z)
        } else {
            tile.y as int
        }),
{
    if tms {
        flip_y(tile.y, z)
    } else {
        tile.y
    }
}

/// The part of a `tile_size × tile_size` canvas between columns `x..x_end` and rows
/// `y..y_end` (already clamped to the canvas), at least one pixel wide and high where the
/// canvas leaves room, so that rounding never collapses a real overlap to nothing.
pub fn dst_rect_between(x: u32, x_end: u32, y: u32, y_end: u32, tile_size: u32) -> (r: DstRect)
    requires
        x <= tile_size,
        y <= tile_size,
    ensures
        r.x == x,
        r.y == y,
        r.width == clamp_extent(x as int, x_end as int, tile_size as int),
        r.height == clamp_extent(y as int, y_end as int, tile_size as int),
        r.fits(tile_size),
{
    let w = if x_end > x {
        x_end - x
    } else {
        0
    };
    let w = if w < 1 {
        1
    } else {
        w
    };
    let w = if w < tile_size - x {
        w
    } else {
        tile_size - x
    };
    let h = if y_end > y {
        y_end - y
    } else {
        0
    };
    let h = if h < 1 {
        1
    } else {
        h
    };
    let h = if h < tile_size - y {
        h
    } else {
        tile_size - y
    };
    DstRect { x, y, width: w, height: h }
}

/// `min(max(end - start, 0, 1), size - start)`: the extent of a canvas span that starts
/// at `start`.
pub open spec fn clamp_extent(start: int, end: int, size: int) -> int {
    let d = if end > start {
        end - start
    } else {
        0
    };
    let d = if d < 1 {
        1
    } else {
        d
    };
    if d < size - start {
        d
    } else {
        size - start
    }
}

} // verus!
