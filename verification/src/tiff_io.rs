//! The integer side of chunked TIFF reading: raster layout checks, which strips or
//! tiles cover a row range, and copying decoded interleaved samples into planar rows.

use vstd::prelude::*;
use vstd::arithmetic::div_mod::{lemma_fundamental_div_mod, lemma_fundamental_div_mod_converse};

use crate::error::Error;
use crate::tile::{ChunkBuffer, PixelWindow};

verus! {

/// Where one decoded strip or tile lands in a planar chunk buffer.
///
/// The decoded buffer holds `buf_w * buf_h` pixels of `band_count` interleaved samples;
/// its top-left pixel sits at dataset row `chunk_row`, column `col_offset`. The chunk
/// buffer covers dataset rows `[row_start, row_end)` at full dataset width `ds_width`.
pub struct ChunkPlacement {
    pub buf_w: usize,
    pub buf_h: usize,
    pub band_count: usize,
    pub chunk_row: usize,
    pub col_offset: usize,
    pub row_start: usize,
    pub row_end: usize,
    pub ds_width: usize,
}

/// The pixel `(row, col)` of the decoded buffer that feeds index `k` of a planar band,
/// if any.
pub open spec fn source_cell(p: ChunkPlacement, k: int) -> Option<(int, int)> {
    if p.ds_width == 0 || k < 0 {
        None
    } else {
        let out_row = k / (p.ds_width as int);
        let abs_col = k % (p.ds_width as int);
        let abs_row = out_row + p.row_start;
        let r = abs_row - p.chunk_row;
        let c = abs_col - p.col_offset;
        if 0 <= r < p.buf_h && 0 <= c < p.buf_w && abs_row < p.row_end {
            Some((r, c))
        } else {
            None
        }
    }
}

/// Index of sample `b` of pixel `(r, c)` in the decoded interleaved buffer.
pub open spec fn sample_index(p: ChunkPlacement, r: int, c: int, b: int) -> int {
    (r * p.buf_w + c) * p.band_count + b
}

/// Row-major order on decoded pixels: `rc` comes before `(r_done, c_done)`.
pub open spec fn cell_before(rc: (int, int), r_done: int, c_done: int) -> bool {
    rc.0 < r_done || (rc.0 == r_done && rc.1 < c_done)
}

/// Band `b` after the decoded pixels before `(r_done, c_done)` have been copied into it.
pub open spec fn band_copied_upto(
    p: ChunkPlacement,
    buf: Seq<u8>,
    band: Seq<u8>,
    b: int,
    r_done: int,
    c_done: int,
) -> Seq<u8> {
    Seq::new(
        band.len(),
        |k: int|
            match source_cell(p, k) {
                Some(rc) => if cell_before(rc, r_done, c_done) {
                    buf[sample_index(p, rc.0, rc.1, b)]
                } else {
                    band[k]
                },
                None => band[k],
            },
    )
}

/// Band `b` after every decoded pixel that falls in the chunk has been copied into it.
pub open spec fn band_copied(p: ChunkPlacement, buf: Seq<u8>, band: Seq<u8>, b: int) -> Seq<u8> {
    band_copied_upto(p, buf, band, b, p.buf_h as int, 0)
}

/// Planar bands after copying a decoded chunk: bands below `min(bands.len(), band_count)`
/// receive the chunk's samples, the others stay as they were.
pub open spec fn bands_copied(p: ChunkPlacement, buf: Seq<u8>, bands: Seq<Seq<u8>>) -> Seq<Seq<u8>> {
    Seq::new(
        bands.len(),
        |b: int|
            if b < p.band_count {
                band_copied(p, buf, bands[b], b)
            } else {
                bands[b]
            },
    )
}

/// What copying a decoded chunk needs to stay inside its buffers.
pub open spec fn placement_fits(p: ChunkPlacement, buf_len: int, bands: Seq<Seq<u8>>) -> bool {
    &&& buf_len >= p.buf_w * p.buf_h * p.band_count
    &&& p.buf_w * p.buf_h * p.band_count <= usize::MAX
    &&& p.buf_w * p.buf_h <= usize::MAX
    &&& p.row_end > p.row_start ==> (p.row_end - p.row_start) * p.ds_width <= usize::MAX
    &&& p.chunk_row + p.buf_h <= usize::MAX
    &&& p.col_offset + p.buf_w <= usize::MAX
    &&& forall|b: int|
        0 <= b < bands.len() && b < p.band_count && p.row_end > p.row_start ==> #[trigger] bands[b].len()
            >= (p.row_end - p.row_start) * p.ds_width
}

proof fn lemma_source_of_target(p: ChunkPlacement, r: int, c: int)
    requires
        p.ds_width > 0,
        0 <= r < p.buf_h,
        0 <= c < p.buf_w,
        p.row_start <= p.chunk_row + r < p.row_end,
        p.col_offset + c < p.ds_width,
    ensures
        source_cell(
            p,
            (p.chunk_row + r - p.row_start) * p.ds_width + p.col_offset + c,
        ) == Some((r, c)),
{
    let w = p.ds_width as int;
    let out_row = p.chunk_row + r - p.row_start;
    let abs_col = p.col_offset + c;
    let k = out_row * w + abs_col;
    assert(out_row * w >= 0) by (nonlinear_arith)
        requires
            out_row >= 0,
            w > 0,
    ;
    lemma_fundamental_div_mod_converse(k, w, out_row, abs_col);
}

proof fn lemma_target_of_source(p: ChunkPlacement, k: int)
    requires
        source_cell(p, k) is Some,
    ensures
        ({
            let (r, c) = source_cell(p, k)->0;
            k == (p.chunk_row + r - p.row_start) * p.ds_width + p.col_offset + c
        }),
{
    let w = p.ds_width as int;
    lemma_fundamental_div_mod(k, w);
    assert(w * (k / w) == (k / w) * w) by (nonlinear_arith);
}

proof fn lemma_copy_one_cell(
    p: ChunkPlacement,
    buf: Seq<u8>,
    band: Seq<u8>,
    b: int,
    r: int,
    c: int,
    out_idx: int,
)
    requires
        p.ds_width > 0,
        0 <= r < p.buf_h,
        0 <= c < p.buf_w,
        p.row_start <= p.chunk_row + r < p.row_end,
        p.col_offset + c < p.ds_width,
        out_idx == (p.chunk_row + r - p.row_start) * p.ds_width + p.col_offset + c,
        0 <= out_idx < band.len(),
    ensures
        band_copied_upto(p, buf, band, b, r, c + 1) == band_copied_upto(p, buf, band, b, r, c).update(
            out_idx,
            buf[sample_index(p, r, c, b)],
        ),
{
    lemma_source_of_target(p, r, c);
    let lhs = band_copied_upto(p, buf, band, b, r, c + 1);
    let rhs = band_copied_upto(p, buf, band, b, r, c).update(out_idx, buf[sample_index(p, r, c, b)]);
    assert forall|k: int| 0 <= k < lhs.len() implies lhs[k] == rhs[k] by {
        if k != out_idx {
            if source_cell(p, k) is Some {
                lemma_target_of_source(p, k);
            }
        }
    }
    assert(lhs =~= rhs);
}

proof fn lemma_skip_column(p: ChunkPlacement, buf: Seq<u8>, band: Seq<u8>, b: int, r: int, c: int)
    requires
        p.col_offset + c >= p.ds_width,
    ensures
        band_copied_upto(p, buf, band, b, r, c + 1) == band_copied_upto(p, buf, band, b, r, c),
{
    let lhs = band_copied_upto(p, buf, band, b, r, c + 1);
    let rhs = band_copied_upto(p, buf, band, b, r, c);
    assert forall|k: int| 0 <= k < lhs.len() implies lhs[k] == rhs[k] by {
        if source_cell(p, k) is Some {
            let w = p.ds_width as int;
            assert(k % w < w) by {
                vstd::arithmetic::div_mod::lemma_mod_bound(k, w);
            }
        }
    }
    assert(lhs =~= rhs);
}

proof fn lemma_skip_row(p: ChunkPlacement, buf: Seq<u8>, band: Seq<u8>, b: int, r: int)
    requires
        p.chunk_row + r < p.row_start || p.chunk_row + r >= p.row_end,
    ensures
        band_copied_upto(p, buf, band, b, r + 1, 0) == band_copied_upto(p, buf, band, b, r, 0),
{
    let lhs = band_copied_upto(p, buf, band, b, r + 1, 0);
    let rhs = band_copied_upto(p, buf, band, b, r, 0);
    assert forall|k: int| 0 <= k < lhs.len() implies lhs[k] == rhs[k] by {
        if source_cell(p, k) is Some {
            let w = p.ds_width as int;
            assert(k / w >= 0) by {
                vstd::arithmetic::div_mod::lemma_div_pos_is_pos(k, w);
            }
        }
    }
    assert(lhs =~= rhs);
}

proof fn lemma_row_done(p: ChunkPlacement, buf: Seq<u8>, band: Seq<u8>, b: int, r: int)
    ensures
        band_copied_upto(p, buf, band, b, r + 1, 0) == band_copied_upto(p, buf, band, b, r, p.buf_w as int),
{
    let lhs = band_copied_upto(p, buf, band, b, r + 1, 0);
    let rhs = band_copied_upto(p, buf, band, b, r, p.buf_w as int);
    assert(lhs =~= rhs);
}

proof fn lemma_nothing_copied(p: ChunkPlacement, buf: Seq<u8>, band: Seq<u8>, b: int)
    ensures
        band_copied_upto(p, buf, band, b, 0, 0) == band,
{
    let lhs = band_copied_upto(p, buf, band, b, 0, 0);
    assert forall|k: int| 0 <= k < lhs.len() implies lhs[k] == band[k] by {
    }
    assert(lhs =~= band);
}

/// Copy the rows of a decoded interleaved chunk buffer that fall within
/// `[row_start, row_end)` into the planar `band_data` output, offsetting columns by
/// `col_offset` within the full dataset width.
#[verifier::rlimit(40)]
pub fn copy_interleaved_rows(
    buf: &[u8],
    buf_w: usize,
    buf_h: usize,
    band_count: usize,
    chunk_abs_row_start: usize,
    col_offset: usize,
    row_start: usize,
    row_end: usize,
    ds_width: usize,
    band_data: &mut [Vec<u8>],
)
    requires
        placement_fits(
            (ChunkPlacement {
                buf_w,
                buf_h,
                band_count,
                chunk_row: chunk_abs_row_start,
                col_offset,
                row_start,
                row_end,
                ds_width,
            }),
            buf@.len() as int,
            old(band_data)@.map_values(|v: Vec<u8>| v@),
        ),
    ensures
        final(band_data)@.map_values(|v: Vec<u8>| v@) == bands_copied(
            (ChunkPlacement {
                buf_w,
                buf_h,
                band_count,
                chunk_row: chunk_abs_row_start,
                col_offset,
                row_start,
                row_end,
                ds_width,
            }),
            buf@,
            old(band_data)@.map_values(|v: Vec<u8>| v@),
        ),
{
    let ghost p = ChunkPlacement {
        buf_w,
        buf_h,
        band_count,
        chunk_row: chunk_abs_row_start,
        col_offset,
        row_start,
        row_end,
        ds_width,
    };
    let ghost old_bands = band_data@.map_values(|v: Vec<u8>| v@);
    let nb = if band_data.len() < band_count {
        band_data.len()
    } else {
        band_count
    };
    proof {
        assert forall|b: int| 0 <= b < nb implies band_data@[b]@ == band_copied_upto(
            p,
            buf@,
            old_bands[b],
            b,
            0,
            0,
        ) by {
            lemma_nothing_copied(p, buf@, old_bands[b], b);
        }
    }
    let mut r_local: usize = 0;
    while r_local < buf_h
        invariant
            p == (ChunkPlacement {
                buf_w,
                buf_h,
                band_count,
                chunk_row: chunk_abs_row_start,
                col_offset,
                row_start,
                row_end,
                ds_width,
            }),
            old_bands.len() == band_data@.len(),
            nb <= band_count,
            nb <= band_data@.len(),
            nb == band_data@.len() || nb == band_count,
            0 <= r_local <= buf_h,
            placement_fits(p, buf@.len() as int, old_bands),
            forall|b: int|
                0 <= b < nb ==> #[trigger] band_data@[b]@ == band_copied_upto(
                    p,
                    buf@,
                    old_bands[b],
                    b,
                    r_local as int,
                    0,
                ),
            forall|b: int| nb <= b < band_data@.len() ==> #[trigger] band_data@[b]@ == old_bands[b],
        decreases buf_h - r_local,
    {
        let abs_row = chunk_abs_row_start + r_local;
        if abs_row >= row_start && abs_row < row_end {
            let out_row = abs_row - row_start;
            let mut c_local: usize = 0;
            while c_local < buf_w
                invariant
                    p == (ChunkPlacement {
                        buf_w,
                        buf_h,
                        band_count,
                        chunk_row: chunk_abs_row_start,
                        col_offset,
                        row_start,
                        row_end,
                        ds_width,
                    }),
                    old_bands.len() == band_data@.len(),
                    nb <= band_count,
                    nb <= band_data@.len(),
                    nb == band_data@.len() || nb == band_count,
                    0 <= r_local < buf_h,
                    0 <= c_local <= buf_w,
                    abs_row == chunk_abs_row_start + r_local,
                    row_start <= abs_row < row_end,
                    out_row == abs_row - row_start,
                    placement_fits(p, buf@.len() as int, old_bands),
                    forall|b: int|
                        0 <= b < nb ==> #[trigger] band_data@[b]@ == band_copied_upto(
                            p,
                            buf@,
                            old_bands[b],
                            b,
                            r_local as int,
                            c_local as int,
                        ),
                    forall|b: int|
                        nb <= b < band_data@.len() ==> #[trigger] band_data@[b]@ == old_bands[b],
                decreases buf_w - c_local,
            {
                let abs_col = col_offset + c_local;
                if abs_col < ds_width {
                    proof {
                        assert(r_local * buf_w + c_local < buf_w * buf_h) by (nonlinear_arith)
                            requires
                                r_local < buf_h,
                                c_local < buf_w,
                        ;
                        assert(out_row * ds_width + abs_col < (row_end - row_start) * ds_width)
                            by (nonlinear_arith)
                            requires
                                out_row < row_end - row_start,
                                abs_col < ds_width,
                        ;
                    }
                    let cell = r_local * buf_w + c_local;
                    let out_idx = out_row * ds_width + abs_col;
                    let ghost c_prev = c_local as int;
                    let mut b: usize = 0;
                    while b < nb
                        invariant
                            p == (ChunkPlacement {
                                buf_w,
                                buf_h,
                                band_count,
                                chunk_row: chunk_abs_row_start,
                                col_offset,
                                row_start,
                                row_end,
                                ds_width,
                            }),
                            old_bands.len() == band_data@.len(),
                            nb <= band_count,
                            nb <= band_data@.len(),
                            nb == band_data@.len() || nb == band_count,
                            0 <= r_local < buf_h,
                            0 <= c_local < buf_w,
                            c_prev == c_local,
                            abs_row == chunk_abs_row_start + r_local,
                            row_start <= abs_row < row_end,
                            out_row == abs_row - row_start,
                            abs_col == col_offset + c_local,
                            abs_col < ds_width,
                            cell == r_local * buf_w + c_local,
                            cell < buf_w * buf_h,
                            out_idx == out_row * ds_width + abs_col,
                            out_idx < (row_end - row_start) * ds_width,
                            0 <= b <= nb,
                            placement_fits(p, buf@.len() as int, old_bands),
                            forall|b2: int|
                                0 <= b2 < b ==> #[trigger] band_data@[b2]@ == band_copied_upto(
                                    p,
                                    buf@,
                                    old_bands[b2],
                                    b2,
                                    r_local as int,
                                    c_local + 1,
                                ),
                            forall|b2: int|
                                b <= b2 < nb ==> #[trigger] band_data@[b2]@ == band_copied_upto(
                                    p,
                                    buf@,
                                    old_bands[b2],
                                    b2,
                                    r_local as int,
                                    c_local as int,
                                ),
                            forall|b2: int|
                                nb <= b2 < band_data@.len() ==> #[trigger] band_data@[b2]@
                                    == old_bands[b2],
                        decreases nb - b,
                    {
                        proof {
                            assert(cell * band_count + b < buf_w * buf_h * band_count)
                                by (nonlinear_arith)
                                requires
                                    cell < buf_w * buf_h,
                                    b < band_count,
                            ;
                            assert(buf_w * buf_h * band_count <= buf@.len());
                            assert(band_data@[b as int]@.len() == old_bands[b as int].len());
                            assert(old_bands[b as int].len() >= (row_end - row_start) * ds_width);
                            lemma_copy_one_cell(
                                p,
                                buf@,
                                old_bands[b as int],
                                b as int,
                                r_local as int,
                                c_local as int,
                                out_idx as int,
                            );
                        }
                        let src = cell * band_count + b;
                        band_data[b][out_idx] = buf[src];
                        proof {
                            assert(band_data@[b as int]@ == band_copied_upto(
                                p,
                                buf@,
                                old_bands[b as int],
                                b as int,
                                r_local as int,
                                c_local + 1,
                            ));
                        }
                        b += 1;
                    }
                } else {
                    proof {
                        assert forall|b: int| 0 <= b < nb implies #[trigger] band_data@[b]@
                            == band_copied_upto(
                            p,
                            buf@,
                            old_bands[b],
                            b,
                            r_local as int,
                            c_local + 1,
                        ) by {
                            lemma_skip_column(p, buf@, old_bands[b], b, r_local as int, c_local as int);
                        }
                    }
                }
                c_local += 1;
            }
            proof {
                assert forall|b: int| 0 <= b < nb implies #[trigger] band_data@[b]@
                    == band_copied_upto(p, buf@, old_bands[b], b, r_local + 1, 0) by {
                    lemma_row_done(p, buf@, old_bands[b], b, r_local as int);
                }
            }
        } else {
            proof {
                assert forall|b: int| 0 <= b < nb implies #[trigger] band_data@[b]@
                    == band_copied_upto(p, buf@, old_bands[b], b, r_local + 1, 0) by {
                    lemma_skip_row(p, buf@, old_bands[b], b, r_local as int);
                }
            }
        }
        r_local += 1;
    }
    proof {
        let fin = band_data@.map_values(|v: Vec<u8>| v@);
        let want = bands_copied(p, buf@, old_bands);
        assert forall|b: int| 0 <= b < fin.len() implies fin[b] == want[b] by {
        }
        assert(fin =~= want);
    }
}

/// How the TIFF stores its pixels: in horizontal strips or in rectangular tiles.
#[derive(Debug, Clone, Copy, PartialEq, Eq, Structural)]
pub enum ChunkKind {
    Strip,
    Tile,
}

/// The integer metadata of an opened raster that chunked reads depend on.
///
/// `chunk_w`/`chunk_h` are the native chunk size: `(width, rows_per_strip)` for strips,
/// `(tile_w, tile_h)` for tiles. `tiles_across` is only meaningful for tiles: the number
/// of tile columns across the image.
#[derive(Debug, Clone, Copy, PartialEq, Eq, Structural)]
pub struct RasterLayout {
    pub width: usize,
    pub height: usize,
    pub band_count: usize,
    pub chunk_kind: ChunkKind,
    pub chunk_w: usize,
    pub chunk_h: usize,
    pub tiles_across: usize,
}

/// `max(v, 1)`.
pub open spec fn at_least_one(v: int) -> int {
    if v < 1 {
        1
    } else {
        v
    }
}

/// `ceil(a / b)` for `b > 0`.
pub open spec fn ceil_div(a: int, b: int) -> int {
    if a % b == 0 {
        a / b
    } else {
        a / b + 1
    }
}

/// Tile columns across an image of width `width` for chunks `chunk_w` wide; zero for strips.
pub open spec fn tiles_across_of(kind: ChunkKind, width: int, chunk_w: int) -> int {
    match kind {
        ChunkKind::Tile => ceil_div(width, at_least_one(chunk_w)),
        ChunkKind::Strip => 0,
    }
}

impl RasterLayout {
    /// The layout is the one [`raster_layout`] builds from its tags.
    pub open spec fn wf(self) -> bool {
        self.tiles_across == tiles_across_of(self.chunk_kind, self.width as int, self.chunk_w as int)
    }
}

/// Tiled storage needs just enough tile columns to cover the image: `tiles_across`
/// columns of `max(chunk_w, 1)` pixels reach the right edge, and one fewer would not.
pub proof fn lemma_tiles_across_covers_width(l: RasterLayout)
    requires
        l.wf(),
        l.chunk_kind == ChunkKind::Tile,
    ensures
        l.tiles_across * (if l.chunk_w < 1 { 1 } else { l.chunk_w as int }) >= l.width,
        l.width > 0 ==> (l.tiles_across - 1) * (if l.chunk_w < 1 { 1 } else { l.chunk_w as int })
            < l.width,
        l.width == 0 ==> l.tiles_across == 0,
{
    let w = l.width as int;
    let c: int = if l.chunk_w < 1 { 1 } else { l.chunk_w as int };
    lemma_fundamental_div_mod(w, c);
    vstd::arithmetic::div_mod::lemma_mod_bound(w, c);
    let q = w / c;
    assert(q * c == c * q) by (nonlinear_arith);
    assert((q + 1) * c == q * c + c) by (nonlinear_arith);
    assert((q - 1) * c == q * c - c) by (nonlinear_arith);
    if w == 0 {
        vstd::arithmetic::div_mod::lemma_small_mod(0, c as nat);
        vstd::arithmetic::div_mod::lemma_basic_div(0, c);
    }
}

/// Message of the error for planar (band-separated) storage.
pub open spec fn planar_message() -> Seq<char> {
    "planar (non-interleaved) TIFF storage is not supported; re-encode as chunky/interleaved"@
}

/// Build the layout of an opened TIFF from its dimensions, its `SamplesPerPixel` and
/// `PlanarConfiguration` tags (when present) and its native chunk geometry.
///
/// Planar storage is refused: only chunky (pixel-interleaved) data can be read.
pub fn raster_layout(
    width: u32,
    height: u32,
    samples_per_pixel: Option<u16>,
    planar_configuration: Option<u16>,
    chunk_kind: ChunkKind,
    chunk_w: u32,
    chunk_h: u32,
) -> (r: Result<RasterLayout, Error>)
    ensures
        planar_configuration matches Some(pc) && pc != 1 ==> (r matches Err(Error::Unsupported(m))
            && m@ == planar_message()),
        !(planar_configuration matches Some(pc) && pc != 1) ==> r == Ok::<RasterLayout, Error>(
            RasterLayout {
                width: width as usize,
                height: height as usize,
                band_count: match samples_per_pixel {
                    Some(n) => n as usize,
                    None => 1,
                },
                chunk_kind,
                chunk_w: chunk_w as usize,
                chunk_h: chunk_h as usize,
                tiles_across: tiles_across_of(chunk_kind, width as int, chunk_w as int) as usize,
            },
        ),
        r matches Ok(l) ==> l.wf(),
        chunk_kind == ChunkKind::Tile ==> (r matches Ok(l) ==> l.tiles_across * (if chunk_w < 1 {
            1
        } else {
            chunk_w as int
        }) >= width && (width > 0 ==> (l.tiles_across - 1) * (if chunk_w < 1 {
            1
        } else {
            chunk_w as int
        }) < width)),
{
    let band_count: usize = match samples_per_pixel {
        None => 1,
        Some(n) => n as usize,
    };
    if let Some(pc) = planar_configuration {
        if pc != 1 {
            return Err(
                Error::Unsupported(
                    String::from_str(
                        "planar (non-interleaved) TIFF storage is not supported; re-encode as chunky/interleaved",
                    ),
                ),
            );
        }
    }
    let w = width as usize;
    let cw = chunk_w as usize;
    let tiles_across: usize = match chunk_kind {
        ChunkKind::Tile => {
            let step: usize = if cw < 1 {
                1
            } else {
                cw
            };
            if w % step == 0 {
                w / step
            } else {
                proof {
                    assert(step != 1);
                    assert(w > 0) by {
                        if w == 0 {
                            vstd::arithmetic::div_mod::lemma_small_mod(0, step as nat);
                        }
                    }
                    assert(w / step < w) by {
                        vstd::arithmetic::div_mod::lemma_div_decreases(w as int, step as int);
                    }
                }
                w / step + 1
            }
        },
        ChunkKind::Strip => 0,
    };
    let layout = RasterLayout {
        width: w,
        height: height as usize,
        band_count,
        chunk_kind,
        chunk_w: cw,
        chunk_h: chunk_h as usize,
        tiles_across,
    };
    proof {
        if chunk_kind == ChunkKind::Tile {
            lemma_tiles_across_covers_width(layout);
        }
    }
    Ok(layout)
}

/// One strip or tile to decode for a chunked read, with where its pixels sit in the
/// dataset: its top row and its first column.
#[derive(Debug, Clone, Copy, PartialEq, Eq, Structural)]
pub struct ChunkPiece {
    pub index: u32,
    pub abs_row_start: usize,
    pub col_offset: usize,
}

/// Last row (exclusive) that a read of `row_count` rows from `row_start` covers.
pub open spec fn read_row_end(l: RasterLayout, row_start: int, row_count: int) -> int {
    if row_start + row_count < l.height {
        row_start + row_count
    } else {
        l.height as int
    }
}

/// `row_end - 1`, saturating at zero.
pub open spec fn last_row(row_end: int) -> int {
    if row_end < 1 {
        0
    } else {
        row_end - 1
    }
}

/// Number of chunk rows `first..=last` (zero when `last < first`).
pub open spec fn span(first: int, last: int) -> int {
    if last >= first {
        last - first + 1
    } else {
        0
    }
}

/// The strips or tiles that hold dataset rows `[row_start, row_end)`, in storage order:
/// every strip from the one holding `row_start` to the one holding `row_end - 1`, or, for
/// tiled storage, every tile of every tile row in that span, left to right.
pub open spec fn planned_pieces(l: RasterLayout, row_start: int, row_end: int) -> Seq<ChunkPiece> {
    let h = at_least_one(l.chunk_h as int);
    let first = row_start / h;
    let last = last_row(row_end) / h;
    match l.chunk_kind {
        ChunkKind::Strip => Seq::new(
            span(first, last) as nat,
            |k: int|
                ChunkPiece {
                    index: (first + k) as u32,
                    abs_row_start: ((first + k) * h) as usize,
                    col_offset: 0,
                },
        ),
        ChunkKind::Tile => {
            let w = at_least_one(l.chunk_w as int);
            let across = at_least_one(l.tiles_across as int);
            Seq::new(
                (span(first, last) * across) as nat,
                |k: int|
                    ChunkPiece {
                        index: ((first + k / across) * across + k % across) as u32,
                        abs_row_start: ((first + k / across) * h) as usize,
                        col_offset: ((k % across) * w) as usize,
                    },
            )
        },
    }
}

/// What planning a read needs to keep its index arithmetic inside `usize`.
pub open spec fn plan_fits(l: RasterLayout, row_start: int, row_count: int) -> bool {
    &&& row_start + row_count <= usize::MAX
    &&& l.height * at_least_one(l.tiles_across as int) <= usize::MAX
    &&& at_least_one(l.tiles_across as int) * at_least_one(l.chunk_w as int) <= usize::MAX
}

proof fn lemma_div_mul_le(x: int, d: int)
    requires
        x >= 0,
        d > 0,
    ensures
        (x / d) * d <= x,
        x / d >= 0,
{
    lemma_fundamental_div_mod(x, d);
    vstd::arithmetic::div_mod::lemma_mod_bound(x, d);
    vstd::arithmetic::div_mod::lemma_div_pos_is_pos(x, d);
    assert(d * (x / d) == (x / d) * d) by (nonlinear_arith);
}

proof fn lemma_le_div_mul(a: int, x: int, d: int)
    requires
        x >= 0,
        d > 0,
        0 <= a <= x / d,
    ensures
        a * d <= x,
{
    lemma_div_mul_le(x, d);
    assert(a * d <= (x / d) * d) by (nonlinear_arith)
        requires
            a <= x / d,
            d > 0,
    ;
}

/// The strips or tiles to decode so that dataset rows `[row_start, row_start + row_count)`
/// (clipped to the image height) can be assembled into a chunk buffer.
pub fn plan_chunk_reads(layout: &RasterLayout, row_start: usize, row_count: usize) -> (pieces: Vec<
    ChunkPiece,
>)
    requires
        plan_fits(*layout, row_start as int, row_count as int),
    ensures
        pieces@ == planned_pieces(
            *layout,
            row_start as int,
            read_row_end(*layout, row_start as int, row_count as int),
        ),
{
    let row_end = if row_start + row_count < layout.height {
        row_start + row_count
    } else {
        layout.height
    };
    let h: usize = if layout.chunk_h < 1 {
        1
    } else {
        layout.chunk_h
    };
    let end_row: usize = if row_end < 1 {
        0
    } else {
        row_end - 1
    };
    let first = row_start / h;
    let last = end_row / h;
    let ghost want = planned_pieces(*layout, row_start as int, row_end as int);
    let mut pieces: Vec<ChunkPiece> = Vec::new();
    proof {
        lemma_div_mul_le(end_row as int, h as int);
        lemma_div_mul_le(row_start as int, h as int);
    }
    match layout.chunk_kind {
        ChunkKind::Strip => {
            let mut strip = first;
            while strip <= last
                invariant
                    want == planned_pieces(*layout, row_start as int, row_end as int),
                    layout.chunk_kind == ChunkKind::Strip,
                    h == at_least_one(layout.chunk_h as int),
                    first == row_start as int / h as int,
                    last == last_row(row_end as int) / h as int,
                    last <= end_row,
                    end_row < usize::MAX,
                    end_row == last_row(row_end as int),
                    first <= strip,
                    strip <= last + 1 || (strip == first && first > last),
                    pieces@.len() == strip - first,
                    forall|k: int| 0 <= k < pieces@.len() ==> #[trigger] pieces@[k] == want[k],
                decreases last + 1 - strip,
            {
                proof {
                    lemma_le_div_mul(strip as int, end_row as int, h as int);
                }
                pieces.push(ChunkPiece { index: strip as u32, abs_row_start: strip * h, col_offset: 0 });
                strip += 1;
            }
        },
        ChunkKind::Tile => {
            let across: usize = if layout.tiles_across < 1 {
                1
            } else {
                layout.tiles_across
            };
            let w: usize = if layout.chunk_w < 1 {
                1
            } else {
                layout.chunk_w
            };
            let mut tile_row = first;
            assert((tile_row - first) * across == 0) by (nonlinear_arith)
                requires
                    tile_row == first,
            ;
            while tile_row <= last
                invariant
                    want == planned_pieces(*layout, row_start as int, row_end as int),
                    layout.chunk_kind == ChunkKind::Tile,
                    plan_fits(*layout, row_start as int, row_count as int),
                    h == at_least_one(layout.chunk_h as int),
                    w == at_least_one(layout.chunk_w as int),
                    across == at_least_one(layout.tiles_across as int),
                    first == row_start as int / h as int,
                    last == last_row(row_end as int) / h as int,
                    last <= end_row,
                    end_row < usize::MAX,
                    end_row == last_row(row_end as int),
                    row_end <= layout.height,
                    first <= tile_row,
                    tile_row <= last + 1 || (tile_row == first && first > last),
                    pieces@.len() == (tile_row - first) * across,
                    forall|k: int| 0 <= k < pieces@.len() ==> #[trigger] pieces@[k] == want[k],
                decreases last + 1 - tile_row,
            {
                proof {
                    lemma_le_div_mul(tile_row as int, end_row as int, h as int);
                    assert(tile_row * across + across <= usize::MAX) by (nonlinear_arith)
                        requires
                            tile_row <= end_row,
                            end_row < row_end || end_row == 0,
                            row_end <= layout.height,
                            across >= 1,
                            across <= usize::MAX,
                            layout.height * across <= usize::MAX,
                    ;
                }
                let mut tile_col: usize = 0;
                while tile_col < across
                    invariant
                        want == planned_pieces(*layout, row_start as int, row_end as int),
                        layout.chunk_kind == ChunkKind::Tile,
                        plan_fits(*layout, row_start as int, row_count as int),
                        h == at_least_one(layout.chunk_h as int),
                        w == at_least_one(layout.chunk_w as int),
                        across == at_least_one(layout.tiles_across as int),
                        first == row_start as int / h as int,
                        last == last_row(row_end as int) / h as int,
                        first <= tile_row <= last,
                        tile_row * h <= end_row,
                        tile_row * across + across <= usize::MAX,
                        0 <= tile_col <= across,
                        pieces@.len() == (tile_row - first) * across + tile_col,
                        forall|k: int| 0 <= k < pieces@.len() ==> #[trigger] pieces@[k] == want[k],
                    decreases across - tile_col,
                {
                    let ghost k = pieces@.len() as int;
                    proof {
                        assert(tile_col * w < across * w) by (nonlinear_arith)
                            requires
                                tile_col < across,
                                w >= 1,
                        ;
                        assert((tile_row - first) * across + tile_col < span(first as int, last as int) * across)
                            by (nonlinear_arith)
                            requires
                                tile_row <= last,
                                tile_col < across,
                                first <= tile_row,
                                span(first as int, last as int) == last - first + 1,
                        ;
                        lemma_fundamental_div_mod_converse(
                            k,
                            across as int,
                            tile_row - first,
                            tile_col as int,
                        );
                    }
                    pieces.push(
                        ChunkPiece {
                            index: (tile_row * across + tile_col) as u32,
                            abs_row_start: tile_row * h,
                            col_offset: tile_col * w,
                        },
                    );
                    tile_col += 1;
                }
                proof {
                    assert((tile_row - first) * across + across == (tile_row + 1 - first) * across)
                        by (nonlinear_arith);
                }
                tile_row += 1;
            }
            proof {
                assert(pieces@.len() == want.len()) by (nonlinear_arith)
                    requires
                        pieces@.len() == (tile_row - first) * across,
                        want.len() == span(first as int, last as int) * across,
                        tile_row <= last + 1 || (tile_row == first && first > last),
                        !(tile_row <= last),
                ;
            }
        },
    }
    assert(pieces@ =~= want);
    pieces
}

/// A decoded strip or tile: `data_w × data_h` interleaved pixels whose top-left pixel
/// sits at dataset row `abs_row_start`, column `col_offset`.
pub struct DecodedChunk {
    pub data: Vec<u8>,
    pub data_w: usize,
    pub data_h: usize,
    pub abs_row_start: usize,
    pub col_offset: usize,
}

/// Placement of a decoded chunk into a read of rows `[row_start, row_end)`.
pub open spec fn placement_of(
    l: RasterLayout,
    d: DecodedChunk,
    row_start: int,
    row_end: int,
) -> ChunkPlacement {
    ChunkPlacement {
        buf_w: d.data_w,
        buf_h: d.data_h,
        band_count: l.band_count,
        chunk_row: d.abs_row_start,
        col_offset: d.col_offset,
        row_start: row_start as usize,
        row_end: row_end as usize,
        ds_width: l.width,
    }
}

/// The planar bands after copying the decoded chunks one after another into `bands`.
pub open spec fn bands_after(
    l: RasterLayout,
    row_start: int,
    row_end: int,
    pieces: Seq<DecodedChunk>,
    bands: Seq<Seq<u8>>,
) -> Seq<Seq<u8>>
    decreases pieces.len(),
{
    if pieces.len() == 0 {
        bands
    } else {
        let d = pieces.last();
        bands_copied(
            placement_of(l, d, row_start, row_end),
            d.data@,
            bands_after(l, row_start, row_end, pieces.drop_last(), bands),
        )
    }
}

/// `band_count` bands of `len` zero samples.
pub open spec fn zero_bands(band_count: int, len: int) -> Seq<Seq<u8>> {
    Seq::new(band_count as nat, |b: int| Seq::new(len as nat, |i: int| 0u8))
}

/// A decoded chunk can be copied without leaving its buffer or `usize`.
pub open spec fn decoded_fits(l: RasterLayout, d: DecodedChunk) -> bool {
    &&& d.data@.len() >= d.data_w * d.data_h * l.band_count
    &&& d.data_w * d.data_h * l.band_count <= usize::MAX
    &&& d.data_w * d.data_h <= usize::MAX
    &&& d.abs_row_start + d.data_h <= usize::MAX
    &&& d.col_offset + d.data_w <= usize::MAX
}

proof fn lemma_band_copied_len(p: ChunkPlacement, buf: Seq<u8>, bands: Seq<Seq<u8>>)
    ensures
        bands_copied(p, buf, bands).len() == bands.len(),
        forall|b: int|
            0 <= b < bands.len() ==> #[trigger] bands_copied(p, buf, bands)[b].len() == bands[b].len(),
{
}

/// The last of the decoded chunks whose pixels cover planar index `k`, if any.
pub open spec fn last_covering(
    l: RasterLayout,
    row_start: int,
    row_end: int,
    pieces: Seq<DecodedChunk>,
    k: int,
) -> Option<int>
    decreases pieces.len(),
{
    if pieces.len() == 0 {
        None
    } else if source_cell(placement_of(l, pieces.last(), row_start, row_end), k) is Some {
        Some(pieces.len() - 1)
    } else {
        last_covering(l, row_start, row_end, pieces.drop_last(), k)
    }
}

/// Sample `b` of the decoded pixel of chunk `d` that covers planar index `k`.
pub open spec fn covering_sample(
    l: RasterLayout,
    row_start: int,
    row_end: int,
    d: DecodedChunk,
    k: int,
    b: int,
) -> u8 {
    let p = placement_of(l, d, row_start, row_end);
    let rc = source_cell(p, k)->Some_0;
    d.data@[sample_index(p, rc.0, rc.1, b)]
}

proof fn lemma_last_covering_bound(
    l: RasterLayout,
    row_start: int,
    row_end: int,
    pieces: Seq<DecodedChunk>,
    k: int,
)
    ensures
        last_covering(l, row_start, row_end, pieces, k) matches Some(i) ==> 0 <= i < pieces.len(),
    decreases pieces.len(),
{
    if pieces.len() > 0 {
        lemma_last_covering_bound(l, row_start, row_end, pieces.drop_last(), k);
    }
}

proof fn lemma_bands_after_len(
    l: RasterLayout,
    row_start: int,
    row_end: int,
    pieces: Seq<DecodedChunk>,
    bands: Seq<Seq<u8>>,
)
    ensures
        bands_after(l, row_start, row_end, pieces, bands).len() == bands.len(),
        forall|b: int|
            0 <= b < bands.len() ==> #[trigger] bands_after(l, row_start, row_end, pieces, bands)[b].len()
                == bands[b].len(),
    decreases pieces.len(),
{
    if pieces.len() > 0 {
        lemma_bands_after_len(l, row_start, row_end, pieces.drop_last(), bands);
        let d = pieces.last();
        lemma_band_copied_len(
            placement_of(l, d, row_start, row_end),
            d.data@,
            bands_after(l, row_start, row_end, pieces.drop_last(), bands),
        );
    }
}

/// Copying the decoded chunks one after another leaves every planar sample as the last
/// chunk covering it wrote it, and a sample no chunk covers as it was.
pub proof fn lemma_assembled_sample(
    l: RasterLayout,
    row_start: int,
    row_end: int,
    pieces: Seq<DecodedChunk>,
    bands: Seq<Seq<u8>>,
    b: int,
    k: int,
)
    requires
        0 <= b < bands.len(),
        b < l.band_count,
        0 <= k < bands[b].len(),
    ensures
        bands_after(l, row_start, row_end, pieces, bands)[b][k] == match last_covering(
            l,
            row_start,
            row_end,
            pieces,
            k,
        ) {
            Some(i) => covering_sample(l, row_start, row_end, pieces[i], k, b),
            None => bands[b][k],
        },
    decreases pieces.len(),
{
    if pieces.len() > 0 {
        let rest = pieces.drop_last();
        let d = pieces.last();
        let p = placement_of(l, d, row_start, row_end);
        let before = bands_after(l, row_start, row_end, rest, bands);
        lemma_bands_after_len(l, row_start, row_end, rest, bands);
        lemma_assembled_sample(l, row_start, row_end, rest, bands, b, k);
        lemma_last_covering_bound(l, row_start, row_end, rest, k);
        assert(before[b].len() == bands[b].len());
        if source_cell(p, k) is Some {
            let rc = source_cell(p, k)->Some_0;
            assert(cell_before(rc, p.buf_h as int, 0));
        } else {
            match last_covering(l, row_start, row_end, rest, k) {
                Some(i) => {
                    assert(rest[i] == pieces[i]);
                },
                None => {},
            }
        }
    }
}

/// Every sample of an assembled chunk: sample `k` of band `b` is that of the last decoded
/// strip or tile covering it (strips and tiles do not overlap, so the one covering it), and
/// zero where none does.
pub proof fn lemma_assembled_chunk_sample(
    l: RasterLayout,
    row_start: int,
    row_count: int,
    pieces: Seq<DecodedChunk>,
    b: int,
    k: int,
)
    requires
        0 <= b < l.band_count,
        0 <= k < l.width * row_count,
    ensures
        bands_after(
            l,
            row_start,
            read_row_end(l, row_start, row_count),
            pieces,
            zero_bands(l.band_count as int, l.width * row_count),
        )[b][k] == match last_covering(l, row_start, read_row_end(l, row_start, row_count), pieces, k) {
            Some(i) => covering_sample(
                l,
                row_start,
                read_row_end(l, row_start, row_count),
                pieces[i],
                k,
                b,
            ),
            None => 0u8,
        },
{
    lemma_assembled_sample(
        l,
        row_start,
        read_row_end(l, row_start, row_count),
        pieces,
        zero_bands(l.band_count as int, l.width * row_count),
        b,
        k,
    );
}

/// Assemble the planar chunk buffer for dataset rows `[row_start, row_start + row_count)`
/// from the decoded strips or tiles that hold them: every band starts as `width *
/// row_count` zero samples and receives the rows of each decoded chunk in turn.
pub fn assemble_chunk(
    layout: &RasterLayout,
    row_start: usize,
    row_count: usize,
    pieces: &Vec<DecodedChunk>,
) -> (chunk: ChunkBuffer)
    requires
        row_start + row_count <= usize::MAX,
        layout.width * row_count <= usize::MAX,
        forall|i: int| 0 <= i < pieces@.len() ==> decoded_fits(*layout, #[trigger] pieces@[i]),
    ensures
        chunk.ds_width == layout.width,
        chunk.row_start == row_start,
        chunk.row_count == row_count,
        chunk.wf(),
        chunk.bands() == bands_after(
            *layout,
            row_start as int,
            read_row_end(*layout, row_start as int, row_count as int),
            pieces@,
            zero_bands(layout.band_count as int, layout.width * row_count),
        ),
        forall|b: int, k: int|
            0 <= b < layout.band_count && 0 <= k < layout.width * row_count ==> #[trigger] chunk.sample(
                b,
                row_start + k / (layout.width as int),
                k % (layout.width as int),
            ) == match last_covering(
                *layout,
                row_start as int,
                read_row_end(*layout, row_start as int, row_count as int),
                pieces@,
                k,
            ) {
                Some(i) => covering_sample(
                    *layout,
                    row_start as int,
                    read_row_end(*layout, row_start as int, row_count as int),
                    pieces@[i],
                    k,
                    b,
                ),
                None => 0u8,
            },
{
    let row_end = if row_start + row_count < layout.height {
        row_start + row_count
    } else {
        layout.height
    };
    let len = layout.width * row_count;
    let ghost zeros = zero_bands(layout.band_count as int, len as int);
    let mut band_data: Vec<Vec<u8>> = Vec::new();
    let mut b: usize = 0;
    while b < layout.band_count
        invariant
            0 <= b <= layout.band_count,
            zeros == zero_bands(layout.band_count as int, len as int),
            band_data@.len() == b,
            forall|i: int| 0 <= i < b ==> #[trigger] band_data@[i]@ == zeros[i],
        decreases layout.band_count - b,
    {
        let v: Vec<u8> = vec![0u8; len];
        assert(v@ =~= zeros[b as int]);
        band_data.push(v);
        b += 1;
    }
    assert(band_data@.map_values(|v: Vec<u8>| v@) =~= zeros);
    let mut i: usize = 0;
    while i < pieces.len()
        invariant
            0 <= i <= pieces@.len(),
            row_end == read_row_end(*layout, row_start as int, row_count as int),
            row_end <= row_start + row_count,
            len == layout.width * row_count,
            forall|j: int| 0 <= j < pieces@.len() ==> decoded_fits(*layout, #[trigger] pieces@[j]),
            band_data@.map_values(|v: Vec<u8>| v@) == bands_after(
                *layout,
                row_start as int,
                row_end as int,
                pieces@.take(i as int),
                zeros,
            ),
            band_data@.len() == layout.band_count,
            forall|j: int| 0 <= j < band_data@.len() ==> #[trigger] band_data@[j]@.len() == len,
        decreases pieces@.len() - i,
    {
        let d = &pieces[i];
        let ghost before = band_data@.map_values(|v: Vec<u8>| v@);
        proof {
            assert(pieces@.take(i + 1).drop_last() =~= pieces@.take(i as int));
            assert((row_end - row_start) * layout.width <= len) by (nonlinear_arith)
                requires
                    row_end <= row_start + row_count,
                    len == layout.width * row_count,
            ;
            assert(forall|j: int| 0 <= j < before.len() ==> #[trigger] before[j].len() == len);
        }
        copy_interleaved_rows(
            &d.data,
            d.data_w,
            d.data_h,
            layout.band_count,
            d.abs_row_start,
            d.col_offset,
            row_start,
            row_end,
            layout.width,
            band_data.as_mut_slice(),
        );
        proof {
            let p = placement_of(*layout, *d, row_start as int, row_end as int);
            lemma_band_copied_len(p, d.data@, before);
            let after = band_data@.map_values(|v: Vec<u8>| v@);
            assert forall|j: int| 0 <= j < band_data@.len() implies #[trigger] band_data@[j]@.len()
                == len by {
                assert(band_data@[j]@ == after[j]);
            }
        }
        i += 1;
    }
    assert(pieces@.take(pieces@.len() as int) =~= pieces@);
    let chunk = ChunkBuffer { band_data, ds_width: layout.width, row_start, row_count };
    proof {
        let w = layout.width as int;
        assert forall|b: int, k: int|
            0 <= b < layout.band_count && 0 <= k < layout.width * row_count implies #[trigger] chunk.sample(
            b,
            row_start + k / w,
            k % w,
        ) == match last_covering(
            *layout,
            row_start as int,
            read_row_end(*layout, row_start as int, row_count as int),
            pieces@,
            k,
        ) {
            Some(i) => covering_sample(
                *layout,
                row_start as int,
                read_row_end(*layout, row_start as int, row_count as int),
                pieces@[i],
                k,
                b,
            ),
            None => 0u8,
        } by {
            lemma_assembled_chunk_sample(*layout, row_start as int, row_count as int, pieces@, b, k);
            assert(w > 0) by (nonlinear_arith)
                requires
                    0 <= k < w * row_count,
                    w >= 0,
                    row_count >= 0,
            ;
            vstd::arithmetic::div_mod::lemma_fundamental_div_mod(k, w);
            assert((k / w) * w == w * (k / w)) by (nonlinear_arith);
            assert((row_start + k / w - row_start) * w + k % w == k);
            assert(chunk.bands()[b] == chunk.band_data@[b]@);
        }
    }
    chunk
}

/// Which GeoTIFF tags carry the raster-to-model transform.
#[derive(Debug, Clone, Copy, PartialEq, Eq, Structural)]
pub enum GeorefSource {
    /// `ModelTransformationTag`: a full 4×4 affine matrix.
    Transformation,
    /// `ModelTiepointTag` and `ModelPixelScaleTag`: one tie point and a pixel size.
    TiepointScale,
}

/// Message of the error for a transformation matrix of the wrong size.
pub open spec fn matrix_message() -> Seq<char> {
    "ModelTransformationTag must have 16 values"@
}

/// Message of the error for tie point or pixel scale tags of the wrong size.
pub open spec fn tiepoint_message() -> Seq<char> {
    "ModelPixelScaleTag must have 3 values and ModelTiepointTag at least 6"@
}

/// Decide which georeferencing tags to read, from how many values each present tag
/// holds: the transformation matrix when it is there (16 values required), else one tie
/// point with a pixel scale (3 scale values and at least 6 tie point values required);
/// with neither, the file carries no georeferencing.
pub fn georef_source(
    transformation_len: Option<usize>,
    pixel_scale_len: Option<usize>,
    tiepoint_len: Option<usize>,
) -> (r: Result<GeorefSource, Error>)
    ensures
        transformation_len matches Some(n) ==> if n == 16 {
            r == Ok::<GeorefSource, Error>(GeorefSource::Transformation)
        } else {
            r matches Err(Error::Unsupported(m)) && m@ == matrix_message()
        },
        transformation_len is None ==> match (pixel_scale_len, tiepoint_len) {
            (Some(s), Some(t)) => if s != 3 || t < 6 {
                r matches Err(Error::Unsupported(m)) && m@ == tiepoint_message()
            } else {
                r == Ok::<GeorefSource, Error>(GeorefSource::TiepointScale)
            },
            _ => r matches Err(Error::MissingGeoreferencing),
        },
{
    if let Some(n) = transformation_len {
        if n == 16 {
            return Ok(GeorefSource::Transformation);
        }
        return Err(Error::Unsupported(String::from_str("ModelTransformationTag must have 16 values")));
    }
    match (pixel_scale_len, tiepoint_len) {
        (Some(s), Some(t)) => {
            if s != 3 || t < 6 {
                Err(
                    Error::Unsupported(
                        String::from_str(
                            "ModelPixelScaleTag must have 3 values and ModelTiepointTag at least 6",
                        ),
                    ),
                )
            } else {
                Ok(GeorefSource::TiepointScale)
            }
        },
        _ => Err(Error::MissingGeoreferencing),
    }
}

/// The source-pixel window spanning columns `[col_start, col_end)` and rows
/// `[row_start, row_end)`, or `None` when either span is empty (the tile does not overlap
/// the dataset).
pub fn pixel_window_between(col_start: usize, col_end: usize, row_start: usize, row_end: usize) -> (r:
    Option<PixelWindow>)
    ensures
        col_start >= col_end || row_start >= row_end ==> r is None,
        col_start < col_end && row_start < row_end ==> r == Some(
            PixelWindow {
                col: col_start,
                row: row_start,
                width: (col_end - col_start) as usize,
                height: (row_end - row_start) as usize,
            },
        ),
{
    if col_start >= col_end || row_start >= row_end {
        return None;
    }
    Some(
        PixelWindow {
            col: col_start,
            row: row_start,
            width: col_end - col_start,
            height: row_end - row_start,
        },
    )
}

} // verus!
