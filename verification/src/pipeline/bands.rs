//! Band selection: repack interleaved tile pixels to the requested band count.

use vstd::prelude::*;
use vstd::arithmetic::div_mod::lemma_fundamental_div_mod_converse;

use crate::tile::DstRect;

verus! {

/// The repacked pixels: each whole pixel of `from` samples keeps its first
/// `min(from, to)` samples and is padded to `to` samples, with `255` (opaque) for canvas
/// pixels inside `dst` and `0` for those outside. Unchanged when the band counts are
/// equal or either is zero; a trailing partial pixel is dropped.
pub open spec fn repacked(pixels: Seq<u8>, from: int, to: int, tile_size: int, dst: DstRect) -> Seq<u8> {
    if from == to || from == 0 || to == 0 {
        pixels
    } else {
        let copy = if from < to {
            from
        } else {
            to
        };
        Seq::new(
            ((pixels.len() as int / from) * to) as nat,
            |i: int|
                {
                    let px = i / to;
                    let b = i % to;
                    if b < copy {
                        pixels[px * from + b]
                    } else if dst.covers(px % tile_size, px / tile_size) {
                        255u8
                    } else {
                        0u8
                    }
                },
        )
    }
}

/// What repacking needs: a tile size to place pixels with, and sizes within `u32` and
/// `usize`.
pub open spec fn repack_fits(pixels_len: int, from: int, to: int, tile_size: int, dst: DstRect) -> bool {
    !(from == to || from == 0 || to == 0) ==> {
        &&& pixels_len >= from ==> tile_size > 0
        &&& dst.x + dst.width <= u32::MAX
        &&& dst.y + dst.height <= u32::MAX
        &&& (pixels_len / from) * to <= usize::MAX
    }
}

/// Repack interleaved pixels from `from_bands` to `to_bands` channels.
///
/// Extra channels are padded `255` (opaque) for pixels inside `dst`, real resampled data,
/// and `0` for pixels outside it, so a synthesized alpha channel stays transparent over
/// the padding that a partial-overlap tile leaves around its data. Excess source channels
/// beyond `to_bands` are dropped.
pub fn apply_bands(pixels: Vec<u8>, from_bands: usize, to_bands: usize, tile_size: u32, dst: DstRect) -> (out:
    Vec<u8>)
    requires
        repack_fits(pixels@.len() as int, from_bands as int, to_bands as int, tile_size as int, dst),
    ensures
        out@ == repacked(pixels@, from_bands as int, to_bands as int, tile_size as int, dst),
{
    if from_bands == to_bands || from_bands == 0 || to_bands == 0 {
        return pixels;
    }
    let ts = tile_size as usize;
    let dx0 = dst.x as usize;
    let dx1 = (dst.x + dst.width) as usize;
    let dy0 = dst.y as usize;
    let dy1 = (dst.y + dst.height) as usize;
    let copy = if to_bands < from_bands {
        to_bands
    } else {
        from_bands
    };
    let pad = to_bands - copy;
    let plen = pixels.len();
    let npx = plen / from_bands;
    proof {
        assert(npx > 0 ==> plen >= from_bands) by (nonlinear_arith)
            requires
                npx == plen / from_bands,
                from_bands > 0,
        ;
    }
    let ghost want = repacked(pixels@, from_bands as int, to_bands as int, tile_size as int, dst);
    let mut out: Vec<u8> = Vec::new();
    let mut i: usize = 0;
    while i < npx
        invariant
            from_bands != to_bands,
            from_bands > 0,
            to_bands > 0,
            copy == (if from_bands < to_bands {
                from_bands
            } else {
                to_bands
            }),
            pad == to_bands - copy,
            npx == pixels@.len() as int / from_bands as int,
            plen == pixels@.len(),
            npx * to_bands <= usize::MAX,
            npx > 0 ==> ts > 0,
            ts == tile_size,
            dx0 == dst.x,
            dx1 == dst.x + dst.width,
            dy0 == dst.y,
            dy1 == dst.y + dst.height,
            want == repacked(pixels@, from_bands as int, to_bands as int, tile_size as int, dst),
            want.len() == npx * to_bands,
            0 <= i <= npx,
            out@.len() == i * to_bands,
            forall|k: int| 0 <= k < out@.len() ==> #[trigger] out@[k] == want[k],
        decreases npx - i,
    {
        let col = i % ts;
        let row = i / ts;
        let inside = dx0 <= col && col < dx1 && dy0 <= row && row < dy1;
        proof {
            assert((i + 1) * from_bands <= npx * from_bands) by (nonlinear_arith)
                requires
                    i < npx,
            ;
            assert(npx * from_bands <= pixels@.len()) by {
                vstd::arithmetic::div_mod::lemma_fundamental_div_mod(
                    pixels@.len() as int,
                    from_bands as int,
                );
                assert(from_bands * npx == npx * from_bands) by (nonlinear_arith);
                vstd::arithmetic::div_mod::lemma_mod_bound(pixels@.len() as int, from_bands as int);
            }
            assert((i + 1) * to_bands <= npx * to_bands) by (nonlinear_arith)
                requires
                    i < npx,
            ;
        }
        let mut b: usize = 0;
        while b < to_bands
            invariant
                from_bands != to_bands,
                from_bands > 0,
                to_bands > 0,
                copy == (if from_bands < to_bands {
                    from_bands
                } else {
                    to_bands
                }),
                pad == to_bands - copy,
                copy <= from_bands,
                ts == tile_size,
                ts > 0,
                col == i % ts,
                row == i / ts,
                inside == dst.covers(col as int, row as int),
                (i + 1) * from_bands <= pixels@.len(),
                plen == pixels@.len(),
                (i + 1) * to_bands <= npx * to_bands,
                want == repacked(pixels@, from_bands as int, to_bands as int, tile_size as int, dst),
                want.len() == npx * to_bands,
                0 <= i < npx,
                0 <= b <= to_bands,
                out@.len() == i * to_bands + b,
                forall|k: int| 0 <= k < out@.len() ==> #[trigger] out@[k] == want[k],
            decreases to_bands - b,
        {
            proof {
                assert(i * to_bands + b < (i + 1) * to_bands) by (nonlinear_arith)
                    requires
                        b < to_bands,
                ;
                lemma_fundamental_div_mod_converse(
                    (i * to_bands + b) as int,
                    to_bands as int,
                    i as int,
                    b as int,
                );
                assert(i * from_bands + b < (i + 1) * from_bands || b >= copy) by (nonlinear_arith)
                    requires
                        b < copy ==> b < from_bands,
                ;
            }
            let v = if b < copy {
                pixels[i * from_bands + b]
            } else if inside {
                255u8
            } else {
                0u8
            };
            out.push(v);
            b += 1;
        }
        proof {
            assert(i * to_bands + to_bands == (i + 1) * to_bands) by (nonlinear_arith);
        }
        i += 1;
    }
    assert(out@ =~= want);
    out
}

/// What repacking does to each pixel: pixel `i` of the tile (column `i % tile_size`, row
/// `i / tile_size`) keeps its first `min(from, to)` samples, and each sample added beyond
/// the source's is 255 (opaque) when that canvas pixel lies in `dst` and 0 (transparent)
/// when it does not. Equal band counts leave the pixels as they are.
pub proof fn lemma_repacked_pixel(
    pixels: Seq<u8>,
    from: int,
    to: int,
    tile_size: int,
    dst: DstRect,
    i: int,
    b: int,
)
    requires
        0 < from,
        0 < to,
        tile_size > 0,
        0 <= i < pixels.len() as int / from,
        0 <= b < to,
    ensures
        from == to ==> repacked(pixels, from, to, tile_size, dst) == pixels,
        from != to ==> i * to + b < repacked(pixels, from, to, tile_size, dst).len(),
        from != to && b < from ==> repacked(pixels, from, to, tile_size, dst)[i * to + b]
            == pixels[i * from + b],
        from != to && b >= from ==> repacked(pixels, from, to, tile_size, dst)[i * to + b] == (
        if dst.x <= i % tile_size < dst.x + dst.width && dst.y <= i / tile_size < dst.y
            + dst.height {
            255u8
        } else {
            0u8
        }),
{
    if from != to {
        let n = pixels.len() as int / from;
        lemma_fundamental_div_mod_converse(i * to + b, to, i, b);
        assert(i * to + b < n * to) by (nonlinear_arith)
            requires
                0 <= i < n,
                0 <= b < to,
        ;
        assert(b < from ==> i * from + b < pixels.len()) by (nonlinear_arith)
            requires
                0 <= i < n,
                0 <= b,
                n == pixels.len() as int / from,
                0 < from,
        {
            vstd::arithmetic::div_mod::lemma_fundamental_div_mod(pixels.len() as int, from);
            vstd::arithmetic::div_mod::lemma_mod_bound(pixels.len() as int, from);
        }
    }
}

} // verus!
