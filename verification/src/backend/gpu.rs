//! Staging of a tile's source window as RGBA texels, the upload format of the GPU
//! resample path, and the unpacking of the texels it reads back.

use vstd::prelude::*;
use vstd::arithmetic::div_mod::lemma_fundamental_div_mod_converse;

use crate::error::Error;
use crate::tile::{ChunkBuffer, PixelWindow};

verus! {

/// Index in a planar band of window pixel `(r, c)`, the window starting `row_off` rows
/// into the chunk.
pub open spec fn staged_index(chunk: ChunkBuffer, window: PixelWindow, row_off: int, r: int, c: int) -> int {
    (row_off + r) * chunk.ds_width + window.col + c
}

/// RGBA texel of window pixel `(r, c)`: grey replicated to RGB with opaque alpha for one
/// band, grey plus alpha for two, RGB with opaque alpha for three, RGBA as is for four.
pub open spec fn texel(chunk: ChunkBuffer, window: PixelWindow, row_off: int, bands: int, r: int, c: int) -> Seq<u8> {
    let s = staged_index(chunk, window, row_off, r, c);
    let v = |b: int| chunk.band_data@[b]@[s];
    if bands == 1 {
        seq![v(0), v(0), v(0), 255u8]
    } else if bands == 2 {
        seq![v(0), v(0), v(0), v(1)]
    } else if bands == 3 {
        seq![v(0), v(1), v(2), 255u8]
    } else {
        seq![v(0), v(1), v(2), v(3)]
    }
}

/// The window staged as RGBA: four samples per pixel, pixels in row-major order.
pub open spec fn staged_rgba(chunk: ChunkBuffer, window: PixelWindow, row_off: int, bands: int) -> Seq<u8> {
    let w = window.width as int;
    Seq::new(
        (window.width * window.height * 4) as nat,
        |i: int| texel(chunk, window, row_off, bands, (i / 4) / w, (i / 4) % w)[i % 4],
    )
}

/// The window can be staged: its bands exist and every index it reads is inside them.
pub open spec fn stageable(chunk: ChunkBuffer, window: PixelWindow, row_off: int, bands: int) -> bool {
    &&& 1 <= bands <= 4 ==> bands <= chunk.band_data@.len()
    &&& window.width > 0 && window.height > 0 && 1 <= bands <= 4 ==> forall|b: int|
        0 <= b < bands ==> staged_index(chunk, window, row_off, window.height - 1, window.width - 1)
            < #[trigger] chunk.band_data@[b]@.len()
    &&& window.width > 0 && window.height > 0 ==> staged_index(
        chunk,
        window,
        row_off,
        window.height - 1,
        window.width - 1,
    ) <= usize::MAX
    &&& window.width > 0 && window.height > 0 ==> row_off + window.height - 1 <= usize::MAX
}

proof fn lemma_staged_index_le(chunk: ChunkBuffer, window: PixelWindow, row_off: int, r: int, c: int)
    requires
        row_off >= 0,
        0 <= r < window.height,
        0 <= c < window.width,
    ensures
        0 <= staged_index(chunk, window, row_off, r, c) <= staged_index(
            chunk,
            window,
            row_off,
            window.height - 1,
            window.width - 1,
        ),
{
    let wd = chunk.ds_width as int;
    assert((row_off + r) * wd <= (row_off + window.height - 1) * wd) by (nonlinear_arith)
        requires
            r <= window.height - 1,
            wd >= 0,
            row_off >= 0,
    ;
    assert((row_off + r) * wd >= 0) by (nonlinear_arith)
        requires
            row_off + r >= 0,
            wd >= 0,
    ;
}

/// Expand the source window into interleaved RGBA texels for upload.
///
/// Fails with [`Error::BadBandCount`] when the chunk has a band count other than 1 to 4
/// and the window holds at least one pixel.
pub fn build_rgba(chunk: &ChunkBuffer, window: PixelWindow, row_off: usize, bands: usize) -> (r:
    Result<Vec<u8>, Error>)
    requires
        stageable(*chunk, window, row_off as int, bands as int),
        window.width * window.height * 4 <= usize::MAX,
    ensures
        window.width * window.height > 0 && !(1 <= bands <= 4) ==> (r matches Err(
            Error::BadBandCount(n),
        ) && n == bands),
        window.width * window.height == 0 || 1 <= bands <= 4 ==> (r matches Ok(v) && v@
            == staged_rgba(*chunk, window, row_off as int, bands as int)),
{
    let w = window.width;
    let h = window.height;
    let ghost want = staged_rgba(*chunk, window, row_off as int, bands as int);
    let mut rgba: Vec<u8> = Vec::new();
    let mut row: usize = 0;
    while row < h
        invariant
            w == window.width,
            h == window.height,
            w * h * 4 <= usize::MAX,
            stageable(*chunk, window, row_off as int, bands as int),
            want == staged_rgba(*chunk, window, row_off as int, bands as int),
            0 <= row <= h,
            rgba@.len() == row * w * 4,
            !(1 <= bands <= 4) ==> (w == 0 || row == 0),
            forall|i: int| 0 <= i < rgba@.len() ==> #[trigger] rgba@[i] == want[i],
        decreases h - row,
    {
        let mut col: usize = 0;
        while col < w
            invariant
                w == window.width,
                h == window.height,
                w * h * 4 <= usize::MAX,
                stageable(*chunk, window, row_off as int, bands as int),
                want == staged_rgba(*chunk, window, row_off as int, bands as int),
                0 <= row < h,
                0 <= col <= w,
                rgba@.len() == (row * w + col) * 4,
                !(1 <= bands <= 4) ==> col == 0,
                forall|i: int| 0 <= i < rgba@.len() ==> #[trigger] rgba@[i] == want[i],
            decreases w - col,
        {
            if bands < 1 || bands > 4 {
                proof {
                    assert(w * h > 0) by (nonlinear_arith)
                        requires
                            row < h,
                            col < w,
                    ;
                }
                return Err(Error::BadBandCount(bands));
            }
            proof {
                lemma_staged_index_le(*chunk, window, row_off as int, row as int, col as int);
                assert((row + 1) * w <= w * h) by (nonlinear_arith)
                    requires
                        row < h,
                ;
                assert(row * w + col + 1 <= (row + 1) * w) by (nonlinear_arith)
                    requires
                        col < w,
                ;
                assert((row * w + col + 1) * 4 <= w * h * 4) by (nonlinear_arith)
                    requires
                        row * w + col + 1 <= (row + 1) * w,
                        (row + 1) * w <= w * h,
                ;
                assert(row * w + col >= 0) by (nonlinear_arith)
                    requires
                        row >= 0,
                        col >= 0,
                        w >= 0,
                ;
            }
            proof {
                let o = row_off as int;
                let wd = chunk.ds_width as int;
                assert((o + row) * wd >= 0) by (nonlinear_arith)
                    requires
                        o + row >= 0,
                        wd >= 0,
                ;
                assert(o + row <= usize::MAX);
            }
            let src = (row_off + row) * chunk.ds_width + window.col + col;
            let ghost base = rgba@.len() as int;
            let ghost px = row * w + col;
            let t: [u8; 4] = if bands == 1 {
                let v = chunk.band_data[0][src];
                [v, v, v, 255]
            } else if bands == 2 {
                let l = chunk.band_data[0][src];
                [l, l, l, chunk.band_data[1][src]]
            } else if bands == 3 {
                [chunk.band_data[0][src], chunk.band_data[1][src], chunk.band_data[2][src], 255]
            } else {
                [
                    chunk.band_data[0][src],
                    chunk.band_data[1][src],
                    chunk.band_data[2][src],
                    chunk.band_data[3][src],
                ]
            };
            proof {
                let tx = texel(*chunk, window, row_off as int, bands as int, row as int, col as int);
                assert(t@ =~= tx);
                assert forall|j: int| 0 <= j < 4 implies want[base + j] == tx[j] by {
                    lemma_fundamental_div_mod_converse(base + j, 4, px, j);
                    lemma_fundamental_div_mod_converse(px, w as int, row as int, col as int);
                }
            }
            rgba.push(t[0]);
            rgba.push(t[1]);
            rgba.push(t[2]);
            rgba.push(t[3]);
            col += 1;
        }
        proof {
            assert((row * w + w) * 4 == (row + 1) * w * 4) by (nonlinear_arith);
        }
        row += 1;
    }
    assert(rgba@.len() == want.len()) by (nonlinear_arith)
        requires
            rgba@.len() == row * w * 4,
            row == h,
            want.len() == w * h * 4,
    ;
    assert(!(1 <= bands <= 4) ==> w * h == 0) by (nonlinear_arith)
        requires
            !(1 <= bands <= 4) ==> (w == 0 || row == 0),
            row == h,
    ;
    assert(rgba@ =~= want);
    Ok(rgba)
}

/// The little-endian `u32` of four bytes.
pub open spec fn le_word(b0: u8, b1: u8, b2: u8, b3: u8) -> u32 {
    (b0 as u32) | ((b1 as u32) << 8u32) | ((b2 as u32) << 16u32) | ((b3 as u32) << 24u32)
}

proof fn lemma_le_word_bytes(b0: u8, b1: u8, b2: u8, b3: u8)
    ensures
        (le_word(b0, b1, b2, b3) & 0xFFu32) as u8 == b0,
        ((le_word(b0, b1, b2, b3) >> 8u32) & 0xFFu32) as u8 == b1,
        ((le_word(b0, b1, b2, b3) >> 16u32) & 0xFFu32) as u8 == b2,
        ((le_word(b0, b1, b2, b3) >> 24u32) & 0xFFu32) as u8 == b3,
{
    assert((((b0 as u32) | ((b1 as u32) << 8u32) | ((b2 as u32) << 16u32) | ((b3 as u32)
        << 24u32)) & 0xFFu32) as u8 == b0) by (bit_vector);
    assert(((((b0 as u32) | ((b1 as u32) << 8u32) | ((b2 as u32) << 16u32) | ((b3 as u32)
        << 24u32)) >> 8u32) & 0xFFu32) as u8 == b1) by (bit_vector);
    assert(((((b0 as u32) | ((b1 as u32) << 8u32) | ((b2 as u32) << 16u32) | ((b3 as u32)
        << 24u32)) >> 16u32) & 0xFFu32) as u8 == b2) by (bit_vector);
    assert(((((b0 as u32) | ((b1 as u32) << 8u32) | ((b2 as u32) << 16u32) | ((b3 as u32)
        << 24u32)) >> 24u32) & 0xFFu32) as u8 == b3) by (bit_vector);
}

/// Unpack a mapped readback buffer of RGBA texels: each whole 4-byte texel is read as a
/// little-endian `u32` and split back into its R, G, B and A bytes, so the texels come out
/// byte for byte as they were stored; a trailing partial texel is dropped.
pub fn unpack_rgba(mapped: &[u8]) -> (out: Vec<u8>)
    ensures
        out@ == mapped@.take(mapped@.len() as int / 4 * 4),
{
    let len = mapped.len();
    let n = len / 4;
    let mut out: Vec<u8> = Vec::new();
    let mut t: usize = 0;
    while t < n
        invariant
            len == mapped@.len(),
            n == mapped@.len() / 4,
            0 <= t <= n,
            out@ == mapped@.take(t as int * 4),
        decreases n - t,
    {
        proof {
            vstd::arithmetic::div_mod::lemma_fundamental_div_mod(mapped@.len() as int, 4);
            vstd::arithmetic::div_mod::lemma_mod_bound(mapped@.len() as int, 4);
            assert(4 * t + 3 < mapped@.len());
        }
        let (b0, b1, b2, b3) = (mapped[4 * t], mapped[4 * t + 1], mapped[4 * t + 2], mapped[4 * t
            + 3]);
        let packed: u32 = (b0 as u32) | ((b1 as u32) << 8u32) | ((b2 as u32) << 16u32) | ((
        b3 as u32) << 24u32);
        proof {
            lemma_le_word_bytes(b0, b1, b2, b3);
            assert(packed == le_word(b0, b1, b2, b3));
            assert(packed & 0xFFu32 < 256u32) by (bit_vector);
            assert((packed >> 8u32) & 0xFFu32 < 256u32) by (bit_vector);
            assert((packed >> 16u32) & 0xFFu32 < 256u32) by (bit_vector);
            assert((packed >> 24u32) & 0xFFu32 < 256u32) by (bit_vector);
        }
        out.push((packed & 0xFF) as u8);
        out.push(((packed >> 8u32) & 0xFF) as u8);
        out.push(((packed >> 16u32) & 0xFF) as u8);
        out.push(((packed >> 24u32) & 0xFF) as u8);
        t += 1;
        assert(out@ =~= mapped@.take(t as int * 4));
    }
    out
}

} // verus!
