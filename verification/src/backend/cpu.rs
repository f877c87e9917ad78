//! Crop a tile's source window out of a chunk buffer and resample it onto the tile canvas.

use vstd::prelude::*;
use vstd::arithmetic::div_mod::{lemma_fundamental_div_mod, lemma_fundamental_div_mod_converse};

use fast_image_resize::images::{Image, ImageRef};
use fast_image_resize::{PixelType, ResizeOptions, Resizer};

use crate::error::Error;
use crate::tile::{ChunkBuffer, DstRect, PixelWindow};

verus! {

/// Pixel layouts of 8-bit images, by number of interleaved samples per pixel.
#[derive(Debug, Clone, Copy, PartialEq, Eq, Structural)]
pub enum PixelLayout {
    U8,
    U8x2,
    U8x3,
    U8x4,
}

/// Samples per pixel of a layout.
pub open spec fn samples_of(p: PixelLayout) -> int {
    match p {
        PixelLayout::U8 => 1,
        PixelLayout::U8x2 => 2,
        PixelLayout::U8x3 => 3,
        PixelLayout::U8x4 => 4,
    }
}

/// The pixel layout of `bands` interleaved samples, for 1 to 4 bands.
pub open spec fn layout_of(bands: int) -> PixelLayout {
    if bands == 1 {
        PixelLayout::U8
    } else if bands == 2 {
        PixelLayout::U8x2
    } else if bands == 3 {
        PixelLayout::U8x3
    } else {
        PixelLayout::U8x4
    }
}

/// Select the pixel layout for the given band count (1 = L8, 2 = La8, 3 = RGB, 4 = RGBA).
pub fn pixel_type(bands: usize) -> (r: Result<PixelLayout, Error>)
    ensures
        1 <= bands <= 4 ==> r == Ok::<PixelLayout, Error>(layout_of(bands as int)),
        1 <= bands <= 4 ==> samples_of(layout_of(bands as int)) == bands,
        !(1 <= bands <= 4) ==> (r matches Err(Error::BadBandCount(n)) && n == bands),
{
    match bands {
        1 => Ok(PixelLayout::U8),
        2 => Ok(PixelLayout::U8x2),
        3 => Ok(PixelLayout::U8x3),
        4 => Ok(PixelLayout::U8x4),
        n => Err(Error::BadBandCount(n)),
    }
}

/// Row offset of `window` inside `chunk`: `window.row - chunk.row_start`, saturating at 0.
pub open spec fn row_offset(chunk: ChunkBuffer, window: PixelWindow) -> int {
    if window.row >= chunk.row_start {
        window.row - chunk.row_start
    } else {
        0
    }
}

/// Index in a planar band of window pixel `(r, c)`.
pub open spec fn window_index(chunk: ChunkBuffer, window: PixelWindow, r: int, c: int) -> int {
    (row_offset(chunk, window) + r) * chunk.ds_width + window.col + c
}

/// Every planar index the window reads lies inside every band of the chunk.
pub open spec fn window_readable(chunk: ChunkBuffer, window: PixelWindow) -> bool {
    window.width > 0 && window.height > 0 ==> forall|b: int|
        0 <= b < chunk.band_data@.len() ==> window_index(
            chunk,
            window,
            window.height - 1,
            window.width - 1,
        ) < #[trigger] chunk.band_data@[b]@.len()
}

/// The largest index the window reads fits in `usize`.
pub open spec fn window_indexable(chunk: ChunkBuffer, window: PixelWindow) -> bool {
    window.width > 0 && window.height > 0 ==> {
        &&& window_index(chunk, window, window.height - 1, window.width - 1) <= usize::MAX
        &&& row_offset(chunk, window) + window.height - 1 <= usize::MAX
    }
}

/// The window's pixels, interleaved: sample `b` of window pixel `(r, c)` at
/// `(r * width + c) * bands + b`, read from band `b` of the chunk.
pub open spec fn interleaved_window(chunk: ChunkBuffer, window: PixelWindow) -> Seq<u8> {
    let bands = chunk.band_data@.len() as int;
    let w = window.width as int;
    Seq::new(
        (window.width * window.height * bands) as nat,
        |i: int|
            {
                let px = i / bands;
                chunk.band_data@[i % bands]@[window_index(chunk, window, px / w, px % w)]
            },
    )
}

proof fn lemma_decompose(i: int, r: int, c: int, b: int, w: int, bands: int)
    requires
        0 <= r,
        0 <= c < w,
        0 <= b < bands,
        i == (r * w + c) * bands + b,
    ensures
        i / bands == r * w + c,
        i % bands == b,
        (i / bands) / w == r,
        (i / bands) % w == c,
{
    assert(r * w + c >= 0) by (nonlinear_arith)
        requires
            r >= 0,
            c >= 0,
            w > 0,
    ;
    lemma_fundamental_div_mod_converse(i, bands, r * w + c, b);
    lemma_fundamental_div_mod_converse(r * w + c, w, r, c);
}

proof fn lemma_index_le(chunk: ChunkBuffer, window: PixelWindow, r: int, c: int)
    requires
        0 <= r < window.height,
        0 <= c < window.width,
    ensures
        0 <= window_index(chunk, window, r, c) <= window_index(
            chunk,
            window,
            window.height - 1,
            window.width - 1,
        ),
{
    let o = row_offset(chunk, window);
    let wd = chunk.ds_width as int;
    assert((o + r) * wd <= (o + window.height - 1) * wd) by (nonlinear_arith)
        requires
            r <= window.height - 1,
            wd >= 0,
            o >= 0,
    ;
    assert((o + r) * wd >= 0) by (nonlinear_arith)
        requires
            o + r >= 0,
            wd >= 0,
    ;
}

/// Build the interleaved pixel buffer of `window` from the planar chunk data.
pub fn interleave_window(chunk: &ChunkBuffer, window: PixelWindow) -> (out: Vec<u8>)
    requires
        window_readable(*chunk, window),
        window_indexable(*chunk, window),
        window.width * window.height * chunk.band_data@.len() <= usize::MAX,
    ensures
        out@ == interleaved_window(*chunk, window),
{
    let bands = chunk.band_data.len();
    let row_off = if window.row >= chunk.row_start {
        window.row - chunk.row_start
    } else {
        0
    };
    let src_w = window.width;
    let src_h = window.height;
    let ghost want = interleaved_window(*chunk, window);
    let mut out: Vec<u8> = Vec::new();
    let mut row: usize = 0;
    while row < src_h
        invariant
            bands == chunk.band_data@.len(),
            row_off == row_offset(*chunk, window),
            src_w == window.width,
            src_h == window.height,
            window_readable(*chunk, window),
            window_indexable(*chunk, window),
            want == interleaved_window(*chunk, window),
            src_w * src_h * bands <= usize::MAX,
            0 <= row <= src_h,
            out@.len() == row * src_w * bands,
            forall|i: int| 0 <= i < out@.len() ==> #[trigger] out@[i] == want[i],
        decreases src_h - row,
    {
        let mut col: usize = 0;
        while col < src_w
            invariant
                bands == chunk.band_data@.len(),
                row_off == row_offset(*chunk, window),
                src_w == window.width,
                src_h == window.height,
                window_readable(*chunk, window),
                window_indexable(*chunk, window),
                want == interleaved_window(*chunk, window),
                src_w * src_h * bands <= usize::MAX,
                0 <= row < src_h,
                0 <= col <= src_w,
                out@.len() == (row * src_w + col) * bands,
                forall|i: int| 0 <= i < out@.len() ==> #[trigger] out@[i] == want[i],
            decreases src_w - col,
        {
            proof {
                lemma_index_le(*chunk, window, row as int, col as int);
                assert((row + 1) * src_w <= src_w * src_h) by (nonlinear_arith)
                    requires
                        row < src_h,
                ;
                assert(row * src_w + col + 1 <= (row + 1) * src_w) by (nonlinear_arith)
                    requires
                        col < src_w,
                ;
                assert((row * src_w + col + 1) * bands <= src_w * src_h * bands) by (nonlinear_arith)
                    requires
                        row * src_w + col + 1 <= (row + 1) * src_w,
                        (row + 1) * src_w <= src_w * src_h,
                ;
            }
            proof {
                let o = row_off as int;
                let wd = chunk.ds_width as int;
                assert((o + row) * wd >= 0) by (nonlinear_arith)
                    requires
                        o + row >= 0,
                        wd >= 0,
                ;
                assert(o + row <= usize::MAX);
                assert((o + row) * wd <= window_index(*chunk, window, row as int, col as int));
            }
            let idx = (row_off + row) * chunk.ds_width + window.col + col;
            let mut band: usize = 0;
            while band < bands
                invariant
                    bands == chunk.band_data@.len(),
                    row_off == row_offset(*chunk, window),
                    src_w == window.width,
                    src_h == window.height,
                    window_readable(*chunk, window),
                    want == interleaved_window(*chunk, window),
                    0 <= row < src_h,
                    0 <= col < src_w,
                    idx == window_index(*chunk, window, row as int, col as int),
                    idx <= window_index(*chunk, window, src_h - 1, src_w - 1),
                    (row * src_w + col + 1) * bands <= src_w * src_h * bands,
                    0 <= band <= bands,
                    out@.len() == (row * src_w + col) * bands + band,
                    forall|i: int| 0 <= i < out@.len() ==> #[trigger] out@[i] == want[i],
                decreases bands - band,
            {
                proof {
                    assert(want.len() == src_w * src_h * bands);
                    assert((row * src_w + col) * bands + band < (row * src_w + col + 1) * bands)
                        by (nonlinear_arith)
                        requires
                            band < bands,
                    ;
                    lemma_decompose(
                        out@.len() as int,
                        row as int,
                        col as int,
                        band as int,
                        src_w as int,
                        bands as int,
                    );
                }
                out.push(chunk.band_data[band][idx]);
                band += 1;
            }
            proof {
                assert((row * src_w + col) * bands + bands == (row * src_w + col + 1) * bands)
                    by (nonlinear_arith);
            }
            col += 1;
        }
        proof {
            assert((row * src_w + src_w) * bands == (row + 1) * src_w * bands) by (nonlinear_arith);
        }
        row += 1;
    }
    assert(out@.len() == want.len()) by (nonlinear_arith)
        requires
            out@.len() == row * src_w * bands,
            row == src_h,
            want.len() == src_w * src_h * bands,
    ;
    assert(out@ =~= want);
    out
}

/// The tile canvas: `tile_size × tile_size` pixels of `bands` samples, holding the
/// `dst.width × dst.height` image `res` at `(dst.x, dst.y)` and zero everywhere else.
pub open spec fn canvas_with(res: Seq<u8>, tile_size: int, dst: DstRect, bands: int) -> Seq<u8> {
    Seq::new(
        (tile_size * tile_size * bands) as nat,
        |i: int|
            {
                let px = i / bands;
                let row = px / tile_size;
                let col = px % tile_size;
                if dst.covers(col, row) {
                    res[((row - dst.y) * dst.width + (col - dst.x)) * bands + i % bands]
                } else {
                    0u8
                }
            },
    )
}

/// The tile canvas holds the resampled image inside the destination rectangle and is zero
/// everywhere else, in every sample (the alpha of an RGBA tile too, so padding stays
/// transparent): sample `i` belongs to canvas pixel (column `(i / bands) % tile_size`, row
/// `(i / bands) / tile_size`).
pub proof fn lemma_canvas_sample(res: Seq<u8>, tile_size: int, dst: DstRect, bands: int, i: int)
    requires
        bands >= 1,
        tile_size >= 1,
        0 <= i < tile_size * tile_size * bands,
    ensures
        canvas_with(res, tile_size, dst, bands).len() == tile_size * tile_size * bands,
        !(dst.x <= (i / bands) % tile_size < dst.x + dst.width && dst.y <= (i / bands) / tile_size
            < dst.y + dst.height) ==> canvas_with(res, tile_size, dst, bands)[i] == 0u8,
        dst.x <= (i / bands) % tile_size < dst.x + dst.width && dst.y <= (i / bands) / tile_size
            < dst.y + dst.height ==> canvas_with(res, tile_size, dst, bands)[i] == res[(((i / bands)
            / tile_size - dst.y) * dst.width + ((i / bands) % tile_size - dst.x)) * bands + i
            % bands],
{
    assert(tile_size * tile_size * bands >= 0) by (nonlinear_arith)
        requires
            tile_size >= 1,
            bands >= 1,
    ;
}

/// Place a resampled `dst.width × dst.height` image on a zeroed tile canvas at `dst`.
pub fn place_on_canvas(res: &[u8], tile_size: u32, dst: DstRect, bands: usize) -> (out: Vec<u8>)
    requires
        dst.fits(tile_size),
        res@.len() == dst.width * dst.height * bands,
        tile_size * tile_size * bands <= usize::MAX,
    ensures
        out@ == canvas_with(res@, tile_size as int, dst, bands as int),
{
    let res_len = res.len();
    let ts = tile_size as usize;
    let dx = dst.x as usize;
    let dy = dst.y as usize;
    let dw = dst.width as usize;
    let dh = dst.height as usize;
    let ghost want = canvas_with(res@, tile_size as int, dst, bands as int);
    let mut out: Vec<u8> = Vec::new();
    let mut row: usize = 0;
    while row < ts
        invariant
            ts == tile_size,
            dx == dst.x,
            dy == dst.y,
            dw == dst.width,
            dh == dst.height,
            res_len == res@.len(),
            dst.fits(tile_size),
            res@.len() == dst.width * dst.height * bands,
            ts * ts * bands <= usize::MAX,
            want == canvas_with(res@, tile_size as int, dst, bands as int),
            0 <= row <= ts,
            out@.len() == row * ts * bands,
            forall|i: int| 0 <= i < out@.len() ==> #[trigger] out@[i] == want[i],
        decreases ts - row,
    {
        let mut col: usize = 0;
        while col < ts
            invariant
                ts == tile_size,
                dx == dst.x,
                dy == dst.y,
                dw == dst.width,
                dh == dst.height,
                res_len == res@.len(),
                dst.fits(tile_size),
                res@.len() == dst.width * dst.height * bands,
                ts * ts * bands <= usize::MAX,
                want == canvas_with(res@, tile_size as int, dst, bands as int),
                0 <= row < ts,
                0 <= col <= ts,
                out@.len() == (row * ts + col) * bands,
                forall|i: int| 0 <= i < out@.len() ==> #[trigger] out@[i] == want[i],
            decreases ts - col,
        {
            assert(res_len == res@.len());
            let inside = dx <= col && col < dx + dw && dy <= row && row < dy + dh;
            proof {
                assert((row + 1) * ts <= ts * ts) by (nonlinear_arith)
                    requires
                        row < ts,
                ;
                assert(row * ts + col + 1 <= (row + 1) * ts) by (nonlinear_arith)
                    requires
                        col < ts,
                ;
                assert((row * ts + col + 1) * bands <= ts * ts * bands) by (nonlinear_arith)
                    requires
                        row * ts + col + 1 <= (row + 1) * ts,
                        (row + 1) * ts <= ts * ts,
                ;
                if inside {
                    assert(((row - dy) * dw + (col - dx) + 1) * bands <= dw * dh * bands)
                        by (nonlinear_arith)
                        requires
                            row - dy < dh,
                            col - dx < dw,
                            0 <= row - dy,
                            0 <= col - dx,
                    ;
                }
            }
            let mut band: usize = 0;
            while band < bands
                invariant
                    ts == tile_size,
                    dx == dst.x,
                    dy == dst.y,
                    dw == dst.width,
                    dh == dst.height,
                    res@.len() == dst.width * dst.height * bands,
                    want == canvas_with(res@, tile_size as int, dst, bands as int),
                    0 <= row < ts,
                    0 <= col < ts,
                    inside == dst.covers(col as int, row as int),
                    res_len == res@.len(),
                    inside ==> ((row - dy) * dw + (col - dx) + 1) * bands <= dw * dh * bands,
                    (row * ts + col + 1) * bands <= ts * ts * bands,
                    0 <= band <= bands,
                    out@.len() == (row * ts + col) * bands + band,
                    forall|i: int| 0 <= i < out@.len() ==> #[trigger] out@[i] == want[i],
                decreases bands - band,
            {
                proof {
                    assert((row * ts + col) * bands + band < (row * ts + col + 1) * bands)
                        by (nonlinear_arith)
                        requires
                            band < bands,
                    ;
                    lemma_decompose(
                        out@.len() as int,
                        row as int,
                        col as int,
                        band as int,
                        ts as int,
                        bands as int,
                    );
                    if inside {
                        assert(((row - dy) * dw + (col - dx)) * bands + band < ((row - dy) * dw + (
                        col - dx) + 1) * bands) by (nonlinear_arith)
                            requires
                                band < bands,
                        ;
                    }
                }
                proof {
                    if inside {
                        let k = (row - dy) * dw + (col - dx);
                        assert(k * bands + band < res@.len());
                        assert(k <= k * bands) by (nonlinear_arith)
                            requires
                                k >= 0,
                                bands >= 1,
                        ;
                        assert((row - dy) * dw <= k);
                        assert(res@.len() == res_len);
                    }
                }
                let v = if inside {
                    res[((row - dy) * dw + (col - dx)) * bands + band]
                } else {
                    0u8
                };
                out.push(v);
                band += 1;
            }
            proof {
                assert((row * ts + col) * bands + bands == (row * ts + col + 1) * bands)
                    by (nonlinear_arith);
            }
            col += 1;
        }
        proof {
            assert((row * ts + ts) * bands == (row + 1) * ts * bands) by (nonlinear_arith);
        }
        row += 1;
    }
    assert(out@.len() == want.len()) by (nonlinear_arith)
        requires
            out@.len() == row * ts * bands,
            row == ts,
            want.len() == ts * ts * bands,
    ;
    assert(out@ =~= want);
    out
}

/// What every run of the resampler produces from a `src_w × src_h` image `src`: a
/// `dst_w × dst_h` image of `bands` samples per pixel, equal to `src` when the sizes
/// match, and all zero when the source is empty.
pub open spec fn resample_outcome(
    res: Seq<u8>,
    src: Seq<u8>,
    src_w: int,
    src_h: int,
    dst_w: int,
    dst_h: int,
    bands: int,
) -> bool {
    &&& res.len() == dst_w * dst_h * bands
    &&& src_w == dst_w && src_h == dst_h ==> res == src
    &&& src_w == 0 || src_h == 0 ==> forall|i: int| 0 <= i < res.len() ==> res[i] == 0u8
}

/// The image that `fast_image_resize`'s `Resizer::resize`, with the default options
/// (Lanczos3 convolution, alpha-aware), makes of the `src_w × src_h` image `src` of layout
/// `layout` at `dst_w × dst_h`.
pub uninterp spec fn resized(
    src: Seq<u8>,
    src_w: u32,
    src_h: u32,
    layout: PixelLayout,
    dst_w: u32,
    dst_h: u32,
) -> Seq<u8>;

/// Resamples with `fast_image_resize`: wraps `src` as an `ImageRef` of `src_w × src_h`
/// pixels, allocates the zero-filled destination `Image::new(dst_w, dst_h, ..)` and runs
/// `Resizer::resize` with the default options (Lanczos3 convolution, alpha-aware), then
/// hands back the destination buffer.
///
/// Claimed of the crate, as its source shows: for 8-bit layouts a buffer of exactly
/// `src_w * src_h * samples` bytes is always accepted and the default options never fail;
/// the result is a function of the source, the sizes and the layout alone, named
/// [`resized`] (its code paths for the CPU extensions are pinned by the crate's tests to
/// give the same output); it holds `dst_w * dst_h * samples` bytes; equal sizes are copied
/// unchanged; an empty source leaves the zero-filled destination as it is. The resampled
/// values themselves are not written out: they are the convolution's.
#[verifier::external_body]
fn resize_pixels(
    src: &[u8],
    src_w: u32,
    src_h: u32,
    layout: PixelLayout,
    dst_w: u32,
    dst_h: u32,
) -> (r: Result<Vec<u8>, Error>)
    requires
        src@.len() == src_w * src_h * samples_of(layout),
        dst_w * dst_h * samples_of(layout) <= usize::MAX,
    ensures
        r is Ok,
        r matches Ok(v) ==> v@ == resized(src@, src_w, src_h, layout, dst_w, dst_h),
        r matches Ok(v) ==> resample_outcome(
            v@,
            src@,
            src_w as int,
            src_h as int,
            dst_w as int,
            dst_h as int,
            samples_of(layout),
        ),
{
    let pt = match layout {
        PixelLayout::U8 => PixelType::U8,
        PixelLayout::U8x2 => PixelType::U8x2,
        PixelLayout::U8x3 => PixelType::U8x3,
        PixelLayout::U8x4 => PixelType::U8x4,
    };
    let src_img = ImageRef::new(src_w, src_h, src, pt).map_err(Error::ImageBuffer)?;
    let mut dst_img = Image::new(dst_w, dst_h, pt);
    Resizer::new().resize(&src_img, &mut dst_img, &ResizeOptions::default()).map_err(Error::Resize)?;
    Ok(dst_img.into_vec())
}

/// What cropping a tile needs of its inputs: the window's reads stay inside the chunk and
/// `usize`, and the window, the destination rectangle and the canvas have sizes the
/// resampler and the buffers can hold.
pub open spec fn crop_fits(chunk: ChunkBuffer, window: PixelWindow, tile_size: u32, dst: DstRect) -> bool {
    let bands = chunk.band_data@.len() as int;
    &&& window_readable(chunk, window)
    &&& window_indexable(chunk, window)
    &&& window.width <= u32::MAX
    &&& window.height <= u32::MAX
    &&& window.width * window.height * bands <= usize::MAX
    &&& dst.fits(tile_size)
    &&& tile_size * tile_size * bands <= usize::MAX
}

/// A full-canvas destination holds the resampled image unchanged.
proof fn lemma_full_canvas(res: Seq<u8>, ts: u32, bands: int)
    requires
        bands >= 1,
        res.len() == ts * ts * bands,
    ensures
        canvas_with(res, ts as int, DstRect::full_spec(ts), bands) =~= res,
{
    let tile_size = ts as int;
    let dst = DstRect::full_spec(ts);
    let c = canvas_with(res, tile_size, dst, bands);
    assert(tile_size * tile_size * bands >= 0) by (nonlinear_arith)
        requires
            tile_size >= 0,
            bands >= 1,
    ;
    assert(c.len() == res.len());
    if ts > 0 {
        assert forall|i: int| 0 <= i < c.len() implies c[i] == res[i] by {
            let px = i / bands;
            let row = px / tile_size;
            let col = px % tile_size;
            lemma_fundamental_div_mod(i, bands);
            lemma_fundamental_div_mod(px, tile_size);
            assert(0 <= px < tile_size * tile_size) by (nonlinear_arith)
                requires
                    0 <= i < tile_size * tile_size * bands,
                    px == i / bands,
                    bands >= 1,
            ;
            assert(0 <= row < tile_size) by (nonlinear_arith)
                requires
                    0 <= px < tile_size * tile_size,
                    row == px / tile_size,
                    tile_size > 0,
            ;
            assert(0 <= col < tile_size) by (nonlinear_arith)
                requires
                    col == px % tile_size,
                    tile_size > 0,
            ;
            assert(dst.covers(col, row));
            assert((row * tile_size + col) * bands + i % bands == i) by (nonlinear_arith)
                requires
                    px == tile_size * row + col,
                    i == bands * px + i % bands,
            ;
            assert(c[i] == res[((row - dst.y) * dst.width + (col - dst.x)) * bands + i % bands]);
        }
        assert(c =~= res);
    } else {
        assert(tile_size * tile_size * bands == 0) by (nonlinear_arith)
            requires
                tile_size == 0,
        ;
        assert(c =~= res);
    }
}

/// Cropping reads a window by its dataset rows: two chunks of the same width and band
/// count that hold the same samples on the window's rows hand the resampler the same
/// image, whichever rows each chunk starts at. Tile output does not depend on where the
/// chunk boundaries fall.
pub proof fn lemma_window_independent_of_chunk(a: ChunkBuffer, b: ChunkBuffer, window: PixelWindow)
    requires
        a.wf(),
        b.wf(),
        a.ds_width == b.ds_width,
        a.band_data@.len() == b.band_data@.len(),
        window.col + window.width <= a.ds_width,
        a.row_start <= window.row,
        window.row + window.height <= a.row_start + a.row_count,
        b.row_start <= window.row,
        window.row + window.height <= b.row_start + b.row_count,
        forall|k: int, row: int, col: int|
            0 <= k < a.band_data@.len() && window.row <= row < window.row + window.height
                && window.col <= col < window.col + window.width ==> #[trigger] a.sample(k, row, col)
                == #[trigger] b.sample(k, row, col),
    ensures
        interleaved_window(a, window) == interleaved_window(b, window),
{
    let bands = a.band_data@.len() as int;
    let w = window.width as int;
    let h = window.height as int;
    let ia = interleaved_window(a, window);
    let ib = interleaved_window(b, window);
    assert forall|i: int| 0 <= i < ia.len() implies ia[i] == ib[i] by {
        let px = i / bands;
        let r = px / w;
        let c = px % w;
        let k = i % bands;
        assert(bands >= 1 && w >= 1 && h >= 1) by (nonlinear_arith)
            requires
                0 <= i < w * h * bands,
                w >= 0,
                h >= 0,
                bands >= 0,
        ;
        assert(0 <= px < w * h) by (nonlinear_arith)
            requires
                0 <= i < w * h * bands,
                px == i / bands,
                bands >= 1,
        ;
        assert(0 <= r < h) by (nonlinear_arith)
            requires
                0 <= px < w * h,
                r == px / w,
                w > 0,
        ;
        assert(0 <= c < w) by (nonlinear_arith)
            requires
                c == px % w,
                w > 0,
        ;
        assert(0 <= k < bands) by (nonlinear_arith)
            requires
                k == i % bands,
                bands > 0,
        ;
        assert(a.sample(k, window.row + r, window.col + c) == b.sample(
            k,
            window.row + r,
            window.col + c,
        ));
        assert(ia[i] == a.sample(k, window.row + r, window.col + c));
        assert(ib[i] == b.sample(k, window.row + r, window.col + c));
    }
}

/// The window of `chunk` resampled to `dst.width × dst.height`.
pub open spec fn resampled_window(chunk: ChunkBuffer, window: PixelWindow, dst: DstRect) -> Seq<u8> {
    resized(
        interleaved_window(chunk, window),
        window.width as u32,
        window.height as u32,
        layout_of(chunk.band_data@.len() as int),
        dst.width,
        dst.height,
    )
}

/// The tile made of `window`: its resampled pixels placed at `dst` on a zeroed
/// `tile_size × tile_size` canvas.
pub open spec fn cropped_tile(chunk: ChunkBuffer, window: PixelWindow, tile_size: u32, dst: DstRect) -> Seq<u8> {
    canvas_with(
        resampled_window(chunk, window, dst),
        tile_size as int,
        dst,
        chunk.band_data@.len() as int,
    )
}

/// Tiles do not depend on where the chunk boundaries fall: two chunks of the same width
/// and band count that hold the same samples on a window's rows crop the same tile from
/// it, whichever rows each chunk starts at.
pub proof fn lemma_tile_independent_of_chunk(
    a: ChunkBuffer,
    b: ChunkBuffer,
    window: PixelWindow,
    tile_size: u32,
    dst: DstRect,
)
    requires
        a.wf(),
        b.wf(),
        a.ds_width == b.ds_width,
        a.band_data@.len() == b.band_data@.len(),
        window.col + window.width <= a.ds_width,
        a.row_start <= window.row,
        window.row + window.height <= a.row_start + a.row_count,
        b.row_start <= window.row,
        window.row + window.height <= b.row_start + b.row_count,
        forall|k: int, row: int, col: int|
            0 <= k < a.band_data@.len() && window.row <= row < window.row + window.height
                && window.col <= col < window.col + window.width ==> #[trigger] a.sample(k, row, col)
                == #[trigger] b.sample(k, row, col),
    ensures
        cropped_tile(a, window, tile_size, dst) == cropped_tile(b, window, tile_size, dst),
{
    lemma_window_independent_of_chunk(a, b, window);
}

/// Extract the pixel window of a tile from `chunk`, resample it to `dst.width ×
/// dst.height` and place it at `(dst.x, dst.y)` on a zeroed `tile_size × tile_size`
/// canvas. The result has the band layout of the source (1 = L8, 2 = La8, 3 = RGB,
/// 4 = RGBA), interleaved.
///
/// `window.row` is in dataset-absolute pixel coordinates; it must fall within the rows the
/// chunk holds.
pub fn crop_tile(chunk: &ChunkBuffer, window: PixelWindow, tile_size: u32, dst: DstRect) -> (r:
    Result<Vec<u8>, Error>)
    requires
        1 <= chunk.band_data@.len() <= 4 ==> crop_fits(*chunk, window, tile_size, dst),
    ensures
        !(1 <= chunk.band_data@.len() <= 4) ==> (r matches Err(Error::BadBandCount(n)) && n
            == chunk.band_data@.len()),
        1 <= chunk.band_data@.len() <= 4 ==> (r matches Ok(v) && v@ == cropped_tile(
            *chunk,
            window,
            tile_size,
            dst,
        )),
        1 <= chunk.band_data@.len() <= 4 ==> (r matches Ok(v) && v@.len() == tile_size * tile_size
            * chunk.band_data@.len() && forall|i: int|
            0 <= i < v@.len() && !(dst.x <= (i / chunk.band_data@.len() as int) % (tile_size as int)
                < dst.x + dst.width && dst.y <= (i / chunk.band_data@.len() as int) / (
            tile_size as int) < dst.y + dst.height) ==> #[trigger] v@[i] == 0u8),
        1 <= chunk.band_data@.len() <= 4 ==> resample_outcome(
            resampled_window(*chunk, window, dst),
            interleaved_window(*chunk, window),
            window.width as int,
            window.height as int,
            dst.width as int,
            dst.height as int,
            chunk.band_data@.len() as int,
        ),
        1 <= chunk.band_data@.len() <= 4 && window.width == tile_size && window.height == tile_size
            && dst == DstRect::full_spec(tile_size) ==> (r matches Ok(v) && v@ == interleaved_window(
            *chunk,
            window,
        )),
{
    let bands = chunk.band_count();
    let pt = pixel_type(bands)?;
    let interleaved = interleave_window(chunk, window);
    proof {
        assert(dst.width * dst.height * bands <= tile_size * tile_size * bands) by (nonlinear_arith)
            requires
                dst.width <= tile_size,
                dst.height <= tile_size,
        ;
    }
    let resized = resize_pixels(
        interleaved.as_slice(),
        window.width as u32,
        window.height as u32,
        pt,
        dst.width,
        dst.height,
    )?;
    let out = place_on_canvas(resized.as_slice(), tile_size, dst, bands);
    proof {
        if window.width == tile_size && window.height == tile_size && dst == DstRect::full_spec(
            tile_size,
        ) {
            lemma_full_canvas(resized@, tile_size, bands as int);
        }
        let n = bands as int;
        let ts = tile_size as int;
        assert(ts * ts * n >= 0) by (nonlinear_arith)
            requires
                ts >= 0,
                n >= 1,
        ;
        assert forall|i: int|
            0 <= i < out@.len() && !(dst.x <= (i / n) % ts < dst.x + dst.width && dst.y <= (i / n)
                / ts < dst.y + dst.height) implies #[trigger] out@[i] == 0u8 by {
            if ts == 0 {
                assert(ts * ts * n == 0) by (nonlinear_arith)
                    requires
                        ts == 0,
                ;
            } else {
                lemma_canvas_sample(resized@, ts, dst, n, i);
            }
        }
    }
    Ok(out)
}

} // verus!
