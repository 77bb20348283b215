//! Laws relating the raster transforms to each other.

use vstd::prelude::*;
use crate::arith::{lemma_split, lemma_join, lemma_quotient_bound, lemma_item_in_run};
use crate::image::{mirrored, half_turned, quarter_turned, quarter_source, blitted,
    blit_covers, blit_source, CopyRect, thresholded, Raster};

verus! {

/// Byte `b` of pixel (`x`, `y`) of a row-major buffer `w` pixels wide with
/// `size`-byte pixels.
pub open spec fn pixel_byte(d: Seq<u8>, w: int, size: int, x: int, y: int, b: int) -> u8 {
    d[(y * w + x) * size + b]
}

/// Mirroring twice gives back the original samples.
pub proof fn law_mirror_twice(d: Seq<u8>, width: int, size: int)
    requires
        width > 0,
        size > 0,
    ensures
        mirrored(mirrored(d, width, size), width, size) == d,
{
    let stride = width * size;
    assert(stride > 0) by (nonlinear_arith) requires width > 0, size > 0, stride == width * size;
    let m = mirrored(d, width, size);
    let mm = mirrored(m, width, size);
    let rows = (d.len() as int) / stride;
    lemma_join(d.len() as int, stride);
    assert forall|i: int| 0 <= i < d.len() implies #[trigger] mm[i] == d[i] by {
        if i < rows * stride {
            lemma_join(i, stride);
            let row = i / stride;
            let c = i % stride;
            lemma_join(c, size);
            lemma_quotient_bound(c, size, width);
            let p = c / size;
            let b = c % size;
            let j = row * stride + ((width - 1 - p) * size + b);
            lemma_item_in_run(width - 1 - p, width, size, b);
            lemma_split(row, stride, (width - 1 - p) * size + b);
            lemma_split(width - 1 - p, size, b);
            assert(row < rows) by {
                lemma_quotient_bound(i, stride, rows);
            }
            assert(j < rows * stride) by {
                assert((row + 1) * stride <= rows * stride) by (nonlinear_arith)
                    requires row < rows, stride > 0;
                assert((row + 1) * stride == row * stride + stride) by (nonlinear_arith);
            }
            assert(mm[i] == m[j]);
            lemma_split(p, size, b);
            assert(m[j] == d[row * stride + (p * size + b)]);
        }
    }
    assert(mm =~= d);
}

/// Turning by 180 degrees twice gives back the original samples.
pub proof fn law_half_turn_twice(d: Seq<u8>, size: int)
    requires
        size > 0,
    ensures
        half_turned(half_turned(d, size), size) == d,
{
    let n = (d.len() as int) / size;
    lemma_join(d.len() as int, size);
    let h1 = half_turned(d, size);
    let h2 = half_turned(h1, size);
    assert forall|i: int| 0 <= i < d.len() implies #[trigger] h2[i] == d[i] by {
        if i < n * size {
            lemma_join(i, size);
            lemma_quotient_bound(i, size, n);
            let p = i / size;
            let b = i % size;
            let j = (n - 1 - p) * size + b;
            lemma_item_in_run(n - 1 - p, n, size, b);
            lemma_split(n - 1 - p, size, b);
            assert(h2[i] == h1[j]);
            assert(h1[j] == d[(n - 1 - (n - 1 - p)) * size + b]);
        }
    }
    assert(h2 =~= d);
}

/// Two quarter turns of a raster with exactly `w * h` pixels make a half
/// turn.
pub proof fn law_two_quarter_turns(d: Seq<u8>, w: int, h: int, size: int)
    requires
        w >= 0,
        h >= 0,
        size > 0,
        d.len() == w * h * size,
    ensures
        quarter_turned(quarter_turned(d, w, h, size), h, w, size) == half_turned(d, size),
{
    let q1 = quarter_turned(d, w, h, size);
    let q2 = quarter_turned(q1, h, w, size);
    let ht = half_turned(d, size);
    assert(w * h * size == (w * h) * size) by (nonlinear_arith);
    assert(h * w * size == (w * h) * size) by (nonlinear_arith);
    lemma_split(w * h, size, 0);
    assert((d.len() as int) / size == w * h);
    assert forall|i: int| 0 <= i < d.len() implies #[trigger] q2[i] == ht[i] by {
        lemma_join(i, size);
        let q = i / size;
        let b = i % size;
        lemma_quotient_bound(i, size, w * h);
        assert(w > 0 && h > 0) by {
            if w == 0 || h == 0 {
                assert(w * h == 0) by (nonlinear_arith) requires w == 0 || h == 0;
            }
        }
        // second turn: the raster being turned is h wide and w high
        lemma_join(q, w);
        let x = q / w;
        let c = q % w;
        assert(w * h == h * w) by (nonlinear_arith);
        lemma_quotient_bound(q, w, h);
        let j = ((w - 1 - c) * h + x) * size + b;
        assert(quarter_source(i, h, w, size) == j);
        lemma_item_in_run(w - 1 - c, w, h, x);
        lemma_item_in_run((w - 1 - c) * h + x, w * h, size, b);
        assert(q2[i] == q1[j]);
        lemma_split((w - 1 - c) * h + x, size, b);
        lemma_split(w - 1 - c, h, x);
        assert(quarter_source(j, w, h, size) == ((h - 1 - x) * w + (w - 1 - c)) * size + b);
        assert((h - 1 - x) * w + (w - 1 - c) == w * h - 1 - q) by (nonlinear_arith)
            requires q == x * w + c;
        assert(ht[i] == d[(w * h - 1 - q) * size + b]);
    }
    assert(q2 =~= ht);
}

/// Four quarter turns of a raster with exactly `w * h` pixels give back the
/// original samples.
pub proof fn law_four_quarter_turns(d: Seq<u8>, w: int, h: int, size: int)
    requires
        w >= 0,
        h >= 0,
        size > 0,
        d.len() == w * h * size,
    ensures
        quarter_turned(
            quarter_turned(quarter_turned(quarter_turned(d, w, h, size), h, w, size), w, h, size),
            h,
            w,
            size,
        ) == d,
{
    law_two_quarter_turns(d, w, h, size);
    let ht = half_turned(d, size);
    assert(ht.len() == d.len());
    law_two_quarter_turns(ht, w, h, size);
    law_half_turn_twice(d, size);
}

/// A mirrored raster with exactly `w * h` pixels holds at (x, y) the pixel
/// that was at (w - 1 - x, y).
pub proof fn law_mirror_pixels(d: Seq<u8>, w: int, h: int, size: int, x: int, y: int, b: int)
    requires
        w > 0,
        size > 0,
        d.len() == w * h * size,
        0 <= x < w,
        0 <= y < h,
        0 <= b < size,
    ensures
        pixel_byte(mirrored(d, w, size), w, size, x, y, b) == pixel_byte(d, w, size, w - 1 - x, y, b),
{
    let stride = w * size;
    assert(stride > 0) by (nonlinear_arith) requires w > 0, size > 0, stride == w * size;
    assert(d.len() == h * stride) by (nonlinear_arith) requires d.len() == w * h * size, stride == w * size;
    lemma_split(h, stride, 0);
    let i = (y * w + x) * size + b;
    assert(i == y * stride + (x * size + b)) by (nonlinear_arith)
        requires i == (y * w + x) * size + b, stride == w * size;
    lemma_item_in_run(x, w, size, b);
    lemma_split(y, stride, x * size + b);
    lemma_split(x, size, b);
    lemma_item_in_run(y, h, stride, x * size + b);
    assert((y * w + (w - 1 - x)) * size + b == y * stride + ((w - 1 - x) * size + b)) by (nonlinear_arith)
        requires stride == w * size;
}

/// Copying a rectangle that lies inside a raster `src_w` pixels wide to the
/// origin of a buffer of exactly the rectangle's size yields that crop: the
/// pixel at (x, y) of the result is the pixel at (src_x + x, src_y + y).
pub proof fn law_blit_crop(
    zeros: Seq<u8>,
    src: Seq<u8>,
    src_w: int,
    size: int,
    rect: CopyRect,
    x: int,
    y: int,
    b: int,
)
    requires
        size > 0,
        zeros.len() == rect.width * rect.height * size,
        rect.src_x + rect.width <= src_w,
        0 <= x < rect.width,
        0 <= y < rect.height,
        0 <= b < size,
    ensures
        pixel_byte(blitted(zeros, src, rect.width as int, src_w, size, rect, 0, 0), rect.width as int, size, x, y, b)
            == pixel_byte(src, src_w, size, rect.src_x + x, rect.src_y + y, b),
{
    let rw = rect.width as int;
    let ds = rw * size;
    assert(ds > 0) by (nonlinear_arith) requires rw > 0, size > 0, ds == rw * size;
    let i = (y * rw + x) * size + b;
    assert(i == y * ds + (x * size + b)) by (nonlinear_arith)
        requires i == (y * rw + x) * size + b, ds == rw * size;
    lemma_item_in_run(x, rw, size, b);
    lemma_split(y, ds, x * size + b);
    lemma_item_in_run(y, rect.height as int, ds, x * size + b);
    assert(rect.width * rect.height * size == rect.height * ds) by (nonlinear_arith)
        requires ds == rw * size, rw == rect.width;
    assert(blit_covers(i, rw, size, rect, 0, 0));
    assert(blit_source(i, rw, src_w, size, rect, 0, 0)
        == ((rect.src_y + y) * src_w + (rect.src_x + x)) * size + b) by (nonlinear_arith)
        requires
            i / ds == y,
            i % ds == x * size + b,
            ds == rw * size,
            blit_source(i, rw, src_w, size, rect, 0, 0) == (rect.src_y + i / ds - 0) * (src_w * size)
                + rect.src_x * size + (i % ds - 0 * size);
}

/// Thresholding is idempotent: a bitonal raster is its own bitonal image.
pub proof fn law_threshold_idempotent(d: Seq<u8>)
    ensures
        thresholded(thresholded(d)) == thresholded(d),
        forall|i: int| 0 <= i < d.len() ==> #[trigger] thresholded(d)[i] == 0u8 || thresholded(d)[i] == 255u8,
{
    assert(thresholded(thresholded(d)) =~= thresholded(d));
}

/// Mirroring a raster twice restores it: `once` is `r` mirrored, `twice`
/// is `once` mirrored (each as [`Raster::mirror`] states it, on a raster
/// with a row whose stride fits in `usize`).
pub proof fn law_raster_mirror_twice(r: Raster, once: Raster, twice: Raster)
    requires
        r.spec_width() > 0,
        r.spec_width() * r.spec_channels() <= usize::MAX,
        once.has(r.is_gray(), r.spec_width(), r.spec_height(), mirrored(r.samples(), r.spec_width() as int, r.spec_channels() as int)),
        twice.has(
            once.is_gray(),
            once.spec_width(),
            once.spec_height(),
            mirrored(once.samples(), once.spec_width() as int, once.spec_channels() as int),
        ),
    ensures
        twice.picture() == r.picture(),
{
    assert(once.spec_channels() == r.spec_channels());
    law_mirror_twice(r.samples(), r.spec_width() as int, r.spec_channels() as int);
}

} // verus!
