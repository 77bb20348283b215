//! The in-memory raster model and the pure-compute transforms.
//!
//! Rasters are 8-bit gray or RGB, tightly packed, row-major. The spec
//! functions below describe every transform as a function of the flat
//! sample sequence, so each public operation states exactly which byte lands
//! where; the laws in `image_laws` relate the operations to each
//! other.

use vstd::prelude::*;
use vstd::string::StringExecFns;
use crate::luma::{luma, pixel_luma};
use crate::arith::{at, lemma_split, lemma_join, lemma_quotient_bound, lemma_item_in_run};

verus! {

/// An owned 8-bit raster, tightly packed, row-major.
#[derive(Debug, Clone, PartialEq, Eq)]
pub enum Raster {
    /// Single channel, 1 byte per pixel.
    Gray8 { width: u32, height: u32, data: Vec<u8> },
    /// Three channels, RGB order, 3 bytes per pixel.
    Rgb8 { width: u32, height: u32, data: Vec<u8> },
}

/// Pixel-geometry or buffer-consistency failure inside the pipeline —
/// always an internal bug or a decoder contract violation, never a client
/// error.
#[derive(Debug, Clone, PartialEq, Eq)]
pub struct RasterError(pub String);

impl RasterError {
    /// The human-readable description of the failure.
    pub fn message(&self) -> (r: String)
        ensures
            r@ == "raster error: "@ + self.0@,
    {
        let mut out = "raster error: ".to_owned();
        out.append(self.0.as_str());
        out
    }
}

/// The two sample layouts a raster can have.
#[derive(Debug, Clone, Copy, PartialEq, Eq)]
pub enum SampleLayout {
    Gray8,
    Rgb8,
}

impl SampleLayout {
    pub open spec fn spec_bytes(&self) -> u32 {
        match self {
            SampleLayout::Gray8 => 1,
            SampleLayout::Rgb8 => 3,
        }
    }
}

/// The mathematical content of a raster: layout, dimensions and samples.
pub struct Picture {
    pub gray: bool,
    pub width: u32,
    pub height: u32,
    pub samples: Seq<u8>,
}

impl Picture {
    pub open spec fn channels(self) -> u32 {
        if self.gray {
            1
        } else {
            3
        }
    }

    pub open spec fn layout(self) -> SampleLayout {
        if self.gray {
            SampleLayout::Gray8
        } else {
            SampleLayout::Rgb8
        }
    }
}

/// A source rectangle for [`Raster::blit`].
#[derive(Debug, Clone, Copy, PartialEq, Eq)]
pub struct CopyRect {
    pub src_x: u32,
    pub src_y: u32,
    pub width: u32,
    pub height: u32,
}

impl Raster {
    pub open spec fn spec_width(&self) -> u32 {
        match self {
            Raster::Gray8 { width, .. } => *width,
            Raster::Rgb8 { width, .. } => *width,
        }
    }

    pub open spec fn spec_height(&self) -> u32 {
        match self {
            Raster::Gray8 { height, .. } => *height,
            Raster::Rgb8 { height, .. } => *height,
        }
    }

    pub open spec fn spec_channels(&self) -> u32 {
        match self {
            Raster::Gray8 { .. } => 1,
            Raster::Rgb8 { .. } => 3,
        }
    }

    /// The sample bytes.
    pub open spec fn samples(&self) -> Seq<u8> {
        match self {
            Raster::Gray8 { data, .. } => data@,
            Raster::Rgb8 { data, .. } => data@,
        }
    }

    pub open spec fn is_gray(&self) -> bool {
        self is Gray8
    }

    pub open spec fn picture(&self) -> Picture {
        Picture {
            gray: self.is_gray(),
            width: self.spec_width(),
            height: self.spec_height(),
            samples: self.samples(),
        }
    }

    /// Exactly `width * height * channels` sample bytes.
    pub open spec fn wf(&self) -> bool {
        self.samples().len() == self.spec_width() * self.spec_height() * self.spec_channels()
    }

    /// Same pixel layout and the given dimensions and samples.
    pub open spec fn has(&self, gray: bool, width: u32, height: u32, samples: Seq<u8>) -> bool {
        &&& self.is_gray() == gray
        &&& self.spec_width() == width
        &&& self.spec_height() == height
        &&& self.samples() == samples
    }

    pub open spec fn spec_layout(&self) -> SampleLayout {
        match self {
            Raster::Gray8 { .. } => SampleLayout::Gray8,
            Raster::Rgb8 { .. } => SampleLayout::Rgb8,
        }
    }

    /// The sample layout.
    #[verifier::when_used_as_spec(spec_layout)]
    pub fn layout(&self) -> (r: SampleLayout)
        ensures
            r == self.spec_layout(),
            r.spec_bytes() == self.spec_channels(),
    {
        match self {
            Self::Gray8 { .. } => SampleLayout::Gray8,
            Self::Rgb8 { .. } => SampleLayout::Rgb8,
        }
    }

    #[verifier::when_used_as_spec(spec_width)]
    pub fn width(&self) -> (r: u32)
        ensures
            r == self.spec_width(),
    {
        match self {
            Self::Gray8 { width, .. } | Self::Rgb8 { width, .. } => *width,
        }
    }

    #[verifier::when_used_as_spec(spec_height)]
    pub fn height(&self) -> (r: u32)
        ensures
            r == self.spec_height(),
    {
        match self {
            Self::Gray8 { height, .. } | Self::Rgb8 { height, .. } => *height,
        }
    }

    #[verifier::when_used_as_spec(spec_channels)]
    pub fn channels(&self) -> (r: u32)
        ensures
            r == self.spec_channels(),
            r == 1 || r == 3,
    {
        match self {
            Self::Gray8 { .. } => 1,
            Self::Rgb8 { .. } => 3,
        }
    }

    pub fn data(&self) -> (r: &[u8])
        ensures
            r@ == self.samples(),
    {
        match self {
            Self::Gray8 { data, .. } | Self::Rgb8 { data, .. } => data.as_slice(),
        }
    }

    /// The rectangle lies inside `src` and, moved to (`dst_x`, `dst_y`),
    /// inside `self`.
    pub open spec fn blit_in_bounds(&self, src: &Self, rect: CopyRect, dst_x: u32, dst_y: u32) -> bool {
        &&& rect.src_x + rect.width <= src.spec_width()
        &&& rect.src_y + rect.height <= src.spec_height()
        &&& dst_x + rect.width <= self.spec_width()
        &&& dst_y + rect.height <= self.spec_height()
    }

    /// Copy `rect` of `src` into this raster at (`dst_x`, `dst_y`).
    /// Layouts must match.
    ///
    /// Fails, leaving the raster untouched, when the pixel layouts differ or
    /// the rectangles fall outside either raster.
    pub fn blit(&mut self, src: &Self, rect: CopyRect, dst_x: u32, dst_y: u32) -> (r: Result<(), RasterError>)
        requires
            old(self).spec_channels() == src.spec_channels() && old(self).blit_in_bounds(src, rect, dst_x, dst_y)
                ==> blit_fits(
                old(self).samples().len() as int,
                src.samples().len() as int,
                old(self).spec_width() as int,
                src.spec_width() as int,
                src.spec_channels() as int,
                rect,
                dst_x as int,
                dst_y as int,
            ),
        ensures
            r is Err <==> old(self).spec_channels() != src.spec_channels() || !old(self).blit_in_bounds(src, rect, dst_x, dst_y),
            old(self).spec_channels() != src.spec_channels() ==> (r matches Err(e) && e.0@ == "blit between different pixel layouts"@),
            old(self).spec_channels() == src.spec_channels() && !old(self).blit_in_bounds(src, rect, dst_x, dst_y)
                ==> (r matches Err(e) && e.0@ == "blit rectangle out of bounds"@),
            r is Err ==> *final(self) == *old(self),
            r is Ok ==> final(self).has(
                old(self).is_gray(),
                old(self).spec_width(),
                old(self).spec_height(),
                blitted(
                    old(self).samples(),
                    src.samples(),
                    old(self).spec_width() as int,
                    src.spec_width() as int,
                    src.spec_channels() as int,
                    rect,
                    dst_x as int,
                    dst_y as int,
                ),
            ),
    {
        if self.channels() != src.channels() {
            return Err(RasterError("blit between different pixel layouts".to_owned()));
        }
        let src_fits_x = match rect.src_x.checked_add(rect.width) {
            Some(edge) => edge <= src.width(),
            None => false,
        };
        let src_fits_y = match rect.src_y.checked_add(rect.height) {
            Some(edge) => edge <= src.height(),
            None => false,
        };
        let dst_fits_x = match dst_x.checked_add(rect.width) {
            Some(edge) => edge <= self.width(),
            None => false,
        };
        let dst_fits_y = match dst_y.checked_add(rect.height) {
            Some(edge) => edge <= self.height(),
            None => false,
        };
        if !src_fits_x || !src_fits_y || !dst_fits_x || !dst_fits_y {
            return Err(RasterError("blit rectangle out of bounds".to_owned()));
        }
        let dst_w = self.width();
        let src_w = src.width();
        let bpp = self.channels();
        match self {
            Self::Gray8 { data, .. } => copy_rows(data, src.data(), dst_w, src_w, bpp, rect, dst_x, dst_y),
            Self::Rgb8 { data, .. } => copy_rows(data, src.data(), dst_w, src_w, bpp, rect, dst_x, dst_y),
        }
        Ok(())
    }

    /// Mirror on the vertical axis (left and right exchanged), in place.
    ///
    /// Each complete row of `width` pixels is reversed; trailing bytes that
    /// do not make up a row stay where they are.
    pub fn mirror(&mut self)
        requires
            old(self).spec_width() > 0,
            old(self).spec_width() * old(self).spec_channels() <= usize::MAX,
        ensures
            final(self).has(
                old(self).is_gray(),
                old(self).spec_width(),
                old(self).spec_height(),
                mirrored(
                    old(self).samples(),
                    old(self).spec_width() as int,
                    old(self).spec_channels() as int,
                ),
            ),
    {
        let width = self.width() as usize;
        let bpp = self.channels() as usize;
        match self {
            Self::Gray8 { data, .. } => mirror_rows(data, width, bpp),
            Self::Rgb8 { data, .. } => mirror_rows(data, width, bpp),
        }
    }

    /// Rotate by 180 degrees in place: the `len / channels` whole pixels are
    /// reversed.
    fn rotate_180(&mut self)
        ensures
            final(self).has(
                old(self).is_gray(),
                old(self).spec_width(),
                old(self).spec_height(),
                half_turned(old(self).samples(), old(self).spec_channels() as int),
            ),
    {
        let bpp = self.channels() as usize;
        match self {
            Self::Gray8 { data, .. } => reverse_pixels(data, bpp),
            Self::Rgb8 { data, .. } => reverse_pixels(data, bpp),
        }
    }

    /// Turn a quarter clockwise; the result is `height` wide and `width`
    /// high.
    fn rotated_90(self) -> (r: Self)
        requires
            self.samples().len() >= self.spec_width() * self.spec_height() * self.spec_channels(),
        ensures
            r.has(
                self.is_gray(),
                self.spec_height(),
                self.spec_width(),
                quarter_turned(
                    self.samples(),
                    self.spec_width() as int,
                    self.spec_height() as int,
                    self.spec_channels() as int,
                ),
            ),
    {
        let src_w = self.width() as usize;
        let src_h = self.height() as usize;
        let bpp = self.channels() as usize;
        let src = self.data();
        let ghost d = src@;
        let mut dst = vec![0u8; src.len()];
        let ghost n = (src_w * src_h * bpp) as int;
        proof {
            if src_w > 0 && src_h > 0 {
                lemma_quarter_maps(src_w as int, src_h as int, bpp as int);
            } else {
                assert(src_w * src_h * bpp == 0) by (nonlinear_arith)
                    requires src_w == 0 || src_h == 0;
            }
            assert(dst@ =~= quarter_partial(d, src_w as int, src_h as int, bpp as int, 0));
            assert((0 * src_w) * bpp == 0) by (nonlinear_arith);
        }
        let mut y: usize = 0;
        while y < src_h
            invariant
                src@ == d,
                d.len() <= usize::MAX,
                n == src_w * src_h * bpp,
                n <= d.len(),
                bpp > 0,
                y <= src_h,
                dst@ == quarter_partial(d, src_w as int, src_h as int, bpp as int, (y * src_w) * bpp),
            decreases src_h - y,
        {
            let mut x: usize = 0;
            while x < src_w
                invariant
                    src@ == d,
                    d.len() <= usize::MAX,
                    n == src_w * src_h * bpp,
                    n <= d.len(),
                    bpp > 0,
                    y < src_h,
                    x <= src_w,
                    dst@ == quarter_partial(d, src_w as int, src_h as int, bpp as int, (y * src_w + x) * bpp),
                decreases src_w - x,
            {
                proof {
                    lemma_item_in_run(y as int, src_h as int, src_w as int, x as int);
                    assert(src_h * src_w == src_w * src_h) by (nonlinear_arith);
                    lemma_item_in_run((y * src_w + x) as int, (src_w * src_h) as int, bpp as int, 0);
                    lemma_item_in_run(x as int, src_w as int, src_h as int, (src_h - 1 - y) as int);
                    lemma_item_in_run((x * src_h + (src_h - 1 - y)) as int, (src_w * src_h) as int, bpp as int, 0);
                    let p1 = (y * src_w + x) as int;
                    let p2 = (x * src_h + (src_h - 1 - y)) as int;
                    assert(p1 <= p1 * bpp && p2 <= p2 * bpp) by (nonlinear_arith)
                        requires bpp > 0, p1 >= 0, p2 >= 0;
                    assert(y * src_w <= p1 && x * src_h <= p2);
                }
                let from = (y * src_w + x) * bpp;
                let to = (x * src_h + (src_h - 1 - y)) * bpp;
                let mut b: usize = 0;
                while b < bpp
                    invariant
                        src@ == d,
                        d.len() <= usize::MAX,
                        n == src_w * src_h * bpp,
                        n <= d.len(),
                        bpp > 0,
                        y < src_h,
                        x < src_w,
                        b <= bpp,
                        from == (y * src_w + x) * bpp,
                        to == (x * src_h + (src_h - 1 - y)) * bpp,
                        (y * src_w + x) < src_w * src_h,
                        (x * src_h + (src_h - 1 - y)) < src_w * src_h,
                        dst@ == quarter_partial(d, src_w as int, src_h as int, bpp as int, from + b),
                    decreases bpp - b,
                {
                    proof {
                        lemma_item_in_run((y * src_w + x) as int, (src_w * src_h) as int, bpp as int, b as int);
                        lemma_item_in_run((x * src_h + (src_h - 1 - y)) as int, (src_w * src_h) as int, bpp as int, b as int);
                        assert(src_w * src_h * bpp == (src_w * src_h) * bpp) by (nonlinear_arith);
                        lemma_split((y * src_w + x) as int, bpp as int, b as int);
                        lemma_split(y as int, src_w as int, x as int);
                        assert(quarter_target(from + b, src_w as int, src_h as int, bpp as int) == to + b);
                        lemma_quarter_step(d, src_w as int, src_h as int, bpp as int, from + b);
                    }
                    dst.set(to + b, src[from + b]);
                    b += 1;
                }
                proof {
                    assert(from + bpp == (y * src_w + (x + 1)) * bpp) by (nonlinear_arith)
                        requires from == (y * src_w + x) * bpp;
                }
                x += 1;
            }
            proof {
                assert(y * src_w + src_w == (y + 1) * src_w) by (nonlinear_arith);
            }
            y += 1;
        }
        proof {
            assert((y * src_w) * bpp == n) by (nonlinear_arith)
                requires y == src_h, n == src_w * src_h * bpp;
            let fin = quarter_partial(d, src_w as int, src_h as int, bpp as int, n);
            if src_w > 0 && src_h > 0 {
                lemma_quarter_maps(src_w as int, src_h as int, bpp as int);
            }
            assert(fin =~= quarter_turned(d, src_w as int, src_h as int, bpp as int));
        }
        let (width, height) = (self.height(), self.width());
        match self {
            Self::Gray8 { .. } => Self::Gray8 { width, height, data: dst },
            Self::Rgb8 { .. } => Self::Rgb8 { width, height, data: dst },
        }
    }

    /// Rotate clockwise by the given number of quarter turns (0–3; larger
    /// counts wrap modulo 4).
    pub fn rotate_quarters(self, quarters: u8) -> (r: Self)
        requires
            quarters % 4 == 1 || quarters % 4 == 3 ==> self.samples().len() >= self.spec_width()
                * self.spec_height() * self.spec_channels(),
        ensures
            quarters % 4 == 0 ==> r == self,
            quarters % 4 == 1 ==> r.has(
                self.is_gray(),
                self.spec_height(),
                self.spec_width(),
                quarter_turned(
                    self.samples(),
                    self.spec_width() as int,
                    self.spec_height() as int,
                    self.spec_channels() as int,
                ),
            ),
            quarters % 4 == 2 ==> r.has(
                self.is_gray(),
                self.spec_width(),
                self.spec_height(),
                half_turned(self.samples(), self.spec_channels() as int),
            ),
            quarters % 4 == 3 ==> r.has(
                self.is_gray(),
                self.spec_height(),
                self.spec_width(),
                half_turned(
                    quarter_turned(
                        self.samples(),
                        self.spec_width() as int,
                        self.spec_height() as int,
                        self.spec_channels() as int,
                    ),
                    self.spec_channels() as int,
                ),
            ),
    {
        match quarters % 4 {
            1 => self.rotated_90(),
            2 => {
                let mut out = self;
                out.rotate_180();
                out
            },
            3 => {
                let mut out = self.rotated_90();
                out.rotate_180();
                out
            },
            _ => self,
        }
    }

    /// Convert to grayscale (BT.601 luma), a no-op for gray input.
    ///
    /// Each complete RGB triple becomes one luma sample; trailing bytes that
    /// do not make up a triple are dropped.
    pub fn into_gray(self) -> (r: Self)
        ensures
            self.is_gray() ==> r == self,
            !self.is_gray() ==> r.has(
                true,
                self.spec_width(),
                self.spec_height(),
                gray_samples(self.samples()),
            ),
    {
        match self {
            Self::Gray8 { width, height, data } => Self::Gray8 { width, height, data },
            Self::Rgb8 { width, height, data } => {
                let gray = luma_of_triples(&data);
                Self::Gray8 { width, height, data: gray }
            },
        }
    }

    /// Convert to bitonal: grayscale, then a 50% threshold to pure black
    /// or white.
    pub fn into_bitonal(self) -> (r: Self)
        ensures
            r.has(
                true,
                self.spec_width(),
                self.spec_height(),
                thresholded(
                    if self.is_gray() {
                        self.samples()
                    } else {
                        gray_samples(self.samples())
                    },
                ),
            ),
    {
        match self.into_gray() {
            Self::Gray8 { width, height, mut data } => {
                let ghost d = data@;
                let mut i: usize = 0;
                while i < data.len()
                    invariant
                        data@.len() == d.len(),
                        i <= d.len(),
                        forall|j: int| 0 <= j < i ==> data@[j] == #[trigger] threshold(d[j]),
                        forall|j: int| i <= j < d.len() ==> data@[j] == d[j],
                    decreases d.len() - i,
                {
                    let v = if data[i] >= 128 {
                        255
                    } else {
                        0
                    };
                    data.set(i, v);
                    i += 1;
                }
                proof {
                    assert(data@ =~= thresholded(d));
                }
                Self::Gray8 { width, height, data }
            },
            rgb @ Self::Rgb8 { .. } => rgb,  // unreachable: into_gray never returns Rgb8
        }
    }

    /// Allocate a zeroed raster with the same pixel layout.
    ///
    /// Fails when `width * height * channels` overflows `usize`.
    pub fn zeroed_like(&self, width: u32, height: u32) -> (r: Result<Self, RasterError>)
        ensures
            r is Err <==> width * height * self.spec_channels() > usize::MAX,
            r matches Ok(z) ==> z.has(
                self.is_gray(),
                width,
                height,
                Seq::new((width * height * self.spec_channels()) as nat, |i: int| 0u8),
            ),
            r matches Ok(z) ==> z.wf(),
            r matches Err(e) ==> e.0@ == "allocation size overflow"@,
    {
        let channels = self.channels();
        let pixels = match (width as usize).checked_mul(height as usize) {
            Some(n) => n.checked_mul(channels as usize),
            None => None,
        };
        let pixels = match pixels {
            Some(n) => n,
            None => {
                proof {
                    if width * height <= usize::MAX {
                        assert(width * height * channels > usize::MAX);
                    } else {
                        assert(width * height * channels >= width * height) by (nonlinear_arith)
                            requires channels >= 1, width * height >= 0;
                    }
                }
                return Err(RasterError("allocation size overflow".to_owned()));
            },
        };
        let data = vec![0u8; pixels];
        proof {
            assert(data@ =~= Seq::new((width * height * channels) as nat, |i: int| 0u8));
        }
        Ok(match self {
            Self::Gray8 { .. } => Self::Gray8 { width, height, data },
            Self::Rgb8 { .. } => Self::Rgb8 { width, height, data },
        })
    }
}


/// The sequence `d` with the run of `n` items of `size` bytes that starts at
/// `start` reversed item by item (bytes inside an item keep their order).
pub open spec fn reversed_run(d: Seq<u8>, start: int, n: int, size: int) -> Seq<u8> {
    Seq::new(d.len(), |i: int|
        if start <= i < start + n * size {
            d[at(start, n - 1 - (i - start) / size, size, (i - start) % size)]
        } else {
            d[i]
        })
}

/// One luma sample per complete RGB triple.
pub open spec fn gray_samples(d: Seq<u8>) -> Seq<u8> {
    Seq::new((d.len() / 3) as nat, |k: int| luma(d[3 * k], d[3 * k + 1], d[3 * k + 2]))
}

/// Black below 128, white from 128 up.
pub open spec fn threshold(v: u8) -> u8 {
    if v >= 128 {
        255
    } else {
        0
    }
}

pub open spec fn thresholded(d: Seq<u8>) -> Seq<u8> {
    d.map_values(|v: u8| threshold(v))
}

/// All whole pixels of a sample buffer in reverse order: the 180-degree
/// turn of a tightly packed raster.
pub open spec fn half_turned(d: Seq<u8>, size: int) -> Seq<u8> {
    reversed_run(d, 0, d.len() as int / size, size)
}

/// The state of an in-place run reversal after the first `k` item pairs are
/// exchanged, and bytes below `c` of pair `k`.
spec fn reversal_state(d: Seq<u8>, start: int, n: int, size: int, k: int, c: int) -> Seq<u8> {
    Seq::new(d.len(), |i: int|
        if start <= i < start + n * size {
            let p = (i - start) / size;
            let b = (i - start) % size;
            if p < k || p >= n - k || ((p == k || p == n - 1 - k) && b < c) {
                d[at(start, n - 1 - p, size, b)]
            } else {
                d[i]
            }
        } else {
            d[i]
        })
}

proof fn lemma_reversal_step(d: Seq<u8>, cur: Seq<u8>, start: int, n: int, size: int, k: int, c: int)
    requires
        size > 0,
        start >= 0,
        start + n * size <= d.len(),
        0 <= k,
        2 * k < n,
        0 <= c < size,
        cur == reversal_state(d, start, n, size, k, c),
    ensures
        cur.update(at(start, k, size, c), cur[at(start, n - 1 - k, size, c)]).update(
            at(start, n - 1 - k, size, c),
            cur[at(start, k, size, c)],
        ) == reversal_state(d, start, n, size, k, c + 1),
{
    let a = at(start, k, size, c);
    let bb = at(start, n - 1 - k, size, c);
    lemma_item_in_run(k, n, size, c);
    lemma_item_in_run(n - 1 - k, n, size, c);
    lemma_split(k, size, c);
    lemma_split(n - 1 - k, size, c);
    let next = reversal_state(d, start, n, size, k, c + 1);
    let upd = cur.update(a, cur[bb]).update(bb, cur[a]);
    assert forall|i: int| 0 <= i < d.len() implies #[trigger] upd[i] == next[i] by {
        if start <= i < start + n * size {
            lemma_join(i - start, size);
            let p = (i - start) / size;
            let b = (i - start) % size;
            lemma_split(p, size, b);
            if i == a {
            } else if i == bb {
            } else {
                assert(p != k || b != c);
                assert(p != n - 1 - k || b != c);
            }
        }
    }
    assert(upd =~= next);
}

proof fn lemma_reversal_next_pair(d: Seq<u8>, start: int, n: int, size: int, k: int)
    requires
        size > 0,
        start >= 0,
        start + n * size <= d.len(),
        0 <= k,
        2 * k < n,
    ensures
        reversal_state(d, start, n, size, k, size) == reversal_state(d, start, n, size, k + 1, 0),
{
    let x = reversal_state(d, start, n, size, k, size);
    let y = reversal_state(d, start, n, size, k + 1, 0);
    assert forall|i: int| 0 <= i < d.len() implies #[trigger] x[i] == y[i] by {
        if start <= i < start + n * size {
            lemma_join(i - start, size);
        }
    }
    assert(x =~= y);
}

proof fn lemma_reversal_done(d: Seq<u8>, start: int, n: int, size: int)
    requires
        size > 0,
        start >= 0,
        n >= 0,
        start + n * size <= d.len(),
    ensures
        reversal_state(d, start, n, size, n / 2, 0) == reversed_run(d, start, n, size),
        reversal_state(d, start, n, size, 0, 0) == d,
{
    let x = reversal_state(d, start, n, size, n / 2, 0);
    let y = reversed_run(d, start, n, size);
    assert forall|i: int| 0 <= i < d.len() implies #[trigger] x[i] == y[i] by {
        if start <= i < start + n * size {
            lemma_join(i - start, size);
            lemma_quotient_bound(i - start, size, n);
        }
    }
    assert(x =~= y);
    let z = reversal_state(d, start, n, size, 0, 0);
    assert forall|i: int| 0 <= i < d.len() implies #[trigger] z[i] == d[i] by {
        if start <= i < start + n * size {
            lemma_join(i - start, size);
            lemma_quotient_bound(i - start, size, n);
        }
    }
    assert(z =~= d);
}

/// Reverse every complete row of `width` pixels of `bpp` bytes.
fn mirror_rows(data: &mut Vec<u8>, width: usize, bpp: usize)
    requires
        width > 0,
        bpp > 0,
        width * bpp <= usize::MAX,
    ensures
        final(data)@ == mirrored(old(data)@, width as int, bpp as int),
{
    let ghost d = data@;
    let stride = width * bpp;
    proof {
        assert(width * bpp > 0) by (nonlinear_arith) requires width > 0, bpp > 0;
    }
    let rows = data.len() / stride;
    proof {
        lemma_join(d.len() as int, stride as int);
        assert(mirrored_rows(d, width as int, bpp as int, 0) =~= d);
    }
    let mut r: usize = 0;
    while r < rows
        invariant
            width > 0,
            bpp > 0,
            stride == width * bpp,
            stride > 0,
            rows == (d.len() as int) / (stride as int),
            rows * stride <= d.len(),
            d.len() <= usize::MAX,
            r <= rows,
            data@ == mirrored_rows(d, width as int, bpp as int, r as int),
        decreases rows - r,
    {
        proof {
            assert((r + 1) * stride <= rows * stride) by (nonlinear_arith)
                requires r < rows, stride > 0;
            assert((r + 1) * stride == r * stride + stride) by (nonlinear_arith);
            lemma_mirror_row(d, width as int, bpp as int, r as int);
        }
        reverse_run(data, r * stride, width, bpp);
        r += 1;
    }
    proof {
        assert(data@ =~= mirrored(d, width as int, bpp as int));
    }
}

/// Byte `i` of the destination is inside the copied rectangle.
pub open spec fn blit_covers(i: int, dst_w: int, bpp: int, rect: CopyRect, dx: int, dy: int) -> bool {
    let ds = dst_w * bpp;
    &&& ds > 0
    &&& dy <= i / ds < dy + rect.height
    &&& dx * bpp <= i % ds < dx * bpp + rect.width * bpp
}

/// The source byte copied to destination byte `i`.
pub open spec fn blit_source(i: int, dst_w: int, src_w: int, bpp: int, rect: CopyRect, dx: int, dy: int) -> int {
    let ds = dst_w * bpp;
    (rect.src_y + i / ds - dy) * (src_w * bpp) + rect.src_x * bpp + (i % ds - dx * bpp)
}

/// The destination after copying `rect` of the source to (`dx`, `dy`):
/// rows of `rect.width * bpp` bytes, all other bytes unchanged.
pub open spec fn blitted(
    dst: Seq<u8>,
    src: Seq<u8>,
    dst_w: int,
    src_w: int,
    bpp: int,
    rect: CopyRect,
    dx: int,
    dy: int,
) -> Seq<u8> {
    Seq::new(dst.len(), |i: int|
        if blit_covers(i, dst_w, bpp, rect, dx, dy) {
            src[blit_source(i, dst_w, src_w, bpp, rect, dx, dy)]
        } else {
            dst[i]
        })
}

/// Both buffers are long enough for the last copied row (nothing to check
/// when no row is copied), and row strides fit in `usize`.
pub open spec fn blit_fits(
    dst_len: int,
    src_len: int,
    dst_w: int,
    src_w: int,
    bpp: int,
    rect: CopyRect,
    dx: int,
    dy: int,
) -> bool {
    &&& dst_w * bpp <= usize::MAX
    &&& src_w * bpp <= usize::MAX
    &&& rect.height > 0 ==> {
        &&& (rect.src_y + rect.height - 1) * (src_w * bpp) + rect.src_x * bpp + rect.width * bpp <= src_len
        &&& (dy + rect.height - 1) * (dst_w * bpp) + dx * bpp + rect.width * bpp <= dst_len
    }
}

/// Position of destination byte `i` in copy order.
spec fn blit_order(i: int, dst_w: int, bpp: int, rect: CopyRect, dx: int, dy: int) -> int {
    let ds = dst_w * bpp;
    (i / ds - dy) * (rect.width * bpp) + (i % ds - dx * bpp)
}

/// Destination byte written at step `t` of the copy.
spec fn blit_target(t: int, dst_w: int, bpp: int, rect: CopyRect, dx: int, dy: int) -> int {
    let rb = rect.width * bpp;
    (dy + t / rb) * (dst_w * bpp) + dx * bpp + t % rb
}

spec fn blit_partial(
    dst: Seq<u8>,
    src: Seq<u8>,
    dst_w: int,
    src_w: int,
    bpp: int,
    rect: CopyRect,
    dx: int,
    dy: int,
    t: int,
) -> Seq<u8> {
    Seq::new(dst.len(), |i: int|
        if blit_covers(i, dst_w, bpp, rect, dx, dy) && blit_order(i, dst_w, bpp, rect, dx, dy) < t {
            src[blit_source(i, dst_w, src_w, bpp, rect, dx, dy)]
        } else {
            dst[i]
        })
}

proof fn lemma_blit_target(t: int, dst_w: int, bpp: int, rect: CopyRect, dx: int, dy: int)
    requires
        bpp > 0,
        rect.width > 0,
        dx >= 0,
        dy >= 0,
        dx + rect.width <= dst_w,
        0 <= t < rect.height * (rect.width * bpp),
    ensures
        blit_covers(blit_target(t, dst_w, bpp, rect, dx, dy), dst_w, bpp, rect, dx, dy),
        blit_order(blit_target(t, dst_w, bpp, rect, dx, dy), dst_w, bpp, rect, dx, dy) == t,
        (blit_target(t, dst_w, bpp, rect, dx, dy)) / (dst_w * bpp) == dy + t / (rect.width * bpp),
        (blit_target(t, dst_w, bpp, rect, dx, dy)) % (dst_w * bpp) == dx * bpp + t % (rect.width * bpp),
{
    let rb = rect.width * bpp;
    let ds = dst_w * bpp;
    assert(rect.width * bpp > 0) by (nonlinear_arith) requires rect.width > 0, bpp > 0;
    assert(dx * bpp + rb <= ds) by (nonlinear_arith)
        requires dx + rect.width <= dst_w, bpp > 0, rb == rect.width * bpp, ds == dst_w * bpp;
    lemma_join(t, rb);
    lemma_quotient_bound(t, rb, rect.height as int);
    lemma_split(dy + t / rb, ds, dx * bpp + t % rb);
    lemma_split(t / rb, rb, t % rb);
}

proof fn lemma_blit_order(i: int, dst_w: int, bpp: int, rect: CopyRect, dx: int, dy: int)
    requires
        bpp > 0,
        i >= 0,
        dx >= 0,
        blit_covers(i, dst_w, bpp, rect, dx, dy),
    ensures
        0 <= blit_order(i, dst_w, bpp, rect, dx, dy) < rect.height * (rect.width * bpp),
        blit_target(blit_order(i, dst_w, bpp, rect, dx, dy), dst_w, bpp, rect, dx, dy) == i,
{
    let rb = rect.width * bpp;
    let ds = dst_w * bpp;
    lemma_join(i, ds);
    let r = i / ds - dy;
    let c = i % ds - dx * bpp;
    lemma_item_in_run(r, rect.height as int, rb, c);
    lemma_split(r, rb, c);
}

proof fn lemma_blit_step(
    dst: Seq<u8>,
    src: Seq<u8>,
    dst_w: int,
    src_w: int,
    bpp: int,
    rect: CopyRect,
    dx: int,
    dy: int,
    t: int,
)
    requires
        bpp > 0,
        rect.width > 0,
        dx >= 0,
        dy >= 0,
        dx + rect.width <= dst_w,
        0 <= t < rect.height * (rect.width * bpp),
        blit_target(t, dst_w, bpp, rect, dx, dy) < dst.len(),
    ensures
        blit_partial(dst, src, dst_w, src_w, bpp, rect, dx, dy, t).update(
            blit_target(t, dst_w, bpp, rect, dx, dy),
            src[blit_source(blit_target(t, dst_w, bpp, rect, dx, dy), dst_w, src_w, bpp, rect, dx, dy)],
        ) == blit_partial(dst, src, dst_w, src_w, bpp, rect, dx, dy, t + 1),
{
    let tt = blit_target(t, dst_w, bpp, rect, dx, dy);
    lemma_blit_target(t, dst_w, bpp, rect, dx, dy);
    let x = blit_partial(dst, src, dst_w, src_w, bpp, rect, dx, dy, t).update(
        tt,
        src[blit_source(tt, dst_w, src_w, bpp, rect, dx, dy)],
    );
    let y = blit_partial(dst, src, dst_w, src_w, bpp, rect, dx, dy, t + 1);
    assert forall|i: int| 0 <= i < dst.len() implies #[trigger] x[i] == y[i] by {
        if blit_covers(i, dst_w, bpp, rect, dx, dy) && i != tt {
            lemma_blit_order(i, dst_w, bpp, rect, dx, dy);
        }
    }
    assert(x =~= y);
}

/// Copy `rect` of `src` (rows of `src_w` pixels) into `dst` (rows of
/// `dst_w` pixels) at (`dx`, `dy`), row by row.
fn copy_rows(dst: &mut Vec<u8>, src: &[u8], dst_w: u32, src_w: u32, bpp: u32, rect: CopyRect, dx: u32, dy: u32)
    requires
        bpp > 0,
        rect.src_x + rect.width <= src_w,
        dx + rect.width <= dst_w,
        rect.src_y + rect.height <= u32::MAX,
        dy + rect.height <= u32::MAX,
        blit_fits(old(dst)@.len() as int, src@.len() as int, dst_w as int, src_w as int, bpp as int, rect, dx as int, dy as int),
    ensures
        final(dst)@ == blitted(old(dst)@, src@, dst_w as int, src_w as int, bpp as int, rect, dx as int, dy as int),
{
    let ghost d = dst@;
    let _dst_len = dst.len();
    let _src_len = src.len();
    let bpp = bpp as usize;
    let src_stride = src_w as usize * bpp;
    let dst_stride = dst_w as usize * bpp;
    proof {
        assert(rect.width * bpp <= dst_w * bpp) by (nonlinear_arith)
            requires rect.width <= dst_w;
    }
    let row_bytes = rect.width as usize * bpp;
    let ghost rb = row_bytes as int;
    let ghost g = (dst_w as int, src_w as int, bpp as int, rect, dx as int, dy as int);
    proof {
        assert(dst@ =~= blit_partial(d, src@, g.0, g.1, g.2, rect, g.4, g.5, 0));
    }
    let mut row: usize = 0;
    while row < rect.height as usize
        invariant
            bpp > 0,
            rect.src_x + rect.width <= src_w,
            dx + rect.width <= dst_w,
            rect.src_y + rect.height <= u32::MAX,
            dy + rect.height <= u32::MAX,
            blit_fits(d.len() as int, src@.len() as int, dst_w as int, src_w as int, bpp as int, rect, dx as int, dy as int),
            src_stride == src_w * bpp,
            dst_stride == dst_w * bpp,
            row_bytes == rect.width * bpp,
            d.len() <= usize::MAX,
            src@.len() <= usize::MAX,
            row <= rect.height,
            g == (dst_w as int, src_w as int, bpp as int, rect, dx as int, dy as int),
            dst@ == blit_partial(d, src@, g.0, g.1, g.2, rect, g.4, g.5, row * rb),
            rb == row_bytes,
        decreases rect.height - row,
    {
        proof {
            assert((dy + row) * dst_stride <= (dy + rect.height - 1) * dst_stride) by (nonlinear_arith)
                requires row < rect.height, dst_stride >= 0;
            assert((rect.src_y + row) * src_stride <= (rect.src_y + rect.height - 1) * src_stride)
                by (nonlinear_arith)
                requires row < rect.height, src_stride >= 0;
            assert(dx * bpp <= dst_stride) by (nonlinear_arith)
                requires dx <= dst_w, dst_stride == dst_w * bpp;
        }
        let src_off = (rect.src_y as usize + row) * src_stride + rect.src_x as usize * bpp;
        let dst_off = (dy as usize + row) * dst_stride + dx as usize * bpp;
        let mut b: usize = 0;
        while b < row_bytes
            invariant
                bpp > 0,
                rect.src_x + rect.width <= src_w,
                dx + rect.width <= dst_w,
                rect.src_y + rect.height <= u32::MAX,
                dy + rect.height <= u32::MAX,
                blit_fits(d.len() as int, src@.len() as int, dst_w as int, src_w as int, bpp as int, rect, dx as int, dy as int),
                src_stride == src_w * bpp,
                dst_stride == dst_w * bpp,
                row_bytes == rect.width * bpp,
                d.len() <= usize::MAX,
                src@.len() <= usize::MAX,
                row < rect.height,
                b <= row_bytes,
                src_off == (rect.src_y + row) * src_stride + rect.src_x * bpp,
                dst_off == (dy + row) * dst_stride + dx * bpp,
                src_off + row_bytes <= src@.len(),
                dst_off + row_bytes <= d.len(),
                g == (dst_w as int, src_w as int, bpp as int, rect, dx as int, dy as int),
                dst@ == blit_partial(d, src@, g.0, g.1, g.2, rect, g.4, g.5, row * rb + b),
                rb == row_bytes,
            decreases row_bytes - b,
        {
            proof {
                let t = row * rb + b;
                assert(rect.width > 0) by {
                    if rect.width == 0 {
                        assert(rb == 0);
                    }
                }
                lemma_item_in_run(row as int, rect.height as int, rb, b as int);
                lemma_split(row as int, rb, b as int);
                lemma_blit_target(t, g.0, g.2, rect, g.4, g.5);
                assert(blit_target(t, g.0, g.2, rect, g.4, g.5) == dst_off + b);
                assert(blit_source(dst_off + b, g.0, g.1, g.2, rect, g.4, g.5) == src_off + b);
                lemma_blit_step(d, src@, g.0, g.1, g.2, rect, g.4, g.5, t);
            }
            dst.set(dst_off + b, src[src_off + b]);
            b += 1;
        }
        proof {
            assert(row * rb + rb == (row + 1) * rb) by (nonlinear_arith);
        }
        row += 1;
    }
    proof {
        let fin = blit_partial(d, src@, g.0, g.1, g.2, rect, g.4, g.5, row * rb);
        assert forall|i: int| 0 <= i < d.len() implies #[trigger] fin[i] == blitted(d, src@, g.0, g.1, g.2, rect, g.4, g.5)[i] by {
            if blit_covers(i, g.0, g.2, rect, g.4, g.5) {
                lemma_blit_order(i, g.0, g.2, rect, g.4, g.5);
            }
        }
        assert(fin =~= blitted(d, src@, g.0, g.1, g.2, rect, g.4, g.5));
    }
}

/// One luma sample per complete RGB triple of `data`.
fn luma_of_triples(data: &Vec<u8>) -> (gray: Vec<u8>)
    ensures
        gray@ == gray_samples(data@),
{
    let n = data.len() / 3;
    proof {
        lemma_join(data@.len() as int, 3);
    }
    let mut gray: Vec<u8> = Vec::with_capacity(n);
    let mut k: usize = 0;
    while k < n
        invariant
            n == data@.len() / 3,
            3 * n <= data@.len(),
            data@.len() <= usize::MAX,
            k <= n,
            gray@ =~= gray_samples(data@).subrange(0, k as int),
        decreases n - k,
    {
        assert(3 * k + 2 < data@.len());
        let y = pixel_luma(data[3 * k], data[3 * k + 1], data[3 * k + 2]);
        gray.push(y);
        k += 1;
    }
    proof {
        assert(gray@ =~= gray_samples(data@));
    }
    gray
}

/// Reverse the whole pixels of a sample buffer.
fn reverse_pixels(data: &mut Vec<u8>, bpp: usize)
    requires
        bpp > 0,
    ensures
        final(data)@ == reversed_run(old(data)@, 0, old(data)@.len() as int / bpp as int, bpp as int),
{
    let pixels = data.len() / bpp;
    proof {
        lemma_join(data@.len() as int, bpp as int);
    }
    reverse_run(data, 0, pixels, bpp);
}

/// Reverse, item by item, the run of `n` items of `size` bytes at `start`.
fn reverse_run(data: &mut Vec<u8>, start: usize, n: usize, size: usize)
    requires
        size > 0,
        start + n * size <= old(data).len(),
    ensures
        final(data)@ == reversed_run(old(data)@, start as int, n as int, size as int),
{
    let ghost d = data@;
    proof {
        lemma_reversal_done(d, start as int, n as int, size as int);
    }
    let mut k: usize = 0;
    while k < n / 2
        invariant
            size > 0,
            start + n * size <= d.len(),
            d.len() <= usize::MAX,
            k <= n / 2,
            data@ == reversal_state(d, start as int, n as int, size as int, k as int, 0),
        decreases n / 2 - k,
    {
        let j = n - 1 - k;
        let mut c: usize = 0;
        proof {
            lemma_item_in_run(j as int, n as int, size as int, 0);
        }
        while c < size
            invariant
                size > 0,
                start + n * size <= d.len(),
                d.len() <= usize::MAX,
                k < n / 2,
                j == n - 1 - k,
                c <= size,
                data@ == reversal_state(d, start as int, n as int, size as int, k as int, c as int),
            decreases size - c,
        {
            proof {
                lemma_item_in_run(k as int, n as int, size as int, c as int);
                lemma_item_in_run(j as int, n as int, size as int, c as int);
                lemma_reversal_step(d, data@, start as int, n as int, size as int, k as int, c as int);
            }
            let a = start + k * size + c;
            let b = start + j * size + c;
            let va = data[a];
            let vb = data[b];
            data.set(a, vb);
            data.set(b, va);
            c += 1;
        }
        proof {
            lemma_reversal_next_pair(d, start as int, n as int, size as int, k as int);
        }
        k += 1;
    }
}


/// Every complete row of `width` pixels of `size` bytes reversed pixel by
/// pixel; bytes after the last complete row keep their place.
pub open spec fn mirrored(d: Seq<u8>, width: int, size: int) -> Seq<u8> {
    let stride = width * size;
    Seq::new(d.len(), |i: int|
        if i < ((d.len() as int) / stride) * stride {
            let row = i / stride;
            let c = i % stride;
            d[at(row * stride, width - 1 - c / size, size, c % size)]
        } else {
            d[i]
        })
}

/// The first `rows` complete rows mirrored.
spec fn mirrored_rows(d: Seq<u8>, width: int, size: int, rows: int) -> Seq<u8> {
    let stride = width * size;
    Seq::new(d.len(), |i: int|
        if i < rows * stride {
            let row = i / stride;
            let c = i % stride;
            d[at(row * stride, width - 1 - c / size, size, c % size)]
        } else {
            d[i]
        })
}

proof fn lemma_mirror_row(d: Seq<u8>, width: int, size: int, r: int)
    requires
        width > 0,
        size > 0,
        0 <= r,
        (r + 1) * (width * size) <= d.len(),
    ensures
        reversed_run(mirrored_rows(d, width, size, r), r * (width * size), width, size)
            == mirrored_rows(d, width, size, r + 1),
{
    let stride = width * size;
    assert(width * size > 0) by (nonlinear_arith) requires width > 0, size > 0;
    let cur = mirrored_rows(d, width, size, r);
    let x = reversed_run(cur, r * stride, width, size);
    let y = mirrored_rows(d, width, size, r + 1);
    assert((r + 1) * stride == r * stride + stride) by (nonlinear_arith);
    assert forall|i: int| 0 <= i < d.len() implies #[trigger] x[i] == y[i] by {
        lemma_join(i, stride);
        let row = i / stride;
        let c = i % stride;
        if r * stride <= i < r * stride + width * size {
            // inside row r: the row index is r and the in-row offset is i - r*stride
            lemma_split(r, stride, i - r * stride);
            assert(row == r);
            assert(c == i - r * stride);
            lemma_join(c, size);
            lemma_quotient_bound(c, size, width);
            let j = at(r * stride, width - 1 - c / size, size, c % size);
            lemma_item_in_run(width - 1 - c / size, width, size, c % size);
            assert(r * stride <= j < r * stride + stride);
            lemma_split(r, stride, j - r * stride);
            assert(j < r * stride + stride);
            assert(!(j < r * stride));
        } else if i < r * stride {
            assert(row < r) by {
                lemma_quotient_bound(i, stride, r);
            }
        } else {
            if i < (r + 1) * stride {
                assert(false);
            }
            assert(row >= r + 1) by {
                if row <= r {
                    assert(row * stride <= r * stride) by (nonlinear_arith)
                        requires row <= r, stride > 0;
                }
            }
        }
    }
    assert(x =~= y);
}


/// Where byte `i` of a quarter-turned raster comes from: the raster is
/// `w` pixels wide and `h` high before the turn, items are `size` bytes.
pub open spec fn quarter_source(i: int, w: int, h: int, size: int) -> int {
    let q = i / size;
    let x = q / h;
    let c = q % h;
    ((h - 1 - c) * w + x) * size + i % size
}

/// Where source byte `s` lands in the quarter-turned raster.
pub open spec fn quarter_target(s: int, w: int, h: int, size: int) -> int {
    let q = s / size;
    let y = q / w;
    let x = q % w;
    (x * h + (h - 1 - y)) * size + s % size
}

/// A raster `w` pixels wide and `h` high turned a quarter clockwise: source
/// pixel (x, y) lands at column `h - 1 - y` of row `x` in the result, which
/// is `h` wide. Bytes past `w * h` pixels are zero.
pub open spec fn quarter_turned(d: Seq<u8>, w: int, h: int, size: int) -> Seq<u8> {
    Seq::new(d.len(), |i: int|
        if i < w * h * size {
            d[quarter_source(i, w, h, size)]
        } else {
            0u8
        })
}

/// The result buffer after the first `t` source bytes were placed.
spec fn quarter_partial(d: Seq<u8>, w: int, h: int, size: int, t: int) -> Seq<u8> {
    Seq::new(d.len(), |i: int|
        if i < w * h * size && quarter_source(i, w, h, size) < t {
            d[quarter_source(i, w, h, size)]
        } else {
            0u8
        })
}

proof fn lemma_quarter_maps(w: int, h: int, size: int)
    requires
        w > 0,
        h > 0,
        size > 0,
    ensures
        forall|i: int| 0 <= i < w * h * size ==> {
            &&& 0 <= #[trigger] quarter_source(i, w, h, size) < w * h * size
            &&& quarter_target(quarter_source(i, w, h, size), w, h, size) == i
        },
        forall|s: int| 0 <= s < w * h * size ==> {
            &&& 0 <= #[trigger] quarter_target(s, w, h, size) < w * h * size
            &&& quarter_source(quarter_target(s, w, h, size), w, h, size) == s
        },
{
    assert forall|i: int| 0 <= i < w * h * size implies {
        &&& 0 <= #[trigger] quarter_source(i, w, h, size) < w * h * size
        &&& quarter_target(quarter_source(i, w, h, size), w, h, size) == i
    } by {
        lemma_join(i, size);
        let q = i / size;
        let b = i % size;
        assert(w * h * size == (w * h) * size) by (nonlinear_arith);
        lemma_quotient_bound(i, size, w * h);
        assert(w * h == h * w) by (nonlinear_arith);
        lemma_join(q, h);
        lemma_quotient_bound(q, h, w);
        let x = q / h;
        let c = q % h;
        let y = h - 1 - c;
        lemma_item_in_run(y, h, w, x);
        let p = y * w + x;
        lemma_item_in_run(p, w * h, size, b);
        let s = p * size + b;
        lemma_split(p, size, b);
        lemma_split(y, w, x);
        assert(quarter_source(i, w, h, size) == s);
        assert(quarter_target(s, w, h, size) == (x * h + (h - 1 - y)) * size + b);
    }
    assert forall|s: int| 0 <= s < w * h * size implies {
        &&& 0 <= #[trigger] quarter_target(s, w, h, size) < w * h * size
        &&& quarter_source(quarter_target(s, w, h, size), w, h, size) == s
    } by {
        lemma_join(s, size);
        let q = s / size;
        let b = s % size;
        assert(w * h * size == (w * h) * size) by (nonlinear_arith);
        lemma_quotient_bound(s, size, w * h);
        lemma_join(q, w);
        assert(w * h == h * w) by (nonlinear_arith);
        lemma_quotient_bound(q, w, h);
        let y = q / w;
        let x = q % w;
        lemma_item_in_run(x, w, h, h - 1 - y);
        assert(w * h == h * w) by (nonlinear_arith);
        let p = x * h + (h - 1 - y);
        lemma_item_in_run(p, w * h, size, b);
        lemma_split(p, size, b);
        lemma_split(x, h, h - 1 - y);
        assert(quarter_target(s, w, h, size) == p * size + b);
    }
}

proof fn lemma_quarter_step(d: Seq<u8>, w: int, h: int, size: int, t: int)
    requires
        w > 0,
        h > 0,
        size > 0,
        0 <= t < w * h * size,
        w * h * size <= d.len(),
    ensures
        quarter_partial(d, w, h, size, t).update(quarter_target(t, w, h, size), d[t])
            == quarter_partial(d, w, h, size, t + 1),
{
    lemma_quarter_maps(w, h, size);
    let x = quarter_partial(d, w, h, size, t).update(quarter_target(t, w, h, size), d[t]);
    let y = quarter_partial(d, w, h, size, t + 1);
    let tt = quarter_target(t, w, h, size);
    assert forall|i: int| 0 <= i < d.len() implies #[trigger] x[i] == y[i] by {
        if i < w * h * size {
            let s = quarter_source(i, w, h, size);
            if i != tt {
                assert(s != t);
            }
        }
    }
    assert(x =~= y);
}

} // verus!
