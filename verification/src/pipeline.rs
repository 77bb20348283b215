//! Plan execution after decode: resample → quality → mirror → rotate →
//! encode, plus the mapping of a full-resolution crop onto a pyramid level.
//! Pure compute; the caller owns decoding, threading and backpressure.

use vstd::prelude::*;
use fast_image_resize::images::Image;
use fast_image_resize::{FilterType, PixelType, ResizeAlg, ResizeOptions, Resizer};
use vstd::string::StringExecFns;
use crate::codec::CodecError;
use crate::encode::{encode, encoded, encodable, encode_fits, sized_fits, lemma_sized_fits_smaller, signature, starts_with, EncodeError, Format};
use crate::luma::luma;
use crate::image::{
    Raster, RasterError, Picture, SampleLayout, mirrored, gray_samples, thresholded, quarter_turned,
    half_turned,
};

verus! {

/// The quality parameter of an image request.
#[derive(Debug, Clone, Copy, PartialEq, Eq, Structural)]
pub enum Quality {
    Default,
    Color,
    Gray,
    Bitonal,
}

/// A region of the full-resolution image, in source pixels.
#[derive(Debug, Clone, Copy, PartialEq, Eq)]
pub struct CropRect {
    pub x: u32,
    pub y: u32,
    pub w: u32,
    pub h: u32,
}

/// A non-negative rotation angle in degrees, held exactly as the fraction
/// `num / den` of two `u64` values (a binary64 angle `m · 2^e` is such a
/// fraction when it is below 2^64 and `e >= -63`).
#[derive(Debug, Clone, Copy)]
pub struct Degrees {
    num: u64,
    den: u64,
}

impl Degrees {
    #[verifier::type_invariant]
    spec fn positive_denominator(self) -> bool {
        self.den > 0
    }

    pub closed spec fn numerator(self) -> u64 {
        self.num
    }

    pub closed spec fn denominator(self) -> u64 {
        self.den
    }

    /// The angle `num / den`; `None` when `den` is zero.
    pub fn new(num: u64, den: u64) -> (r: Option<Self>)
        ensures
            r is Some <==> den > 0,
            r matches Some(d) ==> d.numerator() == num && d.denominator() == den,
    {
        if den == 0 {
            None
        } else {
            Some(Degrees { num, den })
        }
    }

    /// The angle is zero.
    pub fn is_zero(&self) -> (r: bool)
        ensures
            r == (self.numerator() == 0),
    {
        self.num == 0
    }

    /// For a whole multiple `k` of 90 degrees, the quarter-turn count handed
    /// to the rotation (`k` when it fits in a byte, else 0); `None` for any
    /// other angle.
    pub fn quarter_turns(&self) -> (r: Option<u8>)
        ensures
            r == spec_quarter_turns(*self),
    {
        proof {
            use_type_invariant(self);
        }
        let step = self.den as u128 * 90;
        if self.num as u128 % step == 0 {
            let k = self.num as u128 / step;
            if k > 255 {
                Some(0)
            } else {
                Some(k as u8)
            }
        } else {
            None
        }
    }
}

pub open spec fn spec_quarter_turns(d: Degrees) -> Option<u8> {
    let step: int = d.denominator() * 90;
    let num: int = d.numerator() as int;
    if step != 0 && num % step == 0 {
        let k = num / step;
        if k > 255 {
            Some(0u8)
        } else {
            Some(k as u8)
        }
    } else {
        None
    }
}

/// Everything the pipeline needs to produce one response body.
#[derive(Debug, Clone, Copy)]
pub struct Plan {
    pub crop: CropRect,
    pub out_w: u32,
    pub out_h: u32,
    pub quality: Quality,
    pub mirror: bool,
    pub degrees: Degrees,
    pub format: Format,
}

/// A non-negative ratio `num / den` with `den > 0`.
#[derive(Debug, Clone, Copy, PartialEq, Eq)]
pub struct Ratio {
    pub num: u32,
    pub den: u32,
}

/// How much smaller than the crop the output is: crop width over output
/// width (an output width of 0 counts as 1).
pub fn needed_scale(plan: &Plan) -> (r: Ratio)
    ensures
        r.num == plan.crop.w,
        r.den == if plan.out_w == 0 { 1 } else { plan.out_w },
{
    Ratio { num: plan.crop.w, den: if plan.out_w == 0 { 1 } else { plan.out_w } }
}

/// Pipeline failure, split by who caused it.
#[derive(Debug)]
pub enum PipelineError {
    /// Arbitrary (non-quarter) rotation is not implemented — HTTP 501.
    ArbitraryRotationUnimplemented,
    Codec(CodecError),
    Encode(EncodeError),
    Raster(RasterError),
    Resize(String),
}

impl PipelineError {
    pub open spec fn spec_message(&self) -> Seq<char> {
        match self {
            PipelineError::ArbitraryRotationUnimplemented => "arbitrary rotation is not implemented"@,
            PipelineError::Codec(e) => match e {
                CodecError::Unsupported(m) => m@,
                CodecError::Corrupt(m) => m@,
                CodecError::Raster(r) => "raster error: "@ + r.0@,
            },
            PipelineError::Encode(e) => e.spec_message(),
            PipelineError::Raster(e) => "raster error: "@ + e.0@,
            PipelineError::Resize(m) => "resample failure: "@ + m@,
        }
    }

    /// The human-readable description of the failure.
    pub fn message(&self) -> (r: String)
        ensures
            r@ == self.spec_message(),
    {
        match self {
            PipelineError::ArbitraryRotationUnimplemented => "arbitrary rotation is not implemented".to_owned(),
            PipelineError::Codec(e) => match e {
                CodecError::Unsupported(m) => m.clone(),
                CodecError::Corrupt(m) => m.clone(),
                CodecError::Raster(r) => {
                    let mut out = "raster error: ".to_owned();
                    out.append(r.0.as_str());
                    out
                },
            },
            PipelineError::Encode(e) => e.message(),
            PipelineError::Raster(e) => {
                let mut out = "raster error: ".to_owned();
                out.append(e.0.as_str());
                out
            },
            PipelineError::Resize(m) => {
                let mut out = "resample failure: ".to_owned();
                out.append(m.as_str());
                out
            },
        }
    }
}

/// The quality stage.
pub open spec fn with_quality(p: Picture, q: Quality) -> Picture {
    match q {
        Quality::Default | Quality::Color => p,
        Quality::Gray => grayed(p),
        Quality::Bitonal => Picture {
            gray: true,
            width: p.width,
            height: p.height,
            samples: thresholded(grayed(p).samples),
        },
    }
}

pub open spec fn grayed(p: Picture) -> Picture {
    if p.gray {
        p
    } else {
        Picture { gray: true, width: p.width, height: p.height, samples: gray_samples(p.samples) }
    }
}

/// The mirroring stage.
pub open spec fn with_mirror(p: Picture, mirror: bool) -> Picture {
    if mirror {
        Picture {
            gray: p.gray,
            width: p.width,
            height: p.height,
            samples: mirrored(p.samples, p.width as int, p.channels() as int),
        }
    } else {
        p
    }
}

/// `q` clockwise quarter turns.
pub open spec fn turned(p: Picture, q: u8) -> Picture {
    let c = p.channels() as int;
    if q % 4 == 1 {
        Picture {
            gray: p.gray,
            width: p.height,
            height: p.width,
            samples: quarter_turned(p.samples, p.width as int, p.height as int, c),
        }
    } else if q % 4 == 2 {
        Picture { gray: p.gray, width: p.width, height: p.height, samples: half_turned(p.samples, c) }
    } else if q % 4 == 3 {
        Picture {
            gray: p.gray,
            width: p.height,
            height: p.width,
            samples: half_turned(quarter_turned(p.samples, p.width as int, p.height as int, c), c),
        }
    } else {
        p
    }
}

/// The picture that is encoded for a resampled raster with content `p`:
/// quality, then mirror, then rotation; `None` when the angle is not a
/// multiple of 90 degrees.
pub open spec fn rendered(p: Picture, plan: Plan) -> Option<Picture> {
    let p2 = with_mirror(with_quality(p, plan.quality), plan.mirror);
    if plan.degrees.numerator() == 0 {
        Some(p2)
    } else {
        match spec_quarter_turns(plan.degrees) {
            None => None,
            Some(q) => Some(turned(p2, q)),
        }
    }
}

/// What the pipeline answers for a resampled raster with content `p`: the
/// encoding of the rendered picture, which succeeds exactly when the
/// picture is encodable and then begins with the format's signature; or
/// the refusal of an arbitrary angle.
pub open spec fn finished(p: Picture, plan: Plan, r: Result<Vec<u8>, PipelineError>) -> bool {
    match rendered(p, plan) {
        None => r matches Err(PipelineError::ArbitraryRotationUnimplemented),
        Some(p3) => {
            &&& match r {
                Ok(v) => encoded(p3, plan.format, Ok(v)),
                Err(PipelineError::Encode(e)) => encoded(p3, plan.format, Err(e)),
                _ => false,
            }
            &&& r is Ok <==> encodable(p3, plan.format)
            &&& r matches Ok(v) ==> starts_with(v@, signature(plan.format))
        },
    }
}

/// The inputs on which the stages after resampling run without panicking:
/// mirroring needs a row, quarter turns need the pixels they read, and the
/// encoder's size arithmetic must fit in `usize`.
pub open spec fn finishable(p: Picture, plan: Plan) -> bool {
    let p1 = with_quality(p, plan.quality);
    let p2 = with_mirror(p1, plan.mirror);
    &&& plan.mirror ==> p1.width > 0 && p1.width * p1.channels() <= usize::MAX
    &&& (spec_quarter_turns(plan.degrees) matches Some(q) && plan.degrees.numerator() != 0 && (q % 4 == 1
        || q % 4 == 3)) ==> p2.samples.len() >= p2.width * p2.height * p2.channels()
    &&& rendered(p, plan) matches Some(p3) ==> encode_fits(p3, plan.format)
}

/// Quality, mirror, rotation and encoding of an already resampled raster.
pub fn finish(raster: Raster, plan: &Plan) -> (r: Result<Vec<u8>, PipelineError>)
    requires
        finishable(raster.picture(), *plan),
    ensures
        finished(raster.picture(), *plan, r),
{
    let ghost p = raster.picture();
    let raster = match plan.quality {
        Quality::Default | Quality::Color => raster,
        Quality::Gray => raster.into_gray(),
        Quality::Bitonal => raster.into_bitonal(),
    };
    assert(raster.picture() == with_quality(p, plan.quality));
    let mut raster = raster;
    if plan.mirror {
        raster.mirror();
    }
    assert(raster.picture() == with_mirror(with_quality(p, plan.quality), plan.mirror));
    let raster = if plan.degrees.is_zero() {
        raster
    } else {
        match plan.degrees.quarter_turns() {
            Some(q) => raster.rotate_quarters(q),
            None => return Err(PipelineError::ArbitraryRotationUnimplemented),
        }
    };
    assert(rendered(p, *plan) == Some(raster.picture()));
    match encode(&raster, plan.format) {
        Ok(bytes) => Ok(bytes),
        Err(e) => Err(PipelineError::Encode(e)),
    }
}


/// The message `fast_image_resize` gives when the source buffer is shorter
/// than its dimensions require.
pub open spec fn short_buffer_message() -> Seq<char> {
    "Size of buffer is smaller than required"@
}

/// `fast_image_resize` with the Lanczos3 convolution filter.
///
/// Claims: it fails exactly when the buffer holds fewer than
/// `width * height * channels` bytes (`Image::from_vec_u8`), with that
/// crate's message for it; otherwise it answers the size of the destination
/// image it created (`Image::new(out_w, out_h, ..)`) and its bytes, exactly
/// `out_w * out_h * channels` of them. The resampled values are not stated:
/// the filter coefficients come from `f64::sin` of the platform's math
/// library, which need not agree across machines. One case is exact:
/// a single row kept at its width needs only the vertical pass
/// (`Resizer::do_convolution`), where each output row has the one source
/// row as its only tap, of weight 1 after normalisation
/// (`precompute_coefficients`), i.e. 2^14 at 14 bits of precision
/// (`Normalizer16`); every output row then equals the source row.
#[verifier::external_body]
fn lanczos3_resize(data: Vec<u8>, width: u32, height: u32, layout: SampleLayout, out_w: u32, out_h: u32)
    -> (r: Result<(u32, u32, Vec<u8>), String>)
    requires
        width * height * layout.spec_bytes() <= usize::MAX,
        out_w * out_h * layout.spec_bytes() <= usize::MAX,
    ensures
        r is Err <==> data@.len() < width * height * layout.spec_bytes(),
        r matches Ok((w2, h2, v)) ==> w2 == out_w && h2 == out_h && v@.len() == out_w * out_h * layout.spec_bytes(),
        r matches Ok((w2, h2, v)) ==> (height == 1 && out_w == width ==> forall|i: int|
            0 <= i < v@.len() ==> #[trigger] v@[i] == data@[i % (width * layout.spec_bytes()) as int]),
        r matches Err(m) ==> m@ == short_buffer_message(),
{
    let pixel_type = match layout {
        SampleLayout::Gray8 => PixelType::U8,
        SampleLayout::Rgb8 => PixelType::U8x3,
    };
    let src = match Image::from_vec_u8(width, height, data, pixel_type) {
        Ok(image) => image,
        Err(e) => return Err(e.to_string()),
    };
    let mut dst = Image::new(out_w, out_h, pixel_type);
    let options = ResizeOptions::new().resize_alg(ResizeAlg::Convolution(FilterType::Lanczos3));
    match Resizer::new().resize(&src, &mut dst, &options) {
        Ok(()) => Ok((dst.width(), dst.height(), dst.into_vec())),
        Err(e) => Err(e.to_string()),
    }
}

/// The raster sizes on which resampling runs within `usize`.
pub open spec fn resizable(p: Picture, out_w: u32, out_h: u32) -> bool {
    (p.width != out_w || p.height != out_h) ==> {
        &&& p.width * p.height * p.channels() <= usize::MAX
        &&& out_w * out_h * p.channels() <= usize::MAX
    }
}

/// Lanczos3 resample; identity sizes short-circuit.
fn resize(raster: Raster, out_w: u32, out_h: u32) -> (r: Result<Raster, PipelineError>)
    requires
        resizable(raster.picture(), out_w, out_h),
    ensures
        raster.spec_width() == out_w && raster.spec_height() == out_h ==> r == Ok::<Raster, PipelineError>(raster),
        (raster.spec_width() != out_w || raster.spec_height() != out_h) ==> {
            if raster.samples().len() < raster.spec_width() * raster.spec_height() * raster.spec_channels() {
                r matches Err(PipelineError::Resize(m)) && m@ == short_buffer_message()
            } else {
                r matches Ok(x) && x.is_gray() == raster.is_gray() && x.spec_width() == out_w && x.spec_height()
                    == out_h && x.wf() && (raster.spec_height() == 1 && out_w == raster.spec_width() ==> rows_repeated(
                    x.samples(),
                    raster.samples(),
                    raster.spec_width() * raster.spec_channels(),
                ))
            }
        },
{
    if raster.width() == out_w && raster.height() == out_h {
        return Ok(raster);
    }
    let layout = raster.layout();
    match raster {
        Raster::Gray8 { width, height, data } => match lanczos3_resize(data, width, height, layout, out_w, out_h) {
            Ok((width, height, data)) => Ok(Raster::Gray8 { width, height, data }),
            Err(m) => Err(PipelineError::Resize(m)),
        },
        Raster::Rgb8 { width, height, data } => match lanczos3_resize(data, width, height, layout, out_w, out_h) {
            Ok((width, height, data)) => Ok(Raster::Rgb8 { width, height, data }),
            Err(m) => Err(PipelineError::Resize(m)),
        },
    }
}

/// The inputs on which [`execute`] runs without panicking.
pub open spec fn executable(region: Picture, plan: Plan) -> bool {
    &&& resizable(region, plan.out_w, plan.out_h)
    &&& if region.width == plan.out_w && region.height == plan.out_h {
        finishable(region, plan)
    } else {
        &&& plan.mirror ==> plan.out_w > 0 && plan.out_w * region.channels() <= usize::MAX
        &&& sized_fits(plan.out_w as int, plan.out_h as int, region.channels() as int, plan.format)
    }
}

proof fn lemma_resampled_finishable(p: Picture, plan: Plan)
    requires
        p.samples.len() == p.width * p.height * p.channels(),
        plan.mirror ==> p.width > 0 && p.width * p.channels() <= usize::MAX,
        sized_fits(p.width as int, p.height as int, p.channels() as int, plan.format),
    ensures
        finishable(p, plan),
{
    let p1 = with_quality(p, plan.quality);
    let p2 = with_mirror(p1, plan.mirror);
    let (w, h, c) = (p.width as int, p.height as int, p.channels() as int);
    if !p.gray && (plan.quality == Quality::Gray || plan.quality == Quality::Bitonal) {
        assert(p.samples.len() == (w * h) * 3);
        crate::arith::lemma_split(w * h, 3, 0);
        assert(gray_samples(p.samples).len() == w * h);
        assert(p1.samples.len() == w * h);
        assert(p1.channels() == 1);
    }
    assert(p1.samples.len() == p1.width * p1.height * p1.channels());
    assert(p1.width * p1.channels() <= w * c) by (nonlinear_arith)
        requires p1.width == w, p1.channels() <= c, w >= 0;
    lemma_sized_fits_smaller(w, h, c, p2.channels() as int, plan.format);
    if let Some(p3) = rendered(p, plan) {
        assert(p3.channels() == p2.channels());
        assert((p3.width == w && p3.height == h) || (p3.width == h && p3.height == w));
    }
}

/// What the pipeline answers for a decoded region with content `region`:
/// resampled to the output size (unless it already has it), then finished.
/// The resampled values are those of the resampler, which no clause fixes.
pub open spec fn processed(region: Picture, plan: Plan, r: Result<Vec<u8>, PipelineError>) -> bool {
    if region.width == plan.out_w && region.height == plan.out_h {
        finished(region, plan, r)
    } else if region.samples.len() < region.width * region.height * region.channels() {
        r matches Err(PipelineError::Resize(m)) && m@ == short_buffer_message()
    } else {
        exists|s: Seq<u8>|
            s.len() == plan.out_w * plan.out_h * region.channels() && (region.height == 1 && region.width
                == plan.out_w ==> rows_repeated(s, region.samples, region.width * region.channels()))
                && #[trigger] finished(
                Picture { gray: region.gray, width: plan.out_w, height: plan.out_h, samples: s },
                plan,
                r,
            )
    }
}

/// Every byte of `out` repeats the byte at the same place in the first
/// row (of `stride` bytes) of `src`.
pub open spec fn rows_repeated(out: Seq<u8>, src: Seq<u8>, stride: int) -> bool {
    forall|i: int| 0 <= i < out.len() ==> #[trigger] out[i] == src[i % stride]
}

/// Run the plan on a decoded region: resample to the output size, then
/// quality, mirror, rotation and encoding as [`finish`] states.
pub fn process_region(region: Raster, plan: &Plan) -> (r: Result<Vec<u8>, PipelineError>)
    requires
        executable(region.picture(), *plan),
    ensures
        processed(region.picture(), *plan, r),
{
    let raster = match resize(region, plan.out_w, plan.out_h) {
        Ok(raster) => raster,
        Err(e) => return Err(e),
    };
    proof {
        if region.spec_width() != plan.out_w || region.spec_height() != plan.out_h {
            lemma_resampled_finishable(raster.picture(), *plan);
        }
    }
    let r = finish(raster, plan);
    proof {
        if region.spec_width() != plan.out_w || region.spec_height() != plan.out_h {
            let s = raster.samples();
            assert(raster.picture() == Picture { gray: region.is_gray(), width: plan.out_w, height: plan.out_h, samples: s });
        }
    }
    r
}

/// Execute the plan against a tiled pyramid: decode, through
/// `decode_region`, the window of `level` (the level chosen for
/// [`needed_scale`] of the plan) that covers the crop, as
/// [`decode_window`] maps it; then process the region. A decoder failure
/// is answered as a codec failure.
pub fn execute<D>(level: &PyramidLevel, decode_region: D, plan: &Plan) -> (r: Result<Vec<u8>, PipelineError>) where
    D: FnOnce(usize, Window) -> Result<Raster, CodecError>,

    requires
        call_requires(decode_region, (level.ifd, spec_window(plan.crop, *level))),
        forall|region: Raster|
            #[trigger] call_ensures(
                decode_region,
                (level.ifd, spec_window(plan.crop, *level)),
                Ok::<Raster, CodecError>(region),
            ) ==> executable(region.picture(), *plan),
    ensures
        exists|decoded: Result<Raster, CodecError>|
            #[trigger] call_ensures(decode_region, (level.ifd, spec_window(plan.crop, *level)), decoded) && match decoded {
                Err(e) => r matches Err(PipelineError::Codec(c)) && c == e,
                Ok(region) => processed(region.picture(), *plan, r),
            },
{
    let window = decode_window(plan.crop, level);
    let decoded = decode_region(level.ifd, window);
    match decoded {
        Err(e) => Err(PipelineError::Codec(e)),
        Ok(region) => process_region(region, plan),
    }
}

/// One level of a tiled pyramid: its size and its downscale factor against
/// the full resolution.
#[derive(Debug, Clone, Copy, PartialEq, Eq)]
pub struct PyramidLevel {
    pub ifd: usize,
    pub width: u32,
    pub height: u32,
    pub scale_factor: u32,
}

/// A pixel window of one pyramid level.
#[derive(Debug, Clone, Copy, PartialEq, Eq)]
pub struct Window {
    pub left: u32,
    pub top: u32,
    pub width: u32,
    pub height: u32,
}

/// An integer quotient as a `u32`, saturating; a zero divisor saturates.
pub open spec fn sat(v: int) -> int {
    if v > u32::MAX { u32::MAX as int } else { v }
}

pub open spec fn floor_div(a: int, f: int) -> int {
    if f == 0 { u32::MAX as int } else { sat(a / f) }
}

pub open spec fn ceil_div(a: int, f: int) -> int {
    if f == 0 { u32::MAX as int } else { sat((a + f - 1) / f) }
}

pub open spec fn spec_min(a: int, b: int) -> int {
    if a <= b { a } else { b }
}

/// The window of `level` that covers the full-resolution crop: the start
/// rounds down, the end rounds up, both clamp to the level, and each side
/// is at least one pixel.
pub open spec fn spec_window(crop: CropRect, level: PyramidLevel) -> Window {
    let f = level.scale_factor as int;
    let left = spec_min(floor_div(crop.x as int, f), if level.width == 0 { 0 } else { level.width - 1 });
    let top = spec_min(floor_div(crop.y as int, f), if level.height == 0 { 0 } else { level.height - 1 });
    let right = spec_min(ceil_div(crop.x + crop.w, f), level.width as int);
    let bottom = spec_min(ceil_div(crop.y + crop.h, f), level.height as int);
    Window {
        left: left as u32,
        top: top as u32,
        width: if right - left >= 1 { (right - left) as u32 } else { 1 },
        height: if bottom - top >= 1 { (bottom - top) as u32 } else { 1 },
    }
}

fn floor_quotient(a: u64, f: u32) -> (r: u32)
    ensures
        r == floor_div(a as int, f as int),
{
    if f == 0 {
        u32::MAX
    } else {
        let q = a / f as u64;
        if q > u32::MAX as u64 { u32::MAX } else { q as u32 }
    }
}

fn ceil_quotient(a: u64, f: u32) -> (r: u32)
    requires
        a <= 2 * (u32::MAX as u64),
    ensures
        r == ceil_div(a as int, f as int),
{
    if f == 0 {
        u32::MAX
    } else {
        let q = (a + f as u64 - 1) / f as u64;
        if q > u32::MAX as u64 { u32::MAX } else { q as u32 }
    }
}

/// Map the full-resolution crop into the coordinates of `level`.
pub fn decode_window(crop: CropRect, level: &PyramidLevel) -> (r: Window)
    ensures
        r == spec_window(crop, *level),
{
    let f = level.scale_factor;
    let left = floor_quotient(crop.x as u64, f).min(level.width.saturating_sub(1));
    let top = floor_quotient(crop.y as u64, f).min(level.height.saturating_sub(1));
    let right = ceil_quotient(crop.x as u64 + crop.w as u64, f).min(level.width);
    let bottom = ceil_quotient(crop.y as u64 + crop.h as u64, f).min(level.height);
    proof {
        // a rounded-up end never lies before the rounded-down start
        let fi = f as int;
        if fi > 0 {
            assert((crop.x as int) / fi <= (crop.x + crop.w + fi - 1) / fi) by (nonlinear_arith)
                requires fi > 0, crop.w >= 0, crop.x >= 0;
            assert((crop.y as int) / fi <= (crop.y + crop.h + fi - 1) / fi) by (nonlinear_arith)
                requires fi > 0, crop.h >= 0, crop.y >= 0;
        }
    }
    let width = if right - left >= 1 { right - left } else { 1 };
    let height = if bottom - top >= 1 { bottom - top } else { 1 };
    Window { left, top, width, height }
}

/// The window lies inside its level and is never empty.
pub proof fn law_window_inside_level(crop: CropRect, level: PyramidLevel)
    requires
        level.width >= 1,
        level.height >= 1,
    ensures
        spec_window(crop, level).width >= 1,
        spec_window(crop, level).height >= 1,
        spec_window(crop, level).left + spec_window(crop, level).width <= level.width,
        spec_window(crop, level).top + spec_window(crop, level).height <= level.height,
{
}

proof fn lemma_floor_below(a: int, f: int)
    requires
        f >= 1,
        a >= 0,
    ensures
        (a / f) * f <= a,
        a < (a / f + 1) * f,
{
    assert((a / f) * f <= a) by (nonlinear_arith)
        requires f >= 1, a >= 0;
    assert(a < (a / f + 1) * f) by (nonlinear_arith)
        requires f >= 1, a >= 0;
}

proof fn lemma_ceil_above(a: int, f: int, n: int)
    requires
        f >= 1,
        a >= 0,
        n >= 0,
        a <= n * f,
    ensures
        a <= ((a + f - 1) / f) * f,
        (a + f - 1) / f <= n,
{
    assert(a <= ((a + f - 1) / f) * f) by (nonlinear_arith)
        requires f >= 1, a >= 0;
    assert((a + f - 1) / f <= n) by (nonlinear_arith)
        requires f >= 1, a >= 0, n >= 0, a <= n * f;
}

/// The window, scaled back to full resolution, covers the crop it was
/// derived from, so decoding it loses none of the requested pixels.
pub proof fn law_window_covers_crop(crop: CropRect, level: PyramidLevel)
    requires
        level.scale_factor >= 1,
        level.width >= 1,
        level.height >= 1,
        crop.x + crop.w <= level.width * level.scale_factor,
        crop.y + crop.h <= level.height * level.scale_factor,
    ensures
        spec_window(crop, level).left * level.scale_factor <= crop.x,
        spec_window(crop, level).top * level.scale_factor <= crop.y,
        crop.x + crop.w <= (spec_window(crop, level).left + spec_window(crop, level).width) * level.scale_factor,
        crop.y + crop.h <= (spec_window(crop, level).top + spec_window(crop, level).height) * level.scale_factor,
{
    let f = level.scale_factor as int;
    let w = spec_window(crop, level);
    lemma_floor_below(crop.x as int, f);
    lemma_floor_below(crop.y as int, f);
    lemma_ceil_above(crop.x + crop.w, f, level.width as int);
    lemma_ceil_above(crop.y + crop.h, f, level.height as int);
    assert((crop.x as int) / f <= u32::MAX) by (nonlinear_arith)
        requires f >= 1, crop.x <= u32::MAX;
    assert((crop.y as int) / f <= u32::MAX) by (nonlinear_arith)
        requires f >= 1, crop.y <= u32::MAX;
    let lx = w.left as int;
    let ly = w.top as int;
    // the start rounds down: either the exact quotient or the last column,
    // which lies before a quotient past the level
    if (crop.x as int) / f <= level.width - 1 {
        assert(lx == (crop.x as int) / f);
    } else {
        assert(lx == level.width - 1);
        assert(lx * f <= ((crop.x as int) / f) * f) by (nonlinear_arith)
            requires lx <= (crop.x as int) / f, f >= 1;
    }
    if (crop.y as int) / f <= level.height - 1 {
        assert(ly == (crop.y as int) / f);
    } else {
        assert(ly == level.height - 1);
        assert(ly * f <= ((crop.y as int) / f) * f) by (nonlinear_arith)
            requires ly <= (crop.y as int) / f, f >= 1;
    }
    // the end rounds up and stays inside the level
    let rx = (crop.x + crop.w + f - 1) / f;
    let ry = (crop.y + crop.h + f - 1) / f;
    assert(lx + w.width >= rx);
    assert(ly + w.height >= ry);
    assert(rx * f <= (lx + w.width) * f) by (nonlinear_arith)
        requires rx <= lx + w.width, f >= 1;
    assert(ry * f <= (ly + w.height) * f) by (nonlinear_arith)
        requires ry <= ly + w.height, f >= 1;
}

/// A half turn and a quarter turn commute.
proof fn lemma_quarter_half_commute(d: Seq<u8>, w: int, h: int, size: int)
    requires
        w >= 0,
        h >= 0,
        size > 0,
        d.len() == w * h * size,
    ensures
        half_turned(quarter_turned(d, w, h, size), size) == quarter_turned(half_turned(d, size), w, h, size),
{
    let e = quarter_turned(d, w, h, size);
    assert(e.len() == h * w * size) by (nonlinear_arith)
        requires e.len() == d.len(), d.len() == w * h * size;
    crate::image_laws::law_two_quarter_turns(e, h, w, size);
    crate::image_laws::law_two_quarter_turns(d, w, h, size);
}

proof fn lemma_turns_after_1_1(p: Picture, a: u8, b: u8)
    requires
        p.samples.len() == p.width * p.height * p.channels(),
        a % 4 == 1,
        b % 4 == 1,
    ensures
        turned(turned(p, a), b) == turned(p, 2u8),
{
    let (w, h, c) = (p.width as int, p.height as int, p.channels() as int);
    let d = p.samples;
    let q = quarter_turned(d, w, h, c);
    let hd = half_turned(d, c);
    assert(q.len() == h * w * c) by (nonlinear_arith)
        requires q.len() == d.len(), d.len() == w * h * c;
    crate::image_laws::law_two_quarter_turns(d, w, h, c);
}

proof fn lemma_turns_after_1_2(p: Picture, a: u8, b: u8)
    requires
        p.samples.len() == p.width * p.height * p.channels(),
        a % 4 == 1,
        b % 4 == 2,
    ensures
        turned(turned(p, a), b) == turned(p, 3u8),
{
    let (w, h, c) = (p.width as int, p.height as int, p.channels() as int);
    let d = p.samples;
    let q = quarter_turned(d, w, h, c);
    let hd = half_turned(d, c);
    assert(q.len() == h * w * c) by (nonlinear_arith)
        requires q.len() == d.len(), d.len() == w * h * c;

}

proof fn lemma_turns_after_1_3(p: Picture, a: u8, b: u8)
    requires
        p.samples.len() == p.width * p.height * p.channels(),
        a % 4 == 1,
        b % 4 == 3,
    ensures
        turned(turned(p, a), b) == turned(p, 0u8),
{
    let (w, h, c) = (p.width as int, p.height as int, p.channels() as int);
    let d = p.samples;
    let q = quarter_turned(d, w, h, c);
    let hd = half_turned(d, c);
    assert(q.len() == h * w * c) by (nonlinear_arith)
        requires q.len() == d.len(), d.len() == w * h * c;
    crate::image_laws::law_two_quarter_turns(d, w, h, c);
    crate::image_laws::law_half_turn_twice(d, c);
}

proof fn lemma_turns_after_2_1(p: Picture, a: u8, b: u8)
    requires
        p.samples.len() == p.width * p.height * p.channels(),
        a % 4 == 2,
        b % 4 == 1,
    ensures
        turned(turned(p, a), b) == turned(p, 3u8),
{
    let (w, h, c) = (p.width as int, p.height as int, p.channels() as int);
    let d = p.samples;
    let q = quarter_turned(d, w, h, c);
    let hd = half_turned(d, c);
    assert(q.len() == h * w * c) by (nonlinear_arith)
        requires q.len() == d.len(), d.len() == w * h * c;
    lemma_quarter_half_commute(d, w, h, c);
}

proof fn lemma_turns_after_2_2(p: Picture, a: u8, b: u8)
    requires
        p.samples.len() == p.width * p.height * p.channels(),
        a % 4 == 2,
        b % 4 == 2,
    ensures
        turned(turned(p, a), b) == turned(p, 0u8),
{
    let (w, h, c) = (p.width as int, p.height as int, p.channels() as int);
    let d = p.samples;
    let q = quarter_turned(d, w, h, c);
    let hd = half_turned(d, c);
    assert(q.len() == h * w * c) by (nonlinear_arith)
        requires q.len() == d.len(), d.len() == w * h * c;
    crate::image_laws::law_half_turn_twice(d, c);
}

proof fn lemma_turns_after_2_3(p: Picture, a: u8, b: u8)
    requires
        p.samples.len() == p.width * p.height * p.channels(),
        a % 4 == 2,
        b % 4 == 3,
    ensures
        turned(turned(p, a), b) == turned(p, 1u8),
{
    let (w, h, c) = (p.width as int, p.height as int, p.channels() as int);
    let d = p.samples;
    let q = quarter_turned(d, w, h, c);
    let hd = half_turned(d, c);
    assert(q.len() == h * w * c) by (nonlinear_arith)
        requires q.len() == d.len(), d.len() == w * h * c;
    lemma_quarter_half_commute(d, w, h, c);
    crate::image_laws::law_half_turn_twice(q, c);
}

proof fn lemma_turns_after_3_1(p: Picture, a: u8, b: u8)
    requires
        p.samples.len() == p.width * p.height * p.channels(),
        a % 4 == 3,
        b % 4 == 1,
    ensures
        turned(turned(p, a), b) == turned(p, 0u8),
{
    let (w, h, c) = (p.width as int, p.height as int, p.channels() as int);
    let d = p.samples;
    let q = quarter_turned(d, w, h, c);
    let hd = half_turned(d, c);
    assert(q.len() == h * w * c) by (nonlinear_arith)
        requires q.len() == d.len(), d.len() == w * h * c;
    lemma_quarter_half_commute(q, h, w, c);
    crate::image_laws::law_two_quarter_turns(d, w, h, c);
    crate::image_laws::law_half_turn_twice(d, c);
}

proof fn lemma_turns_after_3_2(p: Picture, a: u8, b: u8)
    requires
        p.samples.len() == p.width * p.height * p.channels(),
        a % 4 == 3,
        b % 4 == 2,
    ensures
        turned(turned(p, a), b) == turned(p, 1u8),
{
    let (w, h, c) = (p.width as int, p.height as int, p.channels() as int);
    let d = p.samples;
    let q = quarter_turned(d, w, h, c);
    let hd = half_turned(d, c);
    assert(q.len() == h * w * c) by (nonlinear_arith)
        requires q.len() == d.len(), d.len() == w * h * c;
    crate::image_laws::law_half_turn_twice(q, c);
}

proof fn lemma_turns_after_3_3(p: Picture, a: u8, b: u8)
    requires
        p.samples.len() == p.width * p.height * p.channels(),
        a % 4 == 3,
        b % 4 == 3,
    ensures
        turned(turned(p, a), b) == turned(p, 2u8),
{
    let (w, h, c) = (p.width as int, p.height as int, p.channels() as int);
    let d = p.samples;
    let q = quarter_turned(d, w, h, c);
    let hd = half_turned(d, c);
    assert(q.len() == h * w * c) by (nonlinear_arith)
        requires q.len() == d.len(), d.len() == w * h * c;
    lemma_quarter_half_commute(q, h, w, c);
    crate::image_laws::law_two_quarter_turns(d, w, h, c);
    crate::image_laws::law_half_turn_twice(hd, c);
}

/// Rotations compose: `a` quarter turns and then `b` more are `a + b`
/// quarter turns (modulo a full turn).
pub proof fn law_turns_compose(p: Picture, a: u8, b: u8)
    requires
        p.samples.len() == p.width * p.height * p.channels(),
    ensures
        turned(turned(p, a), b) == turned(p, ((a % 4 + b % 4) % 4) as u8),
{
    if a % 4 == 0 || b % 4 == 0 {
    } else if a % 4 == 1 && b % 4 == 1 {
        lemma_turns_after_1_1(p, a, b);
    } else if a % 4 == 1 && b % 4 == 2 {
        lemma_turns_after_1_2(p, a, b);
    } else if a % 4 == 1 && b % 4 == 3 {
        lemma_turns_after_1_3(p, a, b);
    } else if a % 4 == 2 && b % 4 == 1 {
        lemma_turns_after_2_1(p, a, b);
    } else if a % 4 == 2 && b % 4 == 2 {
        lemma_turns_after_2_2(p, a, b);
    } else if a % 4 == 2 && b % 4 == 3 {
        lemma_turns_after_2_3(p, a, b);
    } else if a % 4 == 3 && b % 4 == 1 {
        lemma_turns_after_3_1(p, a, b);
    } else if a % 4 == 3 && b % 4 == 2 {
        lemma_turns_after_3_2(p, a, b);
    } else if a % 4 == 3 && b % 4 == 3 {
        lemma_turns_after_3_3(p, a, b);
    }
}

proof fn lemma_rgb_pixels(p: Picture)
    requires
        !p.gray,
        p.samples.len() == p.width * p.height * p.channels(),
    ensures
        p.samples.len() / 3 == p.width * p.height,
{
    assert(p.samples.len() == (p.width * p.height) * 3) by (nonlinear_arith)
        requires p.samples.len() == p.width * p.height * 3;
}

/// The gray quality replaces every RGB pixel by its BT.601 luma (one
/// sample per pixel, as [`Raster::into_gray`] computes it) and leaves a
/// gray image as it is; nothing is thresholded.
pub proof fn law_gray_quality_is_luma(p: Picture, plan: Plan)
    requires
        plan.quality == Quality::Gray,
        !plan.mirror,
        plan.degrees.numerator() == 0,
        p.samples.len() == p.width * p.height * p.channels(),
    ensures
        rendered(p, plan) matches Some(q) && {
            &&& q.gray
            &&& q.width == p.width
            &&& q.height == p.height
            &&& q.samples.len() == p.width * p.height
            &&& forall|i: int|
                0 <= i < q.samples.len() ==> #[trigger] q.samples[i] == if p.gray {
                    p.samples[i]
                } else {
                    luma(p.samples[3 * i], p.samples[3 * i + 1], p.samples[3 * i + 2])
                }
        },
{
    if !p.gray {
        lemma_rgb_pixels(p);
    }
}

/// The bitonal quality is the gray luma thresholded at half: white (255)
/// from 128 up, black (0) below.
pub proof fn law_bitonal_quality_thresholds_luma(p: Picture, plan: Plan)
    requires
        plan.quality == Quality::Bitonal,
        !plan.mirror,
        plan.degrees.numerator() == 0,
        p.samples.len() == p.width * p.height * p.channels(),
    ensures
        rendered(p, plan) matches Some(q) && {
            &&& q.gray
            &&& q.width == p.width
            &&& q.height == p.height
            &&& q.samples.len() == p.width * p.height
            &&& forall|i: int|
                0 <= i < q.samples.len() ==> {
                    let v = if p.gray {
                        p.samples[i]
                    } else {
                        luma(p.samples[3 * i], p.samples[3 * i + 1], p.samples[3 * i + 2])
                    };
                    #[trigger] q.samples[i] == if v >= 128 { 255u8 } else { 0u8 }
                }
        },
{
    if !p.gray {
        lemma_rgb_pixels(p);
    }
}

/// A single row resampled to its own width repeats that row on every
/// output row: the answer is the finishing of exactly that picture.
pub proof fn law_single_row_repeats(region: Picture, plan: Plan, r: Result<Vec<u8>, PipelineError>)
    requires
        processed(region, plan, r),
        region.height == 1,
        region.width == plan.out_w,
        region.samples.len() == region.width * region.channels(),
    ensures
        finished(
            Picture {
                gray: region.gray,
                width: plan.out_w,
                height: plan.out_h,
                samples: Seq::new(
                    (plan.out_w * plan.out_h * region.channels()) as nat,
                    |i: int| region.samples[i % (region.width * region.channels()) as int],
                ),
            },
            plan,
            r,
        ),
{
    let stride = region.width * region.channels();
    let n = (plan.out_w * plan.out_h * region.channels()) as nat;
    let stretched = Seq::new(n, |i: int| region.samples[i % stride as int]);
    assert(region.width * 1 * region.channels() == stride);
    if plan.out_h == 1 {
        assert(n == stride) by (nonlinear_arith)
            requires n == plan.out_w * plan.out_h * region.channels(), plan.out_h == 1, stride == region.width * region.channels(), plan.out_w == region.width;
        assert forall|i: int| 0 <= i < n implies stretched[i] == region.samples[i] by {
            assert(i % (stride as int) == i) by (nonlinear_arith)
                requires 0 <= i < stride;
        }
        assert(stretched =~= region.samples);
    } else {
        let s = choose|s: Seq<u8>|
            s.len() == plan.out_w * plan.out_h * region.channels() && (region.height == 1 && region.width
                == plan.out_w ==> rows_repeated(s, region.samples, region.width * region.channels()))
                && #[trigger] finished(
                Picture { gray: region.gray, width: plan.out_w, height: plan.out_h, samples: s },
                plan,
                r,
            );
        assert(s =~= stretched);
    }
}

} // verus!
