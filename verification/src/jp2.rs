//! JP2 / HTJ2K masters: the decisions around the JPEG 2000 decoder — which
//! layouts are supported, the advertised pyramid, the reduced-resolution
//! level for a request, the decode window, and the crop of a whole-image
//! decode. The decoder itself runs outside this library and hands its
//! results in.

use vstd::prelude::*;
use vstd::string::StringExecFns;
use crate::codec::CodecError;
use crate::image::{Raster, RasterError, SampleLayout, CopyRect};
use crate::info::{ImageDescription, SizeEntry, TileSet};
use crate::pipeline::{CropRect, Ratio};
use crate::text::{decimal, push_decimal};
use crate::luma::{two_pow, lemma_two_pow_monotone};
use crate::image::{blitted};

verus! {

/// Tile size advertised for untiled codestreams: reduced-resolution decode
/// makes any aligned request natively cheap, so the advertised grid is a
/// viewer hint, not a constraint.
pub const DEFAULT_TILE: u32 = 1024;

/// The header facts the JPEG 2000 decoder reports for a codestream.
#[derive(Debug, Clone, Copy, PartialEq, Eq)]
pub struct J2kHeader {
    pub width: u32,
    pub height: u32,
    pub components: u16,
    pub resolution_levels: u8,
    /// Tile width and height of a tiled codestream.
    pub tile: Option<(u32, u32)>,
}

/// Reduced-resolution decode factors the decoder offers.
#[derive(Debug, Clone, Copy, PartialEq, Eq, Structural)]
pub enum Downscale {
    Full,
    Half,
    Quarter,
    Eighth,
}

impl Downscale {
    pub open spec fn spec_denominator(self) -> u32 {
        match self {
            Downscale::Full => 1,
            Downscale::Half => 2,
            Downscale::Quarter => 4,
            Downscale::Eighth => 8,
        }
    }

    /// The integer scale denominator.
    #[verifier::when_used_as_spec(spec_denominator)]
    pub fn denominator(self) -> (r: u32)
        ensures
            r == self.spec_denominator(),
    {
        match self {
            Downscale::Full => 1,
            Downscale::Half => 2,
            Downscale::Quarter => 4,
            Downscale::Eighth => 8,
        }
    }
}

pub open spec fn ceil_quot(a: int, d: int) -> int {
    (a + d - 1) / d
}

pub open spec fn sat_u32(v: int) -> int {
    if v > u32::MAX { u32::MAX as int } else { v }
}

/// The reduced-resolution rectangle covering `roi` at `scale`: start
/// rounded down, end (saturating at `u32::MAX`) rounded up.
pub open spec fn spec_scaled_covering(roi: CropRect, scale: Downscale) -> CropRect {
    let d = scale.spec_denominator() as int;
    let x0 = (roi.x as int) / d;
    let y0 = (roi.y as int) / d;
    let x1 = ceil_quot(sat_u32(roi.x + roi.w), d);
    let y1 = ceil_quot(sat_u32(roi.y + roi.h), d);
    CropRect {
        x: x0 as u32,
        y: y0 as u32,
        w: if x1 >= x0 { (x1 - x0) as u32 } else { 0 },
        h: if y1 >= y0 { (y1 - y0) as u32 } else { 0 },
    }
}

/// The decoder's covering rectangle of `roi` at a reduced resolution.
pub fn scaled_covering(roi: CropRect, scale: Downscale) -> (r: CropRect)
    ensures
        r == spec_scaled_covering(roi, scale),
{
    let d = scale.denominator();
    let x_end = roi.x.saturating_add(roi.w);
    let y_end = roi.y.saturating_add(roi.h);
    let x0 = roi.x / d;
    let y0 = roi.y / d;
    let x1 = ((x_end as u64 + d as u64 - 1) / d as u64) as u32;
    let y1 = ((y_end as u64 + d as u64 - 1) / d as u64) as u32;
    CropRect { x: x0, y: y0, w: x1.saturating_sub(x0), h: y1.saturating_sub(y0) }
}

/// One side of the crop out of a whole-image decode: the region's side,
/// clamped to what the image holds past the region's start, at least 1.
pub open spec fn crop_side(side: u32, total: u32, start: u32) -> u32 {
    let avail = if total >= start { (total - start) as u32 } else { 0u32 };
    let m = if side <= avail { side } else { avail };
    if m >= 1 { m } else { 1 }
}

fn min_then_one(side: u32, avail: u32) -> (r: u32)
    ensures
        r == (if (if side <= avail { side } else { avail }) >= 1 { if side <= avail { side } else { avail } } else { 1 }),
{
    let m = if side <= avail { side } else { avail };
    if m >= 1 { m } else { 1 }
}

/// Wrap raw interleaved samples in the raster variant of `layout`.
pub fn raster_of(layout: SampleLayout, width: u32, height: u32, data: Vec<u8>) -> (r: Raster)
    ensures
        r.spec_layout() == layout,
        r.spec_width() == width,
        r.spec_height() == height,
        r.samples() == data@,
{
    match layout {
        SampleLayout::Gray8 => Raster::Gray8 { width, height, data },
        SampleLayout::Rgb8 => Raster::Rgb8 { width, height, data },
    }
}

/// The reduced-resolution level for a request that needs `needed`
/// downscaling: the deepest of 1/2, 1/4, 1/8 that the codestream's ladder
/// (`levels - 1` steps, at most 3) offers and that is no deeper than
/// `needed`.
pub open spec fn spec_downscale(levels: u8, needed: Ratio) -> Downscale {
    let max_level = if levels - 1 < 3 { levels - 1 } else { 3 };
    if 3 <= max_level && 8 * needed.den <= needed.num {
        Downscale::Eighth
    } else if 2 <= max_level && 4 * needed.den <= needed.num {
        Downscale::Quarter
    } else if 1 <= max_level && 2 * needed.den <= needed.num {
        Downscale::Half
    } else {
        Downscale::Full
    }
}

/// How to run the decoder for one crop request.
#[derive(Debug, Clone, Copy, PartialEq, Eq)]
pub struct Jp2Decode {
    /// Reduced-resolution factor.
    pub scale: Downscale,
    /// Layout of the decoded samples.
    pub layout: SampleLayout,
    /// The requested region in full-resolution pixels.
    pub roi: CropRect,
    /// The covering region at the reduced resolution.
    pub region: CropRect,
    /// Decode the whole image (then crop) instead of the region.
    pub whole: bool,
    /// Width and height of the decoder's output.
    pub out_w: u32,
    pub out_h: u32,
    /// Bytes per output row.
    pub stride: usize,
    /// Size of the output buffer the decoder fills.
    pub buffer_len: usize,
}

/// Why the decoder produced no pixels: its parse of the codestream failed,
/// or the decode itself did (each with the decoder's error text).
#[derive(Debug, Clone, PartialEq, Eq)]
pub enum DecodeFailure {
    Parse(String),
    Decode(String),
}

/// An opened JP2/HTJ2K master: the compressed bytes and the structure the
/// header reports.
pub struct Jp2Master {
    bytes: Vec<u8>,
    width: u32,
    height: u32,
    components: u16,
    resolution_levels: u8,
    tile: (u32, u32),
    /// Whether the image dimensions are exact multiples of the tile size.
    /// The decoder's region decode returns wrong pixels on grids with
    /// partial edge tiles (whole-image decode is correct at every scale),
    /// so such masters take the decode-whole-then-crop path.
    exact_grid: bool,
}

/// The parse failure message for a decoder error text.
pub open spec fn parse_failure(msg: Seq<char>) -> Seq<char> {
    "JP2 parse: "@ + msg
}

/// The decode failure message for a decoder error text.
pub open spec fn decode_failure(msg: Seq<char>) -> Seq<char> {
    "JP2 decode: "@ + msg
}

pub open spec fn unsupported_components(components: u16) -> Seq<char> {
    decimal(components as nat) + "-component JP2 is not yet in the supported matrix"@
}

impl Jp2Master {
    #[verifier::type_invariant]
    spec fn consistent(self) -> bool {
        &&& self.resolution_levels >= 1
        &&& self.components == 1 || self.components == 3
        &&& self.tile.0 > 0
        &&& self.tile.1 > 0
    }

    pub closed spec fn spec_bytes(self) -> Seq<u8> {
        self.bytes@
    }

    pub closed spec fn spec_width(self) -> u32 {
        self.width
    }

    pub closed spec fn spec_height(self) -> u32 {
        self.height
    }

    pub closed spec fn spec_components(self) -> u16 {
        self.components
    }

    pub closed spec fn spec_levels(self) -> u8 {
        self.resolution_levels
    }

    pub closed spec fn spec_tile(self) -> (u32, u32) {
        self.tile
    }

    pub closed spec fn spec_exact_grid(self) -> bool {
        self.exact_grid
    }

    /// Open a master from its bytes and what the decoder's header parse
    /// reported for them (its error text on failure).
    ///
    /// Fails with `Corrupt` when the stream does not parse and with
    /// `Unsupported` for component layouts other than gray or RGB.
    pub fn new(bytes: Vec<u8>, header: Result<J2kHeader, String>) -> (r: Result<Self, CodecError>)
        requires
            header matches Ok(h) ==> ((h.components == 1 || h.components == 3) ==> (h.tile matches Some(t) ==> t.0
                > 0 && t.1 > 0)),
        ensures
            header matches Err(m) ==> (r matches Err(CodecError::Corrupt(e)) && e@ == parse_failure(m@)),
            header matches Ok(h) ==> {
                if h.components != 1 && h.components != 3 {
                    r matches Err(CodecError::Unsupported(e)) && e@ == unsupported_components(h.components)
                } else {
                    r matches Ok(m) && {
                        &&& m.spec_bytes() == bytes@
                        &&& m.spec_width() == h.width
                        &&& m.spec_height() == h.height
                        &&& m.spec_components() == h.components
                        &&& m.spec_levels() == if h.resolution_levels == 0 { 1 } else { h.resolution_levels }
                        &&& m.spec_tile() == match h.tile {
                            Some(t) => t,
                            None => (DEFAULT_TILE, DEFAULT_TILE),
                        }
                        &&& m.spec_exact_grid() == match h.tile {
                            Some(t) => h.width % t.0 == 0 && h.height % t.1 == 0,
                            None => true,
                        }
                    }
                }
            },
    {
        let info = match header {
            Ok(info) => info,
            Err(e) => {
                let mut msg = "JP2 parse: ".to_owned();
                msg.append(e.as_str());
                return Err(CodecError::Corrupt(msg));
            },
        };
        let (width, height) = (info.width, info.height);
        let components = info.components;
        if components != 1 && components != 3 {
            let mut msg = String::new();
            push_decimal(&mut msg, components as u64);
            msg.append("-component JP2 is not yet in the supported matrix");
            return Err(CodecError::Unsupported(msg));
        }
        let resolution_levels = if info.resolution_levels == 0 { 1 } else { info.resolution_levels };
        let tile = match info.tile {
            Some(t) => t,
            None => (DEFAULT_TILE, DEFAULT_TILE),
        };
        let exact_grid = match info.tile {
            None => true,
            Some(_) => width % tile.0 == 0 && height % tile.1 == 0,
        };
        Ok(Self { bytes, width, height, components, resolution_levels, tile, exact_grid })
    }

    /// The compressed codestream.
    pub fn bytes(&self) -> (r: &[u8])
        ensures
            r@ == self.spec_bytes(),
    {
        self.bytes.as_slice()
    }

    /// Full-resolution width and height.
    pub fn dimensions(&self) -> (r: (u32, u32))
        ensures
            r == (self.spec_width(), self.spec_height()),
    {
        (self.width, self.height)
    }

    /// The advertised pyramid: scale factors `1, 2, 4, …` for each
    /// resolution level, one tile set, and the complete size of every level
    /// from smallest to full.
    pub fn describe(&self) -> (r: ImageDescription)
        requires
            self.spec_levels() <= 32,
        ensures
            r.width == self.spec_width(),
            r.height == self.spec_height(),
            r.tiles@.len() == 1,
            r.tiles@[0].width == self.spec_tile().0,
            r.tiles@[0].height == if self.spec_tile().1 == self.spec_tile().0 {
                None
            } else {
                Some(self.spec_tile().1)
            },
            r.tiles@[0].scale_factors@ == Seq::new(self.spec_levels() as nat, |l: int| two_pow(l as nat) as u32),
            r.sizes@ == Seq::new(
                self.spec_levels() as nat,
                |i: int|
                    SizeEntry {
                        width: ceil_quot(self.spec_width() as int, two_pow((self.spec_levels() - 1 - i) as nat) as int) as u32,
                        height: ceil_quot(self.spec_height() as int, two_pow((self.spec_levels() - 1 - i) as nat) as int) as u32,
                    },
            ),
    {
        proof {
            use_type_invariant(self);
        }
        let n = self.resolution_levels as usize;
        let mut scale_factors: Vec<u32> = Vec::new();
        let mut factor: u64 = 1;
        let mut level: usize = 0;
        while level < n
            invariant
                n == self.resolution_levels,
                n <= 32,
                level <= n,
                factor == two_pow(level as nat),
                scale_factors@ == Seq::new(level as nat, |l: int| two_pow(l as nat) as u32),
            decreases n - level,
        {
            proof {
                lemma_two_pow_bounded(level as nat);
            }
            scale_factors.push(factor as u32);
            factor = factor * 2;
            level += 1;
            proof {
                assert(scale_factors@ =~= Seq::new(level as nat, |l: int| two_pow(l as nat) as u32));
            }
        }
        let ghost target = Seq::new(
            n as nat,
            |i: int|
                SizeEntry {
                    width: ceil_quot(self.width as int, two_pow((n - 1 - i) as nat) as int) as u32,
                    height: ceil_quot(self.height as int, two_pow((n - 1 - i) as nat) as int) as u32,
                },
        );
        let mut sizes: Vec<SizeEntry> = Vec::new();
        let mut i: usize = 0;
        while i < n
            invariant
                n == self.resolution_levels,
                n <= 32,
                i <= n,
                scale_factors@ == Seq::new(n as nat, |l: int| two_pow(l as nat) as u32),
                sizes@ == target.subrange(0, i as int),
                target == Seq::new(
                    n as nat,
                    |i: int|
                        SizeEntry {
                            width: ceil_quot(self.width as int, two_pow((n - 1 - i) as nat) as int) as u32,
                            height: ceil_quot(self.height as int, two_pow((n - 1 - i) as nat) as int) as u32,
                        },
                ),
            decreases n - i,
        {
            let f = scale_factors[n - 1 - i];
            proof {
                lemma_two_pow_bounded((n - 1 - i) as nat);
                lemma_two_pow_positive((n - 1 - i) as nat);
            }
            let width = ((self.width as u64 + f as u64 - 1) / f as u64) as u32;
            let height = ((self.height as u64 + f as u64 - 1) / f as u64) as u32;
            proof {
                let fi = f as int;
                assert(ceil_quot(self.width as int, fi) <= self.width) by (nonlinear_arith)
                    requires fi >= 1, self.width >= 0, ceil_quot(self.width as int, fi) == (self.width + fi - 1) / fi;
                assert(ceil_quot(self.height as int, fi) <= self.height) by (nonlinear_arith)
                    requires fi >= 1, self.height >= 0, ceil_quot(self.height as int, fi) == (self.height + fi - 1) / fi;
            }
            sizes.push(SizeEntry { width, height });
            i += 1;
            proof {
                assert(sizes@ =~= target.subrange(0, i as int));
            }
        }
        proof {
            assert(sizes@ =~= target);
        }
        let tile_height = if self.tile.1 == self.tile.0 { None } else { Some(self.tile.1) };
        let mut tiles: Vec<TileSet> = Vec::new();
        tiles.push(TileSet { width: self.tile.0, height: tile_height, scale_factors });
        ImageDescription { width: self.width, height: self.height, tiles, sizes }
    }

    /// The deepest cheap reduced-resolution level for a request needing
    /// `needed` downscaling (see [`spec_downscale`]).
    pub fn downscale_for(&self, needed: Ratio) -> (r: Downscale)
        requires
            needed.den > 0,
        ensures
            r == spec_downscale(self.spec_levels(), needed),
    {
        proof {
            use_type_invariant(self);
        }
        let max_level: u8 = if self.resolution_levels - 1 < 3 { self.resolution_levels - 1 } else { 3 };
        let num = needed.num as u64;
        let den = needed.den as u64;
        let mut choice = Downscale::Full;
        if 1 <= max_level && 2 * den <= num {
            choice = Downscale::Half;
        }
        if 2 <= max_level && 4 * den <= num {
            choice = Downscale::Quarter;
        }
        if 3 <= max_level && 8 * den <= num {
            choice = Downscale::Eighth;
        }
        choice
    }

    /// How to decode `crop` (full-resolution pixels) for a request needing
    /// `needed` downscaling: at the level [`Self::downscale_for`] picks,
    /// the covering region directly when the tile grid is exact, else the
    /// whole image at that level.
    pub open spec fn spec_plan(self, crop: CropRect, needed: Ratio) -> Jp2Decode {
        let scale = spec_downscale(self.spec_levels(), needed);
        let layout = if self.spec_components() == 1 { SampleLayout::Gray8 } else { SampleLayout::Rgb8 };
        let bpp = layout.spec_bytes();
        let region = spec_scaled_covering(crop, scale);
        let d = scale.spec_denominator() as int;
        let full_w = ceil_quot(self.spec_width() as int, d) as u32;
        let full_h = ceil_quot(self.spec_height() as int, d) as u32;
        if self.spec_exact_grid() {
            Jp2Decode {
                scale,
                layout,
                roi: crop,
                region,
                whole: false,
                out_w: region.w,
                out_h: region.h,
                stride: (region.w * bpp) as usize,
                buffer_len: (region.w * bpp * region.h) as usize,
            }
        } else {
            Jp2Decode {
                scale,
                layout,
                roi: crop,
                region,
                whole: true,
                out_w: full_w,
                out_h: full_h,
                stride: (full_w * bpp) as usize,
                buffer_len: (full_w * bpp * full_h) as usize,
            }
        }
    }

    /// The output buffer of the planned decode fits in `usize`.
    pub open spec fn plannable(self, crop: CropRect, needed: Ratio) -> bool {
        let p = self.spec_plan(crop, needed);
        &&& p.out_w * p.layout.spec_bytes() <= usize::MAX
        &&& p.out_w * p.layout.spec_bytes() * p.out_h <= usize::MAX
    }

    /// Whether the decode of `crop` can be planned: its buffer's row and
    /// total length fit in `usize`.
    pub fn can_plan(&self, crop: CropRect, needed: Ratio) -> (r: bool)
        requires
            needed.den > 0,
        ensures
            r == self.plannable(crop, needed),
    {
        let scale = self.downscale_for(needed);
        let bpp: u128 = if self.components == 1 { 1 } else { 3 };
        let region = scaled_covering(crop, scale);
        let d = scale.denominator();
        let (out_w, out_h) = if self.exact_grid {
            (region.w, region.h)
        } else {
            let full_w = ((self.width as u64 + d as u64 - 1) / d as u64) as u32;
            let full_h = ((self.height as u64 + d as u64 - 1) / d as u64) as u32;
            (full_w, full_h)
        };
        let row = out_w as u128 * bpp;
        assert(row * (out_h as u128) <= 3 * 0x1_0000_0000 * 0x1_0000_0000) by (nonlinear_arith)
            requires row <= 3 * 0x1_0000_0000, out_h <= 0xffff_ffff;
        row <= usize::MAX as u128 && row * (out_h as u128) <= usize::MAX as u128
    }

    /// The number of resolution levels of the codestream (at least 1).
    pub fn resolution_levels(&self) -> (r: u8)
        ensures
            r == self.spec_levels(),
    {
        self.resolution_levels
    }

    /// Plan the decode of `crop` (see [`Self::spec_plan`]).
    pub fn plan_decode(&self, crop: CropRect, needed: Ratio) -> (r: Jp2Decode)
        requires
            needed.den > 0,
            self.plannable(crop, needed),
        ensures
            r == self.spec_plan(crop, needed),
            r.buffer_len == r.out_w * r.layout.spec_bytes() * r.out_h,
            r.stride == r.out_w * r.layout.spec_bytes(),
    {
        let scale = self.downscale_for(needed);
        let layout = self.pixel_format();
        let bpp: usize = match layout {
            SampleLayout::Gray8 => 1,
            SampleLayout::Rgb8 => 3,
        };
        let region = scaled_covering(crop, scale);
        let d = scale.denominator();
        let (out_w, out_h, whole) = if self.exact_grid {
            (region.w, region.h, false)
        } else {
            let full_w = ((self.width as u64 + d as u64 - 1) / d as u64) as u32;
            let full_h = ((self.height as u64 + d as u64 - 1) / d as u64) as u32;
            (full_w, full_h, true)
        };
        let stride = out_w as usize * bpp;
        let buffer_len = stride * out_h as usize;
        Jp2Decode { scale, layout, roi: crop, region, whole, out_w, out_h, stride, buffer_len }
    }

    /// The raster for `crop` from the decoder's output for the planned
    /// decode: the decoded region itself, or, after a whole-image decode,
    /// the covering region cropped out of it (clamped to the image and at
    /// least one pixel per side).
    pub fn finish_crop(&self, crop: CropRect, needed: Ratio, decoded: Result<Vec<u8>, DecodeFailure>) -> (r: Result<
        Raster,
        CodecError,
    >)
        requires
            needed.den > 0,
            self.plannable(crop, needed),
            decoded matches Ok(v) ==> v@.len() == self.spec_plan(crop, needed).buffer_len,
        ensures
            ({
                let p = self.spec_plan(crop, needed);
                let gray = p.layout == SampleLayout::Gray8;
                let bpp = p.layout.spec_bytes();
                let copy_w = crop_side(p.region.w, p.out_w, p.region.x);
                let copy_h = crop_side(p.region.h, p.out_h, p.region.y);
                let rect = CopyRect { src_x: p.region.x, src_y: p.region.y, width: copy_w, height: copy_h };
                match decoded {
                    Err(DecodeFailure::Parse(m)) => r matches Err(CodecError::Corrupt(e)) && e@ == parse_failure(m@),
                    Err(DecodeFailure::Decode(m)) => r matches Err(CodecError::Corrupt(e)) && e@
                        == decode_failure(m@),
                    Ok(v) => if !p.whole {
                        r matches Ok(ras) && ras.picture() == (crate::image::Picture {
                            gray,
                            width: p.out_w,
                            height: p.out_h,
                            samples: v@,
                        })
                    } else if copy_w * copy_h * bpp > usize::MAX {
                        r matches Err(CodecError::Raster(e)) && e.0@ == "allocation size overflow"@
                    } else if p.region.x + copy_w > p.out_w || p.region.y + copy_h > p.out_h {
                        r matches Err(CodecError::Raster(e)) && e.0@ == "blit rectangle out of bounds"@
                    } else {
                        r matches Ok(ras) && ras.picture() == (crate::image::Picture {
                            gray,
                            width: copy_w,
                            height: copy_h,
                            samples: blitted(
                                Seq::new((copy_w * copy_h * bpp) as nat, |i: int| 0u8),
                                v@,
                                copy_w as int,
                                p.out_w as int,
                                bpp as int,
                                rect,
                                0,
                                0,
                            ),
                        })
                    },
                }
            }),
    {
        let plan = self.plan_decode(crop, needed);
        let out = match decoded {
            Ok(out) => out,
            Err(DecodeFailure::Parse(e)) => {
                let mut msg = "JP2 parse: ".to_owned();
                msg.append(e.as_str());
                return Err(CodecError::Corrupt(msg));
            },
            Err(DecodeFailure::Decode(e)) => {
                let mut msg = "JP2 decode: ".to_owned();
                msg.append(e.as_str());
                return Err(CodecError::Corrupt(msg));
            },
        };
        if !plan.whole {
            return Ok(raster_of(plan.layout, plan.out_w, plan.out_h, out));
        }
        let full = raster_of(plan.layout, plan.out_w, plan.out_h, out);
        let copy_w = min_then_one(plan.region.w, plan.out_w.saturating_sub(plan.region.x));
        let copy_h = min_then_one(plan.region.h, plan.out_h.saturating_sub(plan.region.y));
        let mut cropped = match full.zeroed_like(copy_w, copy_h) {
            Ok(cropped) => cropped,
            Err(e) => return Err(CodecError::Raster(e)),
        };
        let rect = CopyRect { src_x: plan.region.x, src_y: plan.region.y, width: copy_w, height: copy_h };
        proof {
            let bpp = plan.layout.spec_bytes() as int;
            let (ow, oh) = (plan.out_w as int, plan.out_h as int);
            let (x, y, cw, ch) = (rect.src_x as int, rect.src_y as int, copy_w as int, copy_h as int);
            if x + cw <= ow && y + ch <= oh {
                assert(cw * bpp <= ow * bpp) by (nonlinear_arith) requires cw <= ow, bpp >= 0;
                assert((y + ch - 1) * (ow * bpp) + x * bpp + cw * bpp <= ow * bpp * oh) by (nonlinear_arith)
                    requires x + cw <= ow, y + ch <= oh, bpp >= 1, ch >= 1, x >= 0, y >= 0, cw >= 0;
                assert((0 + ch - 1) * (cw * bpp) + 0 * bpp + cw * bpp == cw * ch * bpp) by (nonlinear_arith);
            }
        }
        match cropped.blit(&full, rect, 0, 0) {
            Ok(()) => Ok(cropped),
            Err(e) => Err(CodecError::Raster(e)),
        }
    }

    /// The layout decoded pixels arrive in: gray for one component, RGB
    /// otherwise.
    pub fn pixel_format(&self) -> (r: SampleLayout)
        ensures
            r == if self.spec_components() == 1 { SampleLayout::Gray8 } else { SampleLayout::Rgb8 },
    {
        if self.components == 1 {
            SampleLayout::Gray8
        } else {
            SampleLayout::Rgb8
        }
    }
}


proof fn lemma_two_pow_positive(e: nat)
    ensures
        two_pow(e) >= 1,
    decreases e,
{
    if e > 0 {
        lemma_two_pow_positive((e - 1) as nat);
    }
}

proof fn lemma_two_pow_bounded(e: nat)
    requires
        e <= 31,
    ensures
        two_pow(e) <= 0x8000_0000,
{
    lemma_two_pow_monotone(e, 31);
    reveal_with_fuel(two_pow, 32);
}

/// The reduced-resolution level is never deeper than the request needs,
/// the decoder's 1/8 ceiling, or the codestream's own ladder.
pub proof fn law_downscale_bounded(levels: u8, needed: Ratio)
    requires
        levels >= 1,
    ensures
        ({
            let d = spec_downscale(levels, needed).spec_denominator();
            &&& d == 1 || d * needed.den <= needed.num
            &&& d <= 8
            &&& d <= two_pow((levels - 1) as nat)
        }),
{
    reveal_with_fuel(two_pow, 4);
    let top = (levels - 1) as nat;
    if top >= 1 {
        lemma_two_pow_monotone(1, top);
    }
    if top >= 2 {
        lemma_two_pow_monotone(2, top);
    }
    if top >= 3 {
        lemma_two_pow_monotone(3, top);
    }
}

/// The reduced-resolution rectangle, scaled back up, covers the request.
pub proof fn law_scaled_covering_covers(roi: CropRect, scale: Downscale)
    requires
        roi.x + roi.w <= u32::MAX,
    ensures
        ({
            let d = scale.spec_denominator() as int;
            let r = spec_scaled_covering(roi, scale);
            &&& r.x * d <= roi.x
            &&& roi.x + roi.w <= (r.x + r.w) * d
        }),
{
    let d = scale.spec_denominator() as int;
    let a = roi.x as int;
    let e = roi.x + roi.w;
    assert((a / d) * d <= a) by (nonlinear_arith)
        requires d >= 1, a >= 0;
    assert(e <= ((e + d - 1) / d) * d) by (nonlinear_arith)
        requires d >= 1, e >= 0;
    assert(a / d <= (e + d - 1) / d) by (nonlinear_arith)
        requires d >= 1, a >= 0, a <= e;
    assert(a / d <= u32::MAX) by (nonlinear_arith)
        requires d >= 1, a >= 0, a <= u32::MAX;
    assert((e + d - 1) / d <= u32::MAX) by (nonlinear_arith)
        requires d >= 1, d <= 8, e >= 0, e <= u32::MAX;
}

proof fn lemma_ceil_quot_bounds(a: int, d: int)
    requires
        a >= 0,
        d >= 1,
    ensures
        ceil_quot(a, d) * d >= a,
        (ceil_quot(a, d) - 1) * d < a || a == 0,
        0 <= ceil_quot(a, d) <= a || a == 0,
{
    assert(((a + d - 1) / d) * d >= a) by (nonlinear_arith)
        requires a >= 0, d >= 1;
    assert(a == 0 || ((a + d - 1) / d - 1) * d < a) by (nonlinear_arith)
        requires a >= 0, d >= 1;
    assert(a == 0 || (0 <= (a + d - 1) / d <= a)) by (nonlinear_arith)
        requires a >= 0, d >= 1;
}

/// A whole-image decode is planned at the size of the reduced-resolution
/// image: each side is the smallest count of pixels that, scaled back up
/// by the level's denominator, covers the full side (the full side divided
/// by the denominator, rounded up), and the buffer holds exactly those
/// rows.
pub proof fn law_whole_plan_is_reduced_image(m: Jp2Master, crop: CropRect, needed: Ratio)
    requires
        !m.spec_exact_grid(),
        m.plannable(crop, needed),
    ensures
        ({
            let p = m.spec_plan(crop, needed);
            let d = p.scale.spec_denominator() as int;
            &&& p.whole
            &&& p.out_w * d >= m.spec_width()
            &&& m.spec_width() > 0 ==> (p.out_w - 1) * d < m.spec_width()
            &&& p.out_h * d >= m.spec_height()
            &&& m.spec_height() > 0 ==> (p.out_h - 1) * d < m.spec_height()
            &&& p.stride == p.out_w * p.layout.spec_bytes()
            &&& p.buffer_len == p.out_w * p.layout.spec_bytes() * p.out_h
        }),
{
    let p = m.spec_plan(crop, needed);
    let d = p.scale.spec_denominator() as int;
    lemma_ceil_quot_bounds(m.spec_width() as int, d);
    lemma_ceil_quot_bounds(m.spec_height() as int, d);
}

} // verus!
