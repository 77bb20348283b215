//! Output encoders. Level 2 requires `jpg` and `png`; the remaining formats
//! of the table are answered with `UnsupportedFormat`.

use vstd::prelude::*;
use vstd::string::StringExecFns;
use crate::image::{Raster, SampleLayout, Picture};
use crate::text::{decimal, push_decimal};

verus! {

/// Output formats of the Image API table.
#[derive(Debug, Clone, Copy, PartialEq, Eq, Structural)]
pub enum Format {
    Jpg,
    Png,
    Tif,
    Jp2,
    Gif,
    Pdf,
    Webp,
}

impl Format {
    pub open spec fn spec_name(&self) -> Seq<char> {
        match self {
            Format::Jpg => "jpg"@,
            Format::Png => "png"@,
            Format::Tif => "tif"@,
            Format::Jp2 => "jp2"@,
            Format::Gif => "gif"@,
            Format::Pdf => "pdf"@,
            Format::Webp => "webp"@,
        }
    }

    pub open spec fn spec_media_type(&self) -> Seq<char> {
        match self {
            Format::Jpg => "image/jpeg"@,
            Format::Png => "image/png"@,
            Format::Tif => "image/tiff"@,
            Format::Jp2 => "image/jp2"@,
            Format::Gif => "image/gif"@,
            Format::Pdf => "application/pdf"@,
            Format::Webp => "image/webp"@,
        }
    }

    /// The format's extension as written in request URLs.
    pub fn name(&self) -> (r: &'static str)
        ensures
            r@ == self.spec_name(),
    {
        match self {
            Format::Jpg => "jpg",
            Format::Png => "png",
            Format::Tif => "tif",
            Format::Jp2 => "jp2",
            Format::Gif => "gif",
            Format::Pdf => "pdf",
            Format::Webp => "webp",
        }
    }

    /// The media type of responses in this format.
    pub fn media_type(&self) -> (r: &'static str)
        ensures
            r@ == self.spec_media_type(),
    {
        match self {
            Format::Jpg => "image/jpeg",
            Format::Png => "image/png",
            Format::Tif => "image/tiff",
            Format::Jp2 => "image/jp2",
            Format::Gif => "image/gif",
            Format::Pdf => "application/pdf",
            Format::Webp => "image/webp",
        }
    }
}

/// Encoder failure. Client-caused cases (dimensions beyond a format's
/// limits) are 400s; the rest are internal.
#[derive(Debug)]
pub enum EncodeError {
    /// The output dimensions exceed what the format can represent (JPEG
    /// caps at 65535 per side).
    DimensionsBeyondFormat { format: Format, width: u32, height: u32 },
    /// The format is in the Image API table but this build does not encode it.
    UnsupportedFormat(Format),
    /// Internal encoder failure.
    Internal(String),
}

impl EncodeError {
    pub open spec fn spec_message(&self) -> Seq<char> {
        match self {
            EncodeError::DimensionsBeyondFormat { format, width, height } => decimal(*width as nat) + "×"@
                + decimal(*height as nat) + " exceeds what "@ + format.spec_name() + " can represent"@,
            EncodeError::UnsupportedFormat(format) => "format "@ + format.spec_name()
                + " is not supported by this build"@,
            EncodeError::Internal(msg) => "encoder failure: "@ + msg@,
        }
    }

    /// The human-readable description of the failure.
    pub fn message(&self) -> (r: String)
        ensures
            r@ == self.spec_message(),
    {
        match self {
            EncodeError::DimensionsBeyondFormat { format, width, height } => {
                let mut out = String::new();
                push_decimal(&mut out, *width as u64);
                out.append("×");
                push_decimal(&mut out, *height as u64);
                out.append(" exceeds what ");
                out.append(format.name());
                out.append(" can represent");
                out
            },
            EncodeError::UnsupportedFormat(format) => {
                let mut out = "format ".to_owned();
                out.append(format.name());
                out.append(" is not supported by this build");
                out
            },
            EncodeError::Internal(msg) => {
                let mut out = "encoder failure: ".to_owned();
                out.append(msg.as_str());
                out
            },
        }
    }
}

/// JPEG quality used for all lossy output. Fixed: a stable byte stream per
/// URL matters more than a knob.
pub const JPEG_QUALITY: u8 = 85;

/// Bytes or message of an encoder call.
pub open spec fn outcome(r: Result<Vec<u8>, String>) -> Result<Seq<u8>, Seq<char>> {
    match r {
        Ok(v) => Ok(v@),
        Err(m) => Err(m@),
    }
}

/// What `jpeg_encoder` produces for these samples: the JFIF bytes, or the
/// text of its error.
pub uninterp spec fn jpeg_output(samples: Seq<u8>, width: u16, height: u16, layout: SampleLayout, quality: u8)
    -> Result<Seq<u8>, Seq<char>>;

/// What `png` produces for these samples at 8 bits per channel: the PNG
/// bytes, or the text of its error.
pub uninterp spec fn png_output(samples: Seq<u8>, width: u32, height: u32, layout: SampleLayout)
    -> Result<Seq<u8>, Seq<char>>;

/// `bytes` begins with `prefix`.
pub open spec fn starts_with(bytes: Seq<u8>, prefix: Seq<u8>) -> bool {
    bytes.len() >= prefix.len() && bytes.subrange(0, prefix.len() as int) == prefix
}

/// The JPEG start-of-image marker.
pub open spec fn jpeg_signature() -> Seq<u8> {
    seq![0xFFu8, 0xD8u8]
}

/// The PNG file signature.
pub open spec fn png_signature() -> Seq<u8> {
    seq![0x89u8, 0x50u8, 0x4Eu8, 0x47u8, 0x0Du8, 0x0Au8, 0x1Au8, 0x0Au8]
}

/// The leading bytes of a stream in `format`.
pub open spec fn signature(format: Format) -> Seq<u8> {
    match format {
        Format::Png => png_signature(),
        _ => jpeg_signature(),
    }
}

/// The size arithmetic of the encoder for `format` fits in `usize`: PNG
/// needs the whole buffer length and one more; JPEG the sample count of an
/// image it accepts; other formats no arithmetic at all.
pub open spec fn encode_fits(p: Picture, format: Format) -> bool {
    sized_fits(p.width as int, p.height as int, p.channels() as int, format)
}

/// [`encode_fits`] for a `w` × `h` image of `c` channels.
pub open spec fn sized_fits(w: int, h: int, c: int, format: Format) -> bool {
    match format {
        Format::Png => w * c * h + 1 <= usize::MAX,
        Format::Jpg => w <= 65535 && h <= 65535 ==> w * h * c <= usize::MAX,
        _ => true,
    }
}

/// Fewer channels, or the sides exchanged, keep the arithmetic in range.
pub proof fn lemma_sized_fits_smaller(w: int, h: int, c: int, c2: int, format: Format)
    requires
        sized_fits(w, h, c, format),
        w >= 0,
        h >= 0,
        0 <= c2 <= c,
    ensures
        sized_fits(w, h, c2, format),
        sized_fits(h, w, c2, format),
{
    assert(w * c2 * h <= w * c * h) by (nonlinear_arith)
        requires w >= 0, h >= 0, 0 <= c2 <= c;
    assert(h * c2 * w == w * c2 * h) by (nonlinear_arith);
    assert(w * h * c2 <= w * h * c) by (nonlinear_arith)
        requires w >= 0, h >= 0, 0 <= c2 <= c;
    assert(h * w * c2 == w * h * c2) by (nonlinear_arith);
}

/// `jpeg_encoder::Encoder::new(..).encode(..)` into a memory buffer.
///
/// Claims: the result is a function of the arguments; the encoder fails
/// exactly when a side is zero or the buffer is shorter than
/// `width * height * channels` (the source checks both before writing, and
/// writing to a `Vec` cannot fail); the stream begins with the
/// start-of-image marker, written first. The other bytes are not stated.
#[verifier::external_body]
fn jpeg_encode(data: &[u8], width: u16, height: u16, layout: SampleLayout, quality: u8) -> (r: Result<Vec<u8>, String>)
    requires
        width * height * layout.spec_bytes() <= usize::MAX,
    ensures
        outcome(r) == jpeg_output(data@, width, height, layout, quality),
        r is Err <==> width == 0 || height == 0 || data@.len() < width * height * layout.spec_bytes(),
        r matches Ok(v) ==> starts_with(v@, jpeg_signature()),
{
    let color = match layout {
        SampleLayout::Gray8 => jpeg_encoder::ColorType::Luma,
        SampleLayout::Rgb8 => jpeg_encoder::ColorType::Rgb,
    };
    let mut out = Vec::new();
    match jpeg_encoder::Encoder::new(&mut out, quality).encode(data, width, height, color) {
        Ok(()) => Ok(out),
        Err(e) => Err(e.to_string()),
    }
}

/// `png::Encoder` with 8-bit depth, header then image data, into a memory
/// buffer.
///
/// Claims: the result is a function of the arguments; it fails exactly when
/// a side is zero (`write_header`) or the buffer length differs from
/// `width * height * channels` (`write_image_data`); the stream begins with
/// the PNG signature, written first by `write_header`. The other bytes are
/// not stated.
#[verifier::external_body]
fn png_encode(data: &[u8], width: u32, height: u32, layout: SampleLayout) -> (r: Result<Vec<u8>, String>)
    requires
        width * layout.spec_bytes() * height + 1 <= usize::MAX,
    ensures
        outcome(r) == png_output(data@, width, height, layout),
        r is Err <==> width == 0 || height == 0 || data@.len() != width * height * layout.spec_bytes(),
        r matches Ok(v) ==> starts_with(v@, png_signature()),
{
    let mut out = Vec::new();
    let mut encoder = png::Encoder::new(&mut out, width, height);
    encoder.set_color(match layout {
        SampleLayout::Gray8 => png::ColorType::Grayscale,
        SampleLayout::Rgb8 => png::ColorType::Rgb,
    });
    encoder.set_depth(png::BitDepth::Eight);
    let written = match encoder.write_header() {
        Ok(mut writer) => writer.write_image_data(data),
        Err(e) => Err(e),
    };
    match written {
        Ok(()) => Ok(out),
        Err(e) => Err(e.to_string()),
    }
}

/// What [`encode`] answers for a raster with content `p` in `format`.
pub open spec fn encoded(p: Picture, format: Format, r: Result<Vec<u8>, EncodeError>) -> bool {
    match format {
        Format::Jpg => if p.width > 65535 || p.height > 65535 {
            r matches Err(EncodeError::DimensionsBeyondFormat { format: f, width, height })
                && f == Format::Jpg && width == p.width && height == p.height
        } else {
            match jpeg_output(p.samples, p.width as u16, p.height as u16, p.layout(), JPEG_QUALITY) {
                Ok(bytes) => r matches Ok(v) && v@ == bytes,
                Err(msg) => r matches Err(EncodeError::Internal(m)) && m@ == msg,
            }
        },
        Format::Png => match png_output(p.samples, p.width, p.height, p.layout()) {
            Ok(bytes) => r matches Ok(v) && v@ == bytes,
            Err(msg) => r matches Err(EncodeError::Internal(m)) && m@ == msg,
        },
        _ => r matches Err(EncodeError::UnsupportedFormat(f)) && f == format,
    }
}

/// The formats this build encodes succeed exactly on these rasters.
pub open spec fn encodable(p: Picture, format: Format) -> bool {
    match format {
        Format::Jpg => 0 < p.width <= 65535 && 0 < p.height <= 65535 && p.samples.len() >= p.width
            * p.height * p.channels(),
        Format::Png => p.width > 0 && p.height > 0 && p.samples.len() == p.width * p.height * p.channels(),
        _ => false,
    }
}

/// Encode a raster in the requested format.
///
/// `jpg` succeeds for any raster with both sides in 1..=65535 and at least
/// `width * height * channels` samples, `png` for any well-formed raster
/// with both sides non-zero; other formats answer `UnsupportedFormat`.
pub fn encode(raster: &Raster, format: Format) -> (r: Result<Vec<u8>, EncodeError>)
    requires
        encode_fits(raster.picture(), format),
    ensures
        encoded(raster.picture(), format, r),
        r is Ok <==> encodable(raster.picture(), format),
        r matches Ok(v) ==> starts_with(v@, signature(format)),
        format == Format::Jpg && raster.spec_width() <= 65535 && raster.spec_height() <= 65535 ==> (r matches Ok(v)
            ==> jpeg_output(
            raster.samples(),
            raster.spec_width() as u16,
            raster.spec_height() as u16,
            raster.picture().layout(),
            85u8,
        ) == Ok::<Seq<u8>, Seq<char>>(v@)),
{
    match format {
        Format::Jpg => encode_jpeg(raster),
        Format::Png => encode_png(raster),
        other => Err(EncodeError::UnsupportedFormat(other)),
    }
}

fn encode_jpeg(raster: &Raster) -> (r: Result<Vec<u8>, EncodeError>)
    requires
        encode_fits(raster.picture(), Format::Jpg),
    ensures
        encoded(raster.picture(), Format::Jpg, r),
        r is Ok <==> encodable(raster.picture(), Format::Jpg),
        r matches Ok(v) ==> starts_with(v@, jpeg_signature()),
{
    let w = raster.width();
    let h = raster.height();
    if w > 65535 || h > 65535 {
        return Err(EncodeError::DimensionsBeyondFormat { format: Format::Jpg, width: w, height: h });
    }
    let layout = raster.layout();
    proof {
        assert(w * layout.spec_bytes() * h == w * h * layout.spec_bytes()) by (nonlinear_arith);
    }
    match jpeg_encode(raster.data(), w as u16, h as u16, layout, JPEG_QUALITY) {
        Ok(out) => Ok(out),
        Err(msg) => Err(EncodeError::Internal(msg)),
    }
}

fn encode_png(raster: &Raster) -> (r: Result<Vec<u8>, EncodeError>)
    requires
        encode_fits(raster.picture(), Format::Png),
    ensures
        encoded(raster.picture(), Format::Png, r),
        r is Ok <==> encodable(raster.picture(), Format::Png),
        r matches Ok(v) ==> starts_with(v@, png_signature()),
{
    let layout = raster.layout();
    proof {
        let (w, h) = (raster.spec_width(), raster.spec_height());
        assert(w * layout.spec_bytes() * h == w * h * layout.spec_bytes()) by (nonlinear_arith);
    }
    match png_encode(raster.data(), raster.width(), raster.height(), layout) {
        Ok(out) => Ok(out),
        Err(msg) => Err(EncodeError::Internal(msg)),
    }
}

/// Encoding is stable: the same pixels in the same format always give the
/// same bytes, or fail alike (the fixed quality exists for this).
pub proof fn law_stable_encoding(
    p: Picture,
    format: Format,
    r1: Result<Vec<u8>, EncodeError>,
    r2: Result<Vec<u8>, EncodeError>,
)
    requires
        encoded(p, format, r1),
        encoded(p, format, r2),
    ensures
        r1 is Ok <==> r2 is Ok,
        r1 matches Ok(a) ==> (r2 matches Ok(b) && a@ == b@),
{
}

/// JPEG answers are the encoder's output at the fixed quality 85, for any
/// picture within the format's limits: its bytes, or its error text.
pub proof fn law_jpeg_at_quality_85(p: Picture, r: Result<Vec<u8>, EncodeError>)
    requires
        encoded(p, Format::Jpg, r),
        p.width <= 65535,
        p.height <= 65535,
    ensures
        r matches Ok(v) ==> jpeg_output(p.samples, p.width as u16, p.height as u16, p.layout(), 85u8) == Ok::<
            Seq<u8>,
            Seq<char>,
        >(v@),
        r matches Err(EncodeError::Internal(m)) ==> jpeg_output(
            p.samples,
            p.width as u16,
            p.height as u16,
            p.layout(),
            85u8,
        ) == Err::<Seq<u8>, Seq<char>>(m@),
        r is Ok || r is Err && (r->Err_0 is Internal),
{
}

} // verus!
