//! The Image Information document (info.json) of the Image API 3.0.
//!
//! Capability is baked in, not toggled: the only inputs are the image
//! itself (dimensions, pyramid structure) and the deployment's numeric
//! limits. Everything else — profile, qualities, formats, features — is a
//! fixed fact of the build, identical for every image.

use vstd::prelude::*;
use crate::encode::Format;

verus! {

/// The v3 `@context` URI.
pub const CONTEXT: &'static str = "http://iiif.io/api/image/3/context.json";
/// The protocol URI, fixed by the Image API.
pub const PROTOCOL: &'static str = "http://iiif.io/api/image";
/// The service type.
pub const SERVICE_TYPE: &'static str = "ImageService3";
/// The compliance level.
pub const PROFILE: &'static str = "level2";

/// Qualities beyond the level-2 requirement that this build always
/// supports.
pub open spec fn spec_extra_qualities() -> Seq<Seq<char>> {
    seq!["color"@, "gray"@, "bitonal"@]
}

/// Formats beyond the level-2 requirement (`jpg`, `png`) that this build
/// encodes: none yet, so none is published.
pub open spec fn spec_extra_formats() -> Seq<Seq<char>> {
    Seq::empty()
}

/// Feature names beyond the level-2 set that this build supports.
pub open spec fn spec_extra_features() -> Seq<Seq<char>> {
    seq![
        "mirroring"@,
        "regionSquare"@,
        "sizeByConfinedWh"@,
        "sizeByDistortedWh"@,
        "sizeByWh"@,
        "sizeUpscaling"@,
    ]
}

pub open spec fn texts(v: Seq<&'static str>) -> Seq<Seq<char>> {
    v.map_values(|s: &'static str| s@)
}

/// The extra qualities, in publication order.
pub fn extra_qualities() -> (r: Vec<&'static str>)
    ensures
        texts(r@) == spec_extra_qualities(),
{
    let r = vec!["color", "gray", "bitonal"];
    assert(texts(r@) =~= spec_extra_qualities());
    r
}

/// The extra formats, in publication order.
pub fn extra_formats() -> (r: Vec<&'static str>)
    ensures
        texts(r@) == spec_extra_formats(),
{
    let r: Vec<&'static str> = Vec::new();
    assert(texts(r@) =~= spec_extra_formats());
    r
}

/// The extra features, in publication order.
pub fn extra_features() -> (r: Vec<&'static str>)
    ensures
        texts(r@) == spec_extra_features(),
{
    let r = vec![
        "mirroring",
        "regionSquare",
        "sizeByConfinedWh",
        "sizeByDistortedWh",
        "sizeByWh",
        "sizeUpscaling",
    ];
    assert(texts(r@) =~= spec_extra_features());
    r
}

/// One entry in `sizes`: a complete scaled version of the full image.
#[derive(Debug, Clone, Copy, PartialEq, Eq)]
pub struct SizeEntry {
    pub width: u32,
    pub height: u32,
}

/// One entry in `tiles`: a tile size plus the scale factors at which that
/// tiling is natively cheap. `height` is absent for square tiles.
#[derive(Debug, Clone, PartialEq, Eq)]
pub struct TileSet {
    pub width: u32,
    pub height: Option<u32>,
    pub scale_factors: Vec<u32>,
}

/// Deployment-level size limits — always published.
#[derive(Debug, Clone, Copy, PartialEq, Eq)]
pub struct Limits {
    pub max_width: u32,
    pub max_height: u32,
    pub max_area: u64,
}

/// Everything the info.json needs about one image: its dimensions and the
/// pyramid structure actually present in the master.
#[derive(Debug, Clone, PartialEq, Eq)]
pub struct ImageDescription {
    pub width: u32,
    pub height: u32,
    /// Tile dimensions and pyramid scale factors; empty for untiled
    /// sources.
    pub tiles: Vec<TileSet>,
    /// Complete scaled sizes derived from the pyramid levels.
    pub sizes: Vec<SizeEntry>,
}

/// The info.json document.
#[derive(Debug, Clone)]
pub struct Info {
    pub context: &'static str,
    pub id: String,
    pub type_: &'static str,
    pub protocol: &'static str,
    pub profile: &'static str,
    pub width: u32,
    pub height: u32,
    pub max_width: u32,
    pub max_height: u32,
    pub max_area: u64,
    pub sizes: Vec<SizeEntry>,
    pub tiles: Vec<TileSet>,
    pub extra_qualities: Vec<&'static str>,
    pub extra_formats: Vec<&'static str>,
    pub extra_features: Vec<&'static str>,
}

/// Two tile-set lists hold the same tile sizes and scale factors.
pub open spec fn same_tiles(a: Seq<TileSet>, b: Seq<TileSet>) -> bool {
    &&& a.len() == b.len()
    &&& forall|i: int| 0 <= i < a.len() ==> {
        &&& #[trigger] a[i].width == b[i].width
        &&& a[i].height == b[i].height
        &&& a[i].scale_factors@ == b[i].scale_factors@
    }
}

fn copy_tiles(tiles: &Vec<TileSet>) -> (r: Vec<TileSet>)
    ensures
        same_tiles(r@, tiles@),
{
    let mut out: Vec<TileSet> = Vec::new();
    let mut i: usize = 0;
    while i < tiles.len()
        invariant
            i <= tiles@.len(),
            out@.len() == i,
            forall|j: int| 0 <= j < i ==> {
                &&& #[trigger] out@[j].width == tiles@[j].width
                &&& out@[j].height == tiles@[j].height
                &&& out@[j].scale_factors@ == tiles@[j].scale_factors@
            },
        decreases tiles@.len() - i,
    {
        let t = &tiles[i];
        out.push(TileSet { width: t.width, height: t.height, scale_factors: t.scale_factors.clone() });
        i += 1;
    }
    out
}

/// `doc` is the document for the image `image` published under `id` with
/// the deployment limits `limits`: the fixed context, type, protocol and
/// profile; the image's size, sizes and tiles; the limits; and the
/// capability lists of the binary.
pub open spec fn describes(doc: Info, id: Seq<char>, image: ImageDescription, limits: Limits) -> bool {
    &&& doc.context == CONTEXT
    &&& doc.id@ == id
    &&& doc.type_ == SERVICE_TYPE
    &&& doc.protocol == PROTOCOL
    &&& doc.profile == PROFILE
    &&& doc.width == image.width
    &&& doc.height == image.height
    &&& doc.max_width == limits.max_width
    &&& doc.max_height == limits.max_height
    &&& doc.max_area == limits.max_area
    &&& doc.sizes@ == image.sizes@
    &&& same_tiles(doc.tiles@, image.tiles@)
    &&& texts(doc.extra_qualities@) == spec_extra_qualities()
    &&& texts(doc.extra_formats@) == spec_extra_formats()
    &&& texts(doc.extra_features@) == spec_extra_features()
}

/// Two documents advertise the same service: context, type, protocol,
/// profile, qualities, formats and features.
pub open spec fn same_capabilities(a: Info, b: Info) -> bool {
    &&& a.context@ == b.context@
    &&& a.type_@ == b.type_@
    &&& a.protocol@ == b.protocol@
    &&& a.profile@ == b.profile@
    &&& texts(a.extra_qualities@) == texts(b.extra_qualities@)
    &&& texts(a.extra_formats@) == texts(b.extra_formats@)
    &&& texts(a.extra_features@) == texts(b.extra_features@)
}

/// Capability is a fact of the binary, not of the image: the documents for
/// any two images, under any ids and limits, advertise the same profile,
/// qualities, formats and features.
pub proof fn law_capabilities_fixed(
    a: Info,
    id_a: Seq<char>,
    image_a: ImageDescription,
    limits_a: Limits,
    b: Info,
    id_b: Seq<char>,
    image_b: ImageDescription,
    limits_b: Limits,
)
    requires
        describes(a, id_a, image_a, limits_a),
        describes(b, id_b, image_b, limits_b),
    ensures
        same_capabilities(a, b),
{
}


/// Published capabilities never lie: every extra format named is one that
/// the encoder serves (`jpg` or `png`), and arbitrary rotation, which the
/// pipeline refuses, is not among the features.
pub proof fn law_capabilities_served(doc: Info, id: Seq<char>, image: ImageDescription, limits: Limits)
    requires
        describes(doc, id, image, limits),
    ensures
        forall|f: Format| #[trigger] texts(doc.extra_formats@).contains(f.spec_name()) ==> (f == Format::Jpg || f
            == Format::Png),
        !texts(doc.extra_features@).contains("rotationArbitrary"@),
{
    reveal_strlit("rotationArbitrary");
    reveal_strlit("mirroring");
    reveal_strlit("regionSquare");
    reveal_strlit("sizeByConfinedWh");
    reveal_strlit("sizeByDistortedWh");
    reveal_strlit("sizeByWh");
    reveal_strlit("sizeUpscaling");
    let features = spec_extra_features();
    assert forall|i: int| 0 <= i < features.len() implies features[i] != "rotationArbitrary"@ by {
        assert(features[i][1] != "rotationArbitrary"@[1] || features[i].len() != "rotationArbitrary"@.len());
    }
}

impl Info {
    /// Assemble the document for one image. `id` is the full base URI of
    /// the image (scheme, server, prefix, identifier — no trailing slash).
    pub fn new(id: String, image: &ImageDescription, limits: Limits) -> (r: Self)
        ensures
            describes(r, id@, *image, limits),
    {
        Self {
            context: CONTEXT,
            id,
            type_: SERVICE_TYPE,
            protocol: PROTOCOL,
            profile: PROFILE,
            width: image.width,
            height: image.height,
            max_width: limits.max_width,
            max_height: limits.max_height,
            max_area: limits.max_area,
            sizes: image.sizes.clone(),
            tiles: copy_tiles(&image.tiles),
            extra_qualities: extra_qualities(),
            extra_formats: extra_formats(),
            extra_features: extra_features(),
        }
    }
}

} // verus!
