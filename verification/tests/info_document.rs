use iiif_core::encode::{encode, EncodeError, Format};
use iiif_core::image::Raster;
use iiif_core::info::{
    extra_features, extra_formats, extra_qualities, ImageDescription, Info, Limits, SizeEntry, TileSet, CONTEXT,
    PROFILE, PROTOCOL, SERVICE_TYPE,
};
use iiif_core::text::push_decimal;

fn image(width: u32, height: u32) -> ImageDescription {
    ImageDescription {
        width,
        height,
        tiles: vec![TileSet { width: 512, height: Some(256), scale_factors: vec![1, 2, 4] }],
        sizes: vec![SizeEntry { width: width / 2, height: height / 2 }, SizeEntry { width, height }],
    }
}

#[test]
fn document_carries_image_and_limits() {
    let limits = Limits { max_width: 8192, max_height: 4096, max_area: 1_000_000 };
    let info = Info::new("http://h/iiif/3/abc".to_owned(), &image(3000, 2000), limits);
    assert_eq!(info.context, "http://iiif.io/api/image/3/context.json");
    assert_eq!(info.context, CONTEXT);
    assert_eq!(info.id, "http://h/iiif/3/abc");
    assert_eq!(info.type_, "ImageService3");
    assert_eq!(info.protocol, "http://iiif.io/api/image");
    assert_eq!(info.profile, "level2");
    assert_eq!((info.width, info.height), (3000, 2000));
    assert_eq!((info.max_width, info.max_height, info.max_area), (8192, 4096, 1_000_000));
    assert_eq!(info.sizes, image(3000, 2000).sizes);
    assert_eq!(info.tiles, image(3000, 2000).tiles);
    assert_eq!(info.extra_qualities, vec!["color", "gray", "bitonal"]);
    assert!(info.extra_formats.is_empty());
    assert_eq!(
        info.extra_features,
        vec![
            "mirroring",
            "regionSquare",
            "sizeByConfinedWh",
            "sizeByDistortedWh",
            "sizeByWh",
            "sizeUpscaling"
        ]
    );
}

#[test]
fn capabilities_do_not_depend_on_the_image() {
    let a = Info::new("a".to_owned(), &image(1, 1), Limits { max_width: 1, max_height: 1, max_area: 1 });
    let b = Info::new(
        "b".to_owned(),
        &ImageDescription { width: 9000, height: 7, tiles: vec![], sizes: vec![] },
        Limits { max_width: 100, max_height: 200, max_area: 300 },
    );
    assert_eq!((a.context, a.type_, a.protocol, a.profile), (b.context, b.type_, b.protocol, b.profile));
    assert_eq!(a.extra_qualities, b.extra_qualities);
    assert_eq!(a.extra_formats, b.extra_formats);
    assert_eq!(a.extra_features, b.extra_features);
    assert_eq!((PROTOCOL, SERVICE_TYPE, PROFILE), (a.protocol, a.type_, a.profile));
    assert_eq!(extra_qualities(), a.extra_qualities);
    assert_eq!(extra_formats(), a.extra_formats);
    assert_eq!(extra_features(), a.extra_features);
}

#[test]
fn decimal_rendering_matches_display() {
    for n in [0u64, 7, 10, 99, 100, 12345, 4294967295, u64::MAX] {
        let mut out = "n=".to_owned();
        push_decimal(&mut out, n);
        assert_eq!(out, format!("n={n}"));
    }
}

#[test]
fn published_capabilities_are_served() {
    let info = Info::new("x".to_owned(), &image(4, 4), Limits { max_width: 1, max_height: 1, max_area: 1 });
    let raster = Raster::Gray8 { width: 1, height: 1, data: vec![0] };
    for name in &info.extra_formats {
        let format = [Format::Jpg, Format::Png, Format::Tif, Format::Jp2, Format::Gif, Format::Pdf, Format::Webp]
            .into_iter()
            .find(|f| f.name() == *name)
            .unwrap();
        assert!(!matches!(encode(&raster, format), Err(EncodeError::UnsupportedFormat(_))));
    }
    assert!(!info.extra_features.contains(&"rotationArbitrary"));
}
