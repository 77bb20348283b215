use iiif_core::codec::CodecError;
use iiif_core::image::{Raster, SampleLayout};
use iiif_core::info::{SizeEntry, TileSet};
use iiif_core::jp2::{scaled_covering, raster_of, DecodeFailure, Downscale, J2kHeader, Jp2Master, DEFAULT_TILE};
use iiif_core::pipeline::{CropRect, Ratio};

fn header(width: u32, height: u32, components: u16, levels: u8, tile: Option<(u32, u32)>) -> J2kHeader {
    J2kHeader { width, height, components, resolution_levels: levels, tile }
}

fn master(h: J2kHeader) -> Jp2Master {
    match Jp2Master::new(vec![1, 2, 3], Ok(h)) {
        Ok(m) => m,
        Err(e) => panic!("unexpected {e:?}"),
    }
}

#[test]
fn unparsable_stream_is_corrupt() {
    match Jp2Master::new(vec![], Err("no SOC marker".to_owned())) {
        Err(CodecError::Corrupt(m)) => assert_eq!(m, "JP2 parse: no SOC marker"),
        _ => panic!("expected a corrupt master"),
    }
}

#[test]
fn four_components_are_unsupported() {
    match Jp2Master::new(vec![], Ok(header(10, 10, 4, 1, None))) {
        Err(CodecError::Unsupported(m)) => assert_eq!(m, "4-component JP2 is not yet in the supported matrix"),
        _ => panic!("expected an unsupported master"),
    }
}

#[test]
fn master_keeps_bytes_and_dimensions() {
    let m = master(header(2000, 1000, 3, 3, None));
    assert_eq!(m.bytes(), &[1, 2, 3]);
    assert_eq!(m.dimensions(), (2000, 1000));
    assert_eq!(m.resolution_levels(), 3);
    assert_eq!(m.pixel_format(), SampleLayout::Rgb8);
    assert_eq!(master(header(5, 5, 1, 0, None)).pixel_format(), SampleLayout::Gray8);
    assert_eq!(master(header(5, 5, 1, 0, None)).resolution_levels(), 1);
}

#[test]
fn describe_mirrors_the_resolution_ladder() {
    let d = master(header(2000, 999, 3, 3, None)).describe();
    assert_eq!((d.width, d.height), (2000, 999));
    assert_eq!(d.tiles, vec![TileSet { width: DEFAULT_TILE, height: None, scale_factors: vec![1, 2, 4] }]);
    assert_eq!(
        d.sizes,
        vec![
            SizeEntry { width: 500, height: 250 },
            SizeEntry { width: 1000, height: 500 },
            SizeEntry { width: 2000, height: 999 },
        ]
    );
}

#[test]
fn describe_reports_rectangular_tiles() {
    let d = master(header(512, 256, 1, 1, Some((256, 128)))).describe();
    assert_eq!(d.tiles, vec![TileSet { width: 256, height: Some(128), scale_factors: vec![1] }]);
    assert_eq!(d.sizes, vec![SizeEntry { width: 512, height: 256 }]);
}

#[test]
fn downscale_follows_need_and_ladder() {
    let deep = master(header(4096, 4096, 1, 6, None));
    assert_eq!(deep.downscale_for(Ratio { num: 1, den: 1 }), Downscale::Full);
    assert_eq!(deep.downscale_for(Ratio { num: 3, den: 1 }), Downscale::Half);
    assert_eq!(deep.downscale_for(Ratio { num: 7, den: 1 }), Downscale::Quarter);
    assert_eq!(deep.downscale_for(Ratio { num: 100, den: 1 }), Downscale::Eighth);
    let shallow = master(header(4096, 4096, 1, 2, None));
    assert_eq!(shallow.downscale_for(Ratio { num: 100, den: 1 }), Downscale::Half);
    assert_eq!(Downscale::Eighth.denominator(), 8);
}

#[test]
fn scaled_covering_rounds_outward() {
    let roi = CropRect { x: 5, y: 6, w: 10, h: 3 };
    assert_eq!(scaled_covering(roi, Downscale::Full), roi);
    assert_eq!(scaled_covering(roi, Downscale::Quarter), CropRect { x: 1, y: 1, w: 3, h: 2 });
    let edge = CropRect { x: u32::MAX - 1, y: 0, w: 10, h: 8 };
    assert_eq!(scaled_covering(edge, Downscale::Eighth), CropRect { x: 536870911, y: 0, w: 1, h: 1 });
}

#[test]
fn region_decode_plan_and_raster() {
    let m = master(header(2000, 1000, 3, 3, None));
    let crop = CropRect { x: 100, y: 100, w: 400, h: 200 };
    let needed = Ratio { num: 8, den: 1 };
    assert!(m.can_plan(crop, needed));
    let p = m.plan_decode(crop, needed);
    assert_eq!(p.scale, Downscale::Quarter);
    assert_eq!(p.region, CropRect { x: 25, y: 25, w: 100, h: 50 });
    assert!(!p.whole);
    assert_eq!((p.out_w, p.out_h, p.stride, p.buffer_len), (100, 50, 300, 15000));
    let raster = m.finish_crop(crop, needed, Ok(vec![7; 15000])).unwrap();
    assert_eq!(raster, Raster::Rgb8 { width: 100, height: 50, data: vec![7; 15000] });
}

#[test]
fn partial_grid_decodes_whole_then_crops() {
    let m = master(header(10, 10, 1, 2, Some((4, 4))));
    let crop = CropRect { x: 2, y: 2, w: 4, h: 4 };
    let needed = Ratio { num: 2, den: 1 };
    let p = m.plan_decode(crop, needed);
    assert_eq!(p.scale, Downscale::Half);
    assert!(p.whole);
    assert_eq!(p.region, CropRect { x: 1, y: 1, w: 2, h: 2 });
    assert_eq!((p.out_w, p.out_h, p.buffer_len), (5, 5, 25));
    let decoded: Vec<u8> = (0..25).collect();
    let raster = m.finish_crop(crop, needed, Ok(decoded)).unwrap();
    assert_eq!(raster, Raster::Gray8 { width: 2, height: 2, data: vec![6, 7, 11, 12] });
}

#[test]
fn decoder_failures_are_corrupt_masters() {
    let m = master(header(8, 8, 1, 1, None));
    let crop = CropRect { x: 0, y: 0, w: 8, h: 8 };
    let needed = Ratio { num: 1, den: 1 };
    match m.finish_crop(crop, needed, Err(DecodeFailure::Decode("truncated".to_owned()))) {
        Err(CodecError::Corrupt(msg)) => assert_eq!(msg, "JP2 decode: truncated"),
        _ => panic!("expected a corrupt master"),
    }
    match m.finish_crop(crop, needed, Err(DecodeFailure::Parse("bad box".to_owned()))) {
        Err(CodecError::Corrupt(msg)) => assert_eq!(msg, "JP2 parse: bad box"),
        _ => panic!("expected a corrupt master"),
    }
}

#[test]
fn raster_of_picks_the_variant() {
    assert_eq!(raster_of(SampleLayout::Gray8, 1, 1, vec![4]), Raster::Gray8 { width: 1, height: 1, data: vec![4] });
    assert_eq!(raster_of(SampleLayout::Rgb8, 1, 1, vec![4, 5, 6]), Raster::Rgb8 { width: 1, height: 1, data: vec![4, 5, 6] });
}

#[test]
fn scaled_rectangle_covers_the_request() {
    for scale in [Downscale::Full, Downscale::Half, Downscale::Quarter, Downscale::Eighth] {
        let d = scale.denominator();
        for (x, w) in [(0, 1), (3, 5), (7, 9), (100, 17), (4096, 4096)] {
            let roi = CropRect { x, y: x, w, h: w };
            let r = scaled_covering(roi, scale);
            assert!(r.x * d <= x && x + w <= (r.x + r.w) * d);
            assert!(r.y * d <= x && x + w <= (r.y + r.h) * d);
        }
    }
}

#[test]
fn downscale_never_deeper_than_needed() {
    for levels in 1..=6u8 {
        let m = master(header(4096, 4096, 3, levels, None));
        for num in 1..=20u32 {
            let d = m.downscale_for(Ratio { num, den: 2 }).denominator();
            assert!(d == 1 || d * 2 <= num);
            assert!(d <= 8 && d <= 1 << (levels - 1));
        }
    }
}
