use iiif_core::codec::CodecError;
use iiif_core::encode::{encode, EncodeError, Format};
use iiif_core::image::{Raster, RasterError};
use iiif_core::pipeline::{
    decode_window, execute, finish, process_region, needed_scale, CropRect, Degrees, PipelineError, Plan, PyramidLevel, Quality,
    Ratio, Window,
};

fn plan(out_w: u32, out_h: u32, quality: Quality, mirror: bool, degrees: (u64, u64), format: Format) -> Plan {
    Plan {
        crop: CropRect { x: 0, y: 0, w: out_w, h: out_h },
        out_w,
        out_h,
        quality,
        mirror,
        degrees: Degrees::new(degrees.0, degrees.1).unwrap(),
        format,
    }
}

fn decode_png(bytes: &[u8]) -> (u32, u32, Vec<u8>) {
    let decoder = png::Decoder::new(std::io::Cursor::new(bytes.to_vec()));
    let mut reader = decoder.read_info().unwrap();
    let mut buf = vec![0; reader.output_buffer_size().unwrap()];
    let info = reader.next_frame(&mut buf).unwrap();
    buf.truncate(info.buffer_size());
    (info.width, info.height, buf)
}

#[test]
fn degrees_need_a_denominator() {
    assert!(Degrees::new(90, 0).is_none());
    assert!(Degrees::new(0, 1).unwrap().is_zero());
    assert!(!Degrees::new(45, 2).unwrap().is_zero());
}

#[test]
fn quarter_turns_of_angles() {
    assert_eq!(Degrees::new(0, 1).unwrap().quarter_turns(), Some(0));
    assert_eq!(Degrees::new(90, 1).unwrap().quarter_turns(), Some(1));
    assert_eq!(Degrees::new(540, 2).unwrap().quarter_turns(), Some(3));
    assert_eq!(Degrees::new(360, 1).unwrap().quarter_turns(), Some(4));
    assert_eq!(Degrees::new(45, 1).unwrap().quarter_turns(), None);
    assert_eq!(Degrees::new(181, 2).unwrap().quarter_turns(), None);
    assert_eq!(Degrees::new(90 * 256, 1).unwrap().quarter_turns(), Some(0));
}

#[test]
fn needed_scale_is_crop_over_output_width() {
    let mut p = plan(100, 50, Quality::Default, false, (0, 1), Format::Png);
    p.crop = CropRect { x: 0, y: 0, w: 400, h: 200 };
    assert_eq!(needed_scale(&p), Ratio { num: 400, den: 100 });
    p.out_w = 0;
    assert_eq!(needed_scale(&p), Ratio { num: 400, den: 1 });
}

#[test]
fn execute_without_resampling_encodes_the_region() {
    let region = Raster::Gray8 { width: 3, height: 2, data: vec![1, 2, 3, 4, 5, 6] };
    let bytes = process_region(region.clone(), &plan(3, 2, Quality::Default, false, (0, 1), Format::Png)).unwrap();
    assert_eq!(bytes, encode(&region, Format::Png).unwrap());
}

#[test]
fn execute_applies_quality_mirror_and_rotation_in_order() {
    let region = Raster::Rgb8 { width: 2, height: 1, data: vec![255, 255, 255, 0, 0, 0] };
    let p = plan(2, 1, Quality::Gray, true, (90, 1), Format::Png);
    let bytes = process_region(region, &p).unwrap();
    // gray [255, 0] → mirrored [0, 255] → a quarter turn makes a column
    assert_eq!(decode_png(&bytes), (1, 2, vec![0, 255]));
}

#[test]
fn execute_bitonal_half_turn() {
    let region = Raster::Gray8 { width: 3, height: 1, data: vec![10, 130, 250] };
    let bytes = process_region(region, &plan(3, 1, Quality::Bitonal, false, (180, 1), Format::Png)).unwrap();
    assert_eq!(decode_png(&bytes), (3, 1, vec![255, 255, 0]));
}

#[test]
fn color_quality_leaves_pixels_alone() {
    let region = Raster::Rgb8 { width: 1, height: 1, data: vec![9, 99, 199] };
    let a = process_region(region.clone(), &plan(1, 1, Quality::Color, false, (0, 1), Format::Png)).unwrap();
    let b = process_region(region.clone(), &plan(1, 1, Quality::Default, false, (0, 1), Format::Png)).unwrap();
    assert_eq!(a, b);
    assert_eq!(a, encode(&region, Format::Png).unwrap());
}

#[test]
fn execute_resamples_to_the_output_size() {
    let region = Raster::Gray8 { width: 4, height: 4, data: vec![100; 16] };
    let mut p = plan(2, 2, Quality::Default, false, (0, 1), Format::Png);
    p.crop = CropRect { x: 0, y: 0, w: 4, h: 4 };
    let bytes = process_region(region, &p).unwrap();
    let (w, h, data) = decode_png(&bytes);
    assert_eq!((w, h), (2, 2));
    assert_eq!(data.len(), 4);
    // a flat field stays flat under any normalised filter
    assert!(data.iter().all(|&v| v == 100));
}

#[test]
fn execute_reports_a_short_region_buffer() {
    let region = Raster::Gray8 { width: 4, height: 4, data: vec![0; 3] };
    match process_region(region, &plan(2, 2, Quality::Default, false, (0, 1), Format::Png)) {
        Err(e @ PipelineError::Resize(_)) => {
            assert_eq!(e.message(), "resample failure: Size of buffer is smaller than required")
        }
        other => panic!("unexpected {other:?}"),
    }
}

#[test]
fn arbitrary_rotation_is_refused() {
    let region = Raster::Gray8 { width: 1, height: 1, data: vec![0] };
    let e = process_region(region, &plan(1, 1, Quality::Default, false, (45, 1), Format::Png)).unwrap_err();
    assert!(matches!(e, PipelineError::ArbitraryRotationUnimplemented));
    assert_eq!(e.message(), "arbitrary rotation is not implemented");
}

#[test]
fn finish_passes_encoder_errors_through() {
    let raster = Raster::Gray8 { width: 1, height: 1, data: vec![0] };
    match finish(raster, &plan(1, 1, Quality::Default, false, (0, 1), Format::Webp)) {
        Err(PipelineError::Encode(EncodeError::UnsupportedFormat(Format::Webp))) => {}
        other => panic!("unexpected {other:?}"),
    }
}

#[test]
fn pipeline_error_messages() {
    assert_eq!(PipelineError::Resize("x".to_owned()).message(), "resample failure: x");
    assert_eq!(PipelineError::Raster(RasterError("y".to_owned())).message(), "raster error: y");
    assert_eq!(PipelineError::Codec(CodecError::Corrupt("z".to_owned())).message(), "z");
    assert_eq!(
        PipelineError::Encode(EncodeError::Internal("w".to_owned())).message(),
        "encoder failure: w"
    );
}

#[test]
fn window_rounds_outward_and_clamps() {
    let level = PyramidLevel { ifd: 1, width: 250, height: 125, scale_factor: 4 };
    let crop = CropRect { x: 101, y: 3, w: 10, h: 10 };
    assert_eq!(decode_window(crop, &level), Window { left: 25, top: 0, width: 3, height: 4 });
    let far = CropRect { x: 5000, y: 5000, w: 10, h: 10 };
    assert_eq!(decode_window(far, &level), Window { left: 249, top: 124, width: 1, height: 1 });
}

#[test]
fn window_covers_the_crop() {
    let level = PyramidLevel { ifd: 0, width: 13, height: 7, scale_factor: 8 };
    for (x, y, w, h) in [(0, 0, 100, 50), (7, 9, 1, 1), (95, 40, 9, 16), (17, 33, 40, 3)] {
        let crop = CropRect { x, y, w, h };
        let win = decode_window(crop, &level);
        assert!(win.left * 8 <= x && win.top * 8 <= y);
        assert!(x + w <= (win.left + win.width) * 8);
        assert!(y + h <= (win.top + win.height) * 8);
        assert!(win.left + win.width <= 13 && win.top + win.height <= 7);
    }
}

#[test]
fn execute_decodes_the_covering_window_of_the_level() {
    let level = PyramidLevel { ifd: 3, width: 250, height: 125, scale_factor: 4 };
    let mut p = plan(2, 1, Quality::Default, false, (0, 1), Format::Png);
    p.crop = CropRect { x: 101, y: 3, w: 10, h: 10 };
    let asked = std::cell::Cell::new(None);
    let bytes = execute(
        &level,
        |ifd, window| {
            asked.set(Some((ifd, window)));
            Ok(Raster::Gray8 { width: 2, height: 1, data: vec![7, 9] })
        },
        &p,
    )
    .unwrap();
    assert_eq!(asked.get(), Some((3, Window { left: 25, top: 0, width: 3, height: 4 })));
    assert_eq!(decode_png(&bytes), (2, 1, vec![7, 9]));
}

#[test]
fn execute_answers_decoder_failures_as_codec_errors() {
    let level = PyramidLevel { ifd: 0, width: 8, height: 8, scale_factor: 1 };
    let p = plan(1, 1, Quality::Default, false, (0, 1), Format::Png);
    let e = execute(&level, |_, _| Err(CodecError::Corrupt("tile 3".to_owned())), &p).unwrap_err();
    assert!(matches!(e, PipelineError::Codec(CodecError::Corrupt(ref m)) if m == "tile 3"));
}

#[test]
fn successful_outputs_begin_with_the_format_signature() {
    let region = Raster::Rgb8 { width: 2, height: 2, data: vec![40; 12] };
    let png = process_region(region.clone(), &plan(2, 2, Quality::Gray, true, (270, 1), Format::Png)).unwrap();
    assert_eq!(&png[..8], &[0x89, 0x50, 0x4E, 0x47, 0x0D, 0x0A, 0x1A, 0x0A]);
    let jpg = process_region(region, &plan(2, 2, Quality::Color, false, (0, 1), Format::Jpg)).unwrap();
    assert_eq!(&jpg[..2], &[0xFF, 0xD8]);
}
