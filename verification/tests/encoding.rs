use iiif_core::encode::{encode, EncodeError, Format};
use iiif_core::image::Raster;

const PNG_SIGNATURE: [u8; 8] = [137, 80, 78, 71, 13, 10, 26, 10];

fn decode_png(bytes: &[u8]) -> (u32, u32, png::ColorType, Vec<u8>) {
    let decoder = png::Decoder::new(std::io::Cursor::new(bytes.to_vec()));
    let mut reader = decoder.read_info().unwrap();
    let mut buf = vec![0; reader.output_buffer_size().unwrap()];
    let info = reader.next_frame(&mut buf).unwrap();
    buf.truncate(info.buffer_size());
    (info.width, info.height, info.color_type, buf)
}

#[test]
fn format_names_and_media_types() {
    assert_eq!(Format::Jpg.name(), "jpg");
    assert_eq!(Format::Png.name(), "png");
    assert_eq!(Format::Webp.name(), "webp");
    assert_eq!(Format::Jpg.media_type(), "image/jpeg");
    assert_eq!(Format::Png.media_type(), "image/png");
    assert_eq!(Format::Tif.media_type(), "image/tiff");
    assert_eq!(Format::Jp2.media_type(), "image/jp2");
    assert_eq!(Format::Gif.media_type(), "image/gif");
    assert_eq!(Format::Pdf.media_type(), "application/pdf");
    assert_eq!(Format::Webp.media_type(), "image/webp");
}

#[test]
fn png_round_trips_gray_pixels() {
    let raster = Raster::Gray8 { width: 3, height: 2, data: vec![0, 50, 100, 150, 200, 250] };
    let bytes = encode(&raster, Format::Png).unwrap();
    assert_eq!(&bytes[..8], &PNG_SIGNATURE);
    let (w, h, color, data) = decode_png(&bytes);
    assert_eq!((w, h, color), (3, 2, png::ColorType::Grayscale));
    assert_eq!(data, vec![0, 50, 100, 150, 200, 250]);
}

#[test]
fn png_round_trips_rgb_pixels() {
    let raster = Raster::Rgb8 { width: 2, height: 1, data: vec![1, 2, 3, 4, 5, 6] };
    let bytes = encode(&raster, Format::Png).unwrap();
    let (w, h, color, data) = decode_png(&bytes);
    assert_eq!((w, h, color), (2, 1, png::ColorType::Rgb));
    assert_eq!(data, vec![1, 2, 3, 4, 5, 6]);
}

#[test]
fn jpeg_is_a_jfif_stream() {
    let raster = Raster::Rgb8 { width: 8, height: 8, data: vec![128; 192] };
    let bytes = encode(&raster, Format::Jpg).unwrap();
    assert_eq!(&bytes[..2], &[0xFF, 0xD8]);
    assert_eq!(&bytes[bytes.len() - 2..], &[0xFF, 0xD9]);
    let again = encode(&raster, Format::Jpg).unwrap();
    assert_eq!(bytes, again);
}

#[test]
fn jpeg_refuses_sides_beyond_u16() {
    let raster = Raster::Gray8 { width: 65536, height: 1, data: vec![] };
    match encode(&raster, Format::Jpg) {
        Err(e @ EncodeError::DimensionsBeyondFormat { format: Format::Jpg, width: 65536, height: 1 }) => {
            assert_eq!(e.message(), "65536×1 exceeds what jpg can represent");
        }
        other => panic!("unexpected {other:?}"),
    }
}

#[test]
fn jpeg_reports_encoder_failures() {
    let empty = Raster::Gray8 { width: 0, height: 5, data: vec![] };
    match encode(&empty, Format::Jpg) {
        Err(EncodeError::Internal(m)) => assert_eq!(m, "Image dimensions must be non zero: 0x5"),
        other => panic!("unexpected {other:?}"),
    }
    let short = Raster::Gray8 { width: 2, height: 2, data: vec![1, 2, 3] };
    assert!(matches!(encode(&short, Format::Jpg), Err(EncodeError::Internal(_))));
}

#[test]
fn png_reports_encoder_failures() {
    let empty = Raster::Gray8 { width: 0, height: 1, data: vec![] };
    match encode(&empty, Format::Png) {
        Err(e @ EncodeError::Internal(_)) => assert_eq!(e.message(), "encoder failure: Zero width not allowed"),
        other => panic!("unexpected {other:?}"),
    }
    let long = Raster::Gray8 { width: 1, height: 1, data: vec![1, 2] };
    assert!(matches!(encode(&long, Format::Png), Err(EncodeError::Internal(_))));
}

#[test]
fn other_formats_are_unsupported() {
    let raster = Raster::Gray8 { width: 1, height: 1, data: vec![0] };
    for format in [Format::Tif, Format::Jp2, Format::Gif, Format::Pdf, Format::Webp] {
        match encode(&raster, format) {
            Err(e @ EncodeError::UnsupportedFormat(f)) => {
                assert_eq!(f, format);
                assert_eq!(e.message(), format!("format {} is not supported by this build", format.name()));
            }
            other => panic!("unexpected {other:?}"),
        }
    }
}

#[test]
fn encoding_is_stable() {
    let raster = Raster::Rgb8 { width: 3, height: 2, data: (0..18).map(|v| v * 13).collect() };
    for format in [Format::Png, Format::Jpg] {
        let first = encode(&raster, format).unwrap();
        let second = encode(&raster.clone(), format).unwrap();
        assert_eq!(first, second);
    }
}
