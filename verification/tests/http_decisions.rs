use iiif_core::codec::CodecError;
use iiif_core::encode::{EncodeError, Format};
use iiif_core::image::RasterError;
use iiif_core::pipeline::PipelineError;
use iiif_core::server::{
    base_uri, codec_failure, cors_header, error_answer, health_answer, image_answer, info_answer,
    overloaded_answer, preflight_answer, redirect_answer, served, Answer, dispatch, info_content_type, info_id, info_location, no_such_resource,
    overloaded, preflight_headers, source_failure, unknown_identifier, Dispatch, ErrorReply, ImageFailure, Route,
    Verb, LD_JSON, RETRY_AFTER_SECS,
};
use iiif_core::source::{check_range, resolution, within_root, LocalRoot, SourceError};

fn headers(pairs: &[(&str, &str)]) -> Vec<(String, String)> {
    pairs.iter().map(|(n, v)| ((*n).to_owned(), (*v).to_owned())).collect()
}

fn reply(status: u16, message: &str) -> ErrorReply {
    ErrorReply { status, message: message.to_owned() }
}

#[test]
fn routes_of_paths() {
    assert_eq!(Route::of("/healthz"), Route::Health);
    assert_eq!(Route::of("/healthz/"), Route::Unknown);
    assert_eq!(Route::of("/"), Route::Unknown);
    assert_eq!(Route::of("/iiif/3/"), Route::Unknown);
    assert_eq!(Route::of("/iiif/3"), Route::Unknown);
    assert_eq!(Route::of("/iiif/2/abc"), Route::Unknown);
    assert_eq!(Route::of("/iiif/3/abc"), Route::BaseRedirect { identifier: "abc".to_owned() });
    assert_eq!(Route::of("/iiif/3/abc/info.json"), Route::InfoJson { identifier: "abc".to_owned() });
    assert_eq!(
        Route::of("/iiif/3/abc/full/max/0/default.jpg"),
        Route::Image { identifier: "abc".to_owned(), rest: "full/max/0/default.jpg".to_owned() }
    );
    assert_eq!(
        Route::of("/iiif/3/a/info.json/x"),
        Route::Image { identifier: "a".to_owned(), rest: "info.json/x".to_owned() }
    );
    assert_eq!(Route::of("/iiif/3//info.json"), Route::InfoJson { identifier: String::new() });
    assert_eq!(
        Route::of("/iiif/3/é%2Fx/info.json"),
        Route::InfoJson { identifier: "é%2Fx".to_owned() }
    );
}

#[test]
fn redirect_target_routes_to_info_json() {
    for id in ["abc", "a%2Fb", "x"] {
        assert_eq!(Route::of(&info_location(id)), Route::InfoJson { identifier: id.to_owned() });
        let image_path = format!("/iiif/3/{id}/full/max/0/default.png");
        assert_eq!(
            Route::of(&image_path),
            Route::Image { identifier: id.to_owned(), rest: "full/max/0/default.png".to_owned() }
        );
    }
}

#[test]
fn dispatch_by_method() {
    assert_eq!(dispatch(Verb::Options, "/anything"), Dispatch::Preflight);
    assert_eq!(dispatch(Verb::Other, "/healthz"), Dispatch::Refuse(reply(405, "only GET and HEAD")));
    assert_eq!(dispatch(Verb::Get, "/healthz"), Dispatch::Serve { route: Route::Health, head: false });
    assert_eq!(
        dispatch(Verb::Head, "/iiif/3/x/info.json"),
        Dispatch::Serve { route: Route::InfoJson { identifier: "x".to_owned() }, head: true }
    );
}

#[test]
fn fixed_answers() {
    assert_eq!(no_such_resource(), reply(404, "no such resource"));
    assert_eq!(unknown_identifier(), reply(404, "unknown identifier"));
    assert_eq!(overloaded(), reply(503, "decode pool saturated"));
    assert_eq!(RETRY_AFTER_SECS, 2);
    assert_eq!(reply(400, "bad").body(), "bad\n");
    assert_eq!(cors_header(), ("access-control-allow-origin", "*"));
    assert_eq!(
        preflight_headers(),
        vec![
            ("allow", "GET, HEAD, OPTIONS"),
            ("access-control-allow-methods", "GET, HEAD, OPTIONS"),
            ("access-control-allow-headers", "Accept"),
            ("access-control-max-age", "86400"),
        ]
    );
}

#[test]
fn source_failures() {
    assert_eq!(source_failure(&SourceError::NotFound), reply(404, "unknown identifier"));
    assert_eq!(source_failure(&SourceError::Io("disk".to_owned())), reply(500, "source read failed"));
    assert_eq!(
        source_failure(&SourceError::OutOfRange { offset: 1, len: 2, source_len: 0 }),
        reply(500, "source read failed")
    );
}

#[test]
fn codec_failures() {
    assert_eq!(
        codec_failure(&CodecError::Unsupported("16-bit".to_owned())),
        reply(500, "unsupported master: 16-bit")
    );
    assert_eq!(codec_failure(&CodecError::Corrupt("eof".to_owned())), reply(500, "corrupt master: eof"));
    assert_eq!(
        codec_failure(&CodecError::Raster(RasterError("x".to_owned()))),
        reply(500, "pipeline failure")
    );
}

#[test]
fn image_failures() {
    assert_eq!(ImageFailure::Eval("region out of bounds".to_owned()).into_reply(), reply(400, "region out of bounds"));
    assert_eq!(
        ImageFailure::Codec(CodecError::Corrupt("bad".to_owned())).into_reply(),
        reply(500, "corrupt master: bad")
    );
    assert_eq!(
        ImageFailure::Pipeline(PipelineError::ArbitraryRotationUnimplemented).into_reply(),
        reply(501, "arbitrary rotation is not implemented yet")
    );
    assert_eq!(
        ImageFailure::Pipeline(PipelineError::Encode(EncodeError::UnsupportedFormat(Format::Gif))).into_reply(),
        reply(400, "format gif is not supported by this build")
    );
    assert_eq!(
        ImageFailure::Pipeline(PipelineError::Encode(EncodeError::DimensionsBeyondFormat {
            format: Format::Jpg,
            width: 70000,
            height: 10,
        }))
        .into_reply(),
        reply(400, "output too large for this format")
    );
    assert_eq!(
        ImageFailure::Pipeline(PipelineError::Resize("boom".to_owned())).into_reply(),
        reply(500, "resample failure: boom")
    );
    assert_eq!(
        ImageFailure::Pipeline(PipelineError::Encode(EncodeError::Internal("io".to_owned()))).into_reply(),
        reply(500, "encoder failure: io")
    );
}

#[test]
fn info_json_negotiation() {
    assert_eq!(info_content_type("application/ld+json"), LD_JSON);
    assert_eq!(info_content_type("text/html, application/ld+json;q=0.9"), LD_JSON);
    assert_eq!(info_content_type("application/json"), "application/json");
    assert_eq!(info_content_type("application/ld"), "application/json");
    assert_eq!(info_content_type(""), "application/json");
    assert_eq!(LD_JSON, "application/ld+json;profile=\"http://iiif.io/api/image/3/context.json\"");
}

#[test]
fn ids_and_locations() {
    assert_eq!(base_uri(&Some("https://img.example/base".to_owned()), Some("h")), "https://img.example/base");
    assert_eq!(base_uri(&None, Some("example.org:8080")), "http://example.org:8080");
    assert_eq!(base_uri(&None, None), "http://localhost");
    assert_eq!(info_id("http://h", "abc"), "http://h/iiif/3/abc");
    assert_eq!(info_location("a%2Fb"), "/iiif/3/a%2Fb/info.json");
}

#[test]
fn byte_ranges_inside_the_source() {
    assert_eq!(check_range(0, 10, 10), Ok(10));
    assert_eq!(check_range(4, 0, 4), Ok(0));
    assert_eq!(check_range(5, 6, 10), Err(SourceError::OutOfRange { offset: 5, len: 6, source_len: 10 }));
    assert_eq!(
        check_range(u64::MAX, 1, u64::MAX),
        Err(SourceError::OutOfRange { offset: u64::MAX, len: 1, source_len: u64::MAX })
    );
}

#[test]
fn answers_carry_status_headers_and_body() {
    assert_eq!(
        error_answer(&reply(404, "unknown identifier")),
        Answer {
            status: 404,
            headers: headers(&[("content-type", "text/plain; charset=utf-8")]),
            body: b"unknown identifier\n".to_vec()
        }
    );
    assert_eq!(
        health_answer(),
        Answer { status: 200, headers: headers(&[("content-type", "text/plain")]), body: b"ok\n".to_vec() }
    );
    assert_eq!(
        redirect_answer("abc"),
        Answer { status: 303, headers: headers(&[("location", "/iiif/3/abc/info.json")]), body: vec![] }
    );
    assert_eq!(
        info_answer("application/ld+json", "{}"),
        Answer { status: 200, headers: headers(&[("content-type", LD_JSON), ("vary", "Accept")]), body: b"{}".to_vec() }
    );
    assert_eq!(
        info_answer("*/*", "{}").headers,
        headers(&[("content-type", "application/json"), ("vary", "Accept")])
    );
    assert_eq!(
        image_answer(Format::Png, vec![1, 2]),
        Answer { status: 200, headers: headers(&[("content-type", "image/png")]), body: vec![1, 2] }
    );
    assert_eq!(
        overloaded_answer(),
        Answer {
            status: 503,
            headers: headers(&[("content-type", "text/plain; charset=utf-8"), ("retry-after", "2")]),
            body: b"decode pool saturated\n".to_vec()
        }
    );
}

#[test]
fn preflight_is_204_with_cors() {
    assert_eq!(
        preflight_answer(),
        Answer {
            status: 204,
            headers: headers(&[
                ("allow", "GET, HEAD, OPTIONS"),
                ("access-control-allow-methods", "GET, HEAD, OPTIONS"),
                ("access-control-allow-headers", "Accept"),
                ("access-control-max-age", "86400"),
                ("access-control-allow-origin", "*"),
            ]),
            body: vec![]
        }
    );
}

#[test]
fn served_answers_allow_any_origin_and_head_drops_the_body() {
    let get = served(health_answer(), false);
    assert_eq!(get.status, 200);
    assert_eq!(get.headers, headers(&[("content-type", "text/plain"), ("access-control-allow-origin", "*")]));
    assert_eq!(get.body, b"ok\n".to_vec());
    let head = served(error_answer(&reply(404, "unknown identifier")), true);
    assert_eq!(head.status, 404);
    assert_eq!(head.headers.last(), Some(&("access-control-allow-origin".to_owned(), "*".to_owned())));
    assert!(head.body.is_empty());
}

fn parts(path: &[&str]) -> Vec<Vec<u8>> {
    path.iter().map(|p| p.as_bytes().to_vec()).collect()
}

#[test]
fn containment_is_by_whole_components() {
    let root = parts(&["/", "srv", "images"]);
    assert!(within_root(&root, &parts(&["/", "srv", "images"])));
    assert!(within_root(&root, &parts(&["/", "srv", "images", "a", "b.jp2"])));
    assert!(!within_root(&root, &parts(&["/", "srv", "images2", "b.jp2"])));
    assert!(!within_root(&root, &parts(&["/", "srv"])));
    assert!(!within_root(&root, &parts(&["/", "etc", "passwd"])));
    assert!(within_root(&parts(&["/"]), &parts(&["/", "anything"])));
}

#[test]
fn resolution_refuses_escapes_and_passes_failures_on() {
    let root = LocalRoot::new(parts(&["/", "srv"]));
    assert_eq!(root.path(), &parts(&["/", "srv"]));
    let inside = parts(&["/", "srv", "x.jp2"]);
    assert_eq!(root.resolve(Ok(inside.clone())), Ok(inside.clone()));
    assert_eq!(root.resolve(Ok(parts(&["/", "tmp", "x.jp2"]))), Err(SourceError::NotFound));
    assert_eq!(root.resolve(Err(SourceError::Io("denied".to_owned()))), Err(SourceError::Io("denied".to_owned())));
    assert_eq!(resolution(&parts(&["/", "srv"]), Err(SourceError::NotFound)), Err(SourceError::NotFound));
    assert_eq!(resolution(&parts(&["/", "srv"]), Ok(inside.clone())), Ok(inside));
}

#[test]
fn head_answer_is_get_answer_without_body() {
    let get = served(info_answer("application/ld+json", "{}"), false);
    let head = served(info_answer("application/ld+json", "{}"), true);
    assert_eq!((head.status, &head.headers), (get.status, &get.headers));
    assert!(head.body.is_empty());
    assert_eq!(get.body, b"{}".to_vec());
}
