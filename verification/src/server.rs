//! The pure decisions of the HTTP layer: routing (the IIIF grammar is the
//! router), method handling, content negotiation for info.json, the `id`
//! and redirect targets, and the status and message of every failure.

use vstd::prelude::*;
use vstd::string::{StringExecFns, StrSliceExecFns};
use crate::codec::CodecError;
use crate::encode::EncodeError;
use crate::pipeline::PipelineError;
use crate::source::SourceError;
use crate::encode::Format;
use vstd::utf8::encode_utf8;

verus! {

/// The resource shapes the server answers.
#[derive(Debug, Clone, PartialEq, Eq)]
pub enum Route {
    /// `/healthz`
    Health,
    /// `/iiif/3/{identifier}`: redirect to the info.json.
    BaseRedirect { identifier: String },
    /// `/iiif/3/{identifier}/info.json`
    InfoJson { identifier: String },
    /// `/iiif/3/{identifier}/{rest}`: an image request.
    Image { identifier: String, rest: String },
    /// Anything else.
    Unknown,
}

/// `k` is the position of the first `/` in `s`.
pub open spec fn first_slash_at(s: Seq<char>, k: int) -> bool {
    &&& 0 <= k < s.len()
    &&& s[k] == '/'
    &&& forall|j: int| 0 <= j < k ==> s[j] != '/'
}

pub open spec fn has_slash(s: Seq<char>) -> bool {
    exists|j: int| 0 <= j < s.len() && s[j] == '/'
}

pub open spec fn iiif3_prefix() -> Seq<char> {
    "/iiif/3/"@
}

pub open spec fn under_iiif3(p: Seq<char>) -> bool {
    p.len() >= 8 && p.subrange(0, 8) == iiif3_prefix()
}

/// `r` is how the server classifies the request path `path`: `/healthz`;
/// under `/iiif/3/` a lone identifier (redirect), `{id}/info.json`, or
/// `{id}/{rest}` split at the first `/`; anything else is unknown.
pub open spec fn routed(path: Seq<char>, r: Route) -> bool {
    if path == "/healthz"@ {
        r is Health
    } else if !(under_iiif3(path) && path.len() > 8) {
        r is Unknown
    } else {
        let rest = path.skip(8);
        &&& !has_slash(rest) ==> (r matches Route::BaseRedirect { identifier } && identifier@ == rest)
        &&& forall|k: int| #[trigger] first_slash_at(rest, k) ==> {
            if rest.skip(k + 1) == "info.json"@ {
                r matches Route::InfoJson { identifier } && identifier@ == rest.take(k)
            } else {
                r matches Route::Image { identifier, rest: image } && identifier@ == rest.take(k)
                    && image@ == rest.skip(k + 1)
            }
        }
    }
}

/// Find the first `/` of `s`.
fn first_slash(s: &str) -> (r: Option<usize>)
    ensures
        r matches Some(k) ==> first_slash_at(s@, k as int),
        r is None ==> !has_slash(s@),
{
    let n = s.unicode_len();
    let mut i: usize = 0;
    while i < n
        invariant
            n == s@.len(),
            i <= n,
            forall|j: int| 0 <= j < i ==> s@[j] != '/',
        decreases n - i,
    {
        if s.get_char(i) == '/' {
            return Some(i);
        }
        i += 1;
    }
    None
}

impl Route {
    /// Classify a request path.
    pub fn of(path: &str) -> (r: Self)
        ensures
            routed(path@, r),
    {
        proof {
            reveal_strlit("/healthz");
            reveal_strlit("/iiif/3/");
        }
        let owned = path.to_owned();
        if owned == "/healthz".to_owned() {
            return Route::Health;
        }
        let n = path.unicode_len();
        if n < 8 {
            return Route::Unknown;
        }
        let head = path.substring_char(0, 8).to_owned();
        if !(head == "/iiif/3/".to_owned()) {
            return Route::Unknown;
        }
        if n == 8 {
            return Route::Unknown;
        }
        let rest = path.substring_char(8, n);
        proof {
            assert(rest@ =~= path@.skip(8));
        }
        match first_slash(rest) {
            None => Route::BaseRedirect { identifier: rest.to_owned() },
            Some(k) => {
                let m = rest.unicode_len();
                let identifier = rest.substring_char(0, k).to_owned();
                let tail = rest.substring_char(k + 1, m);
                proof {
                    assert(identifier@ =~= rest@.take(k as int));
                    assert(tail@ =~= rest@.skip(k + 1));
                    assert forall|j: int| #[trigger] first_slash_at(rest@, j) implies j == k by {
                        if j < k {
                            assert(rest@[j] != '/');
                        }
                        if k < j {
                            assert(rest@[k as int] != '/');
                        }
                    }
                }
                if tail.to_owned() == "info.json".to_owned() {
                    Route::InfoJson { identifier }
                } else {
                    Route::Image { identifier, rest: tail.to_owned() }
                }
            },
        }
    }
}


/// The request methods the server tells apart.
#[derive(Debug, Clone, Copy, PartialEq, Eq)]
pub enum Verb {
    Get,
    Head,
    Options,
    /// Any other method.
    Other,
}

/// A plain-text error answer: its status and the line its body carries.
#[derive(Debug, Clone, PartialEq, Eq)]
pub struct ErrorReply {
    pub status: u16,
    pub message: String,
}

impl ErrorReply {
    /// The response body: the message and a line break.
    pub fn body(&self) -> (r: String)
        ensures
            r@ == self.message@ + "\n"@,
    {
        let mut out = self.message.clone();
        out.append("\n");
        out
    }
}

/// What the server does with a request before any resource is touched.
#[derive(Debug, Clone, PartialEq, Eq)]
pub enum Dispatch {
    /// CORS preflight: 204 with the allowed methods.
    Preflight,
    /// Refused outright.
    Refuse(ErrorReply),
    /// Serve the route; for `HEAD` the body is dropped afterwards.
    Serve { route: Route, head: bool },
}

/// `OPTIONS` is a preflight, methods other than `GET` and `HEAD` are
/// refused with 405, and the rest is routed by path.
pub fn dispatch(verb: Verb, path: &str) -> (r: Dispatch)
    ensures
        verb == Verb::Options ==> r == Dispatch::Preflight,
        verb == Verb::Other ==> (r matches Dispatch::Refuse(e)
            && e.status == 405 && e.message@ == "only GET and HEAD"@),
        (verb == Verb::Get || verb == Verb::Head) ==> (r matches Dispatch::Serve { route, head }
            && head == (verb == Verb::Head) && routed(path@, route)),
{
    match verb {
        Verb::Options => Dispatch::Preflight,
        Verb::Other => Dispatch::Refuse(ErrorReply { status: 405, message: "only GET and HEAD".to_owned() }),
        Verb::Get => Dispatch::Serve { route: Route::of(path), head: false },
        Verb::Head => Dispatch::Serve { route: Route::of(path), head: true },
    }
}

/// The answer to a route that names no resource.
pub fn no_such_resource() -> (r: ErrorReply)
    ensures
        r.status == 404,
        r.message@ == "no such resource"@,
{
    ErrorReply { status: 404, message: "no such resource".to_owned() }
}

/// The answer to an identifier that does not decode or resolve.
pub fn unknown_identifier() -> (r: ErrorReply)
    ensures
        r.status == 404,
        r.message@ == "unknown identifier"@,
{
    ErrorReply { status: 404, message: "unknown identifier".to_owned() }
}

/// Seconds a client is asked to wait when the decode queue is full.
pub const RETRY_AFTER_SECS: u64 = 2;

/// The answer when the decode queue is full: 503, sent with a
/// `Retry-After` of [`RETRY_AFTER_SECS`].
pub fn overloaded() -> (r: ErrorReply)
    ensures
        r.status == 503,
        r.message@ == "decode pool saturated"@,
{
    ErrorReply { status: 503, message: "decode pool saturated".to_owned() }
}

/// The headers of the answer to a CORS preflight (status 204), besides the
/// allowed origin that every answer carries.
pub fn preflight_headers() -> (r: Vec<(&'static str, &'static str)>)
    ensures
        r@.len() == 4,
        r@[0].0@ == "allow"@ && r@[0].1@ == "GET, HEAD, OPTIONS"@,
        r@[1].0@ == "access-control-allow-methods"@ && r@[1].1@ == "GET, HEAD, OPTIONS"@,
        r@[2].0@ == "access-control-allow-headers"@ && r@[2].1@ == "Accept"@,
        r@[3].0@ == "access-control-max-age"@ && r@[3].1@ == "86400"@,
{
    let mut v: Vec<(&'static str, &'static str)> = Vec::new();
    v.push(("allow", "GET, HEAD, OPTIONS"));
    v.push(("access-control-allow-methods", "GET, HEAD, OPTIONS"));
    v.push(("access-control-allow-headers", "Accept"));
    v.push(("access-control-max-age", "86400"));
    v
}

/// The CORS header that every answer carries.
pub fn cors_header() -> (r: (&'static str, &'static str))
    ensures
        r.0@ == "access-control-allow-origin"@,
        r.1@ == "*"@,
{
    ("access-control-allow-origin", "*")
}

/// How a source failure is answered.
pub fn source_failure(e: &SourceError) -> (r: ErrorReply)
    ensures
        *e is NotFound ==> r.status == 404 && r.message@ == "unknown identifier"@,
        !(*e is NotFound) ==> r.status == 500 && r.message@ == "source read failed"@,
{
    match e {
        SourceError::NotFound => unknown_identifier(),
        _ => ErrorReply { status: 500, message: "source read failed".to_owned() },
    }
}

/// The message with which a codec failure is answered (always with 500:
/// the master is at fault, not the client).
pub open spec fn codec_message(e: CodecError) -> Seq<char> {
    match e {
        CodecError::Unsupported(m) => "unsupported master: "@ + m@,
        CodecError::Corrupt(m) => "corrupt master: "@ + m@,
        CodecError::Raster(_) => "pipeline failure"@,
    }
}

/// How a codec failure is answered.
pub fn codec_failure(e: &CodecError) -> (r: ErrorReply)
    ensures
        r.status == 500,
        r.message@ == codec_message(*e),
{
    match e {
        CodecError::Unsupported(m) => {
            let mut out = "unsupported master: ".to_owned();
            out.append(m.as_str());
            ErrorReply { status: 500, message: out }
        },
        CodecError::Corrupt(m) => {
            let mut out = "corrupt master: ".to_owned();
            out.append(m.as_str());
            ErrorReply { status: 500, message: out }
        },
        CodecError::Raster(_) => ErrorReply { status: 500, message: "pipeline failure".to_owned() },
    }
}

/// Failures on the image path, unified for the choice of status.
#[derive(Debug)]
pub enum ImageFailure {
    Codec(CodecError),
    /// The request does not evaluate against the image; carries the reason.
    Eval(String),
    Pipeline(PipelineError),
}

/// The status with which an image-path failure is answered: 400 for what
/// the client asked wrongly, 501 for arbitrary rotation, 500 otherwise.
pub open spec fn image_status(f: ImageFailure) -> u16 {
    match f {
        ImageFailure::Eval(_) => 400,
        ImageFailure::Codec(_) => 500,
        ImageFailure::Pipeline(PipelineError::ArbitraryRotationUnimplemented) => 501,
        ImageFailure::Pipeline(PipelineError::Encode(EncodeError::UnsupportedFormat(_))) => 400,
        ImageFailure::Pipeline(PipelineError::Encode(EncodeError::DimensionsBeyondFormat { .. })) => 400,
        ImageFailure::Pipeline(_) => 500,
    }
}

/// The message with which an image-path failure is answered.
pub open spec fn image_message(f: ImageFailure) -> Seq<char> {
    match f {
        ImageFailure::Eval(m) => m@,
        ImageFailure::Codec(e) => codec_message(e),
        ImageFailure::Pipeline(PipelineError::ArbitraryRotationUnimplemented) =>
            "arbitrary rotation is not implemented yet"@,
        ImageFailure::Pipeline(PipelineError::Encode(EncodeError::UnsupportedFormat(f))) =>
            "format "@ + f.spec_name() + " is not supported by this build"@,
        ImageFailure::Pipeline(PipelineError::Encode(EncodeError::DimensionsBeyondFormat { .. })) =>
            "output too large for this format"@,
        ImageFailure::Pipeline(e) => e.spec_message(),
    }
}

impl ImageFailure {
    /// How the failure is answered.
    pub fn into_reply(self) -> (r: ErrorReply)
        ensures
            r.status == image_status(self),
            r.message@ == image_message(self),
    {
        match self {
            ImageFailure::Eval(m) => ErrorReply { status: 400, message: m },
            ImageFailure::Codec(e) => codec_failure(&e),
            ImageFailure::Pipeline(PipelineError::ArbitraryRotationUnimplemented) => ErrorReply {
                status: 501,
                message: "arbitrary rotation is not implemented yet".to_owned(),
            },
            ImageFailure::Pipeline(PipelineError::Encode(EncodeError::UnsupportedFormat(f))) => {
                let mut out = "format ".to_owned();
                out.append(f.name());
                out.append(" is not supported by this build");
                ErrorReply { status: 400, message: out }
            },
            ImageFailure::Pipeline(PipelineError::Encode(EncodeError::DimensionsBeyondFormat { .. })) => {
                ErrorReply { status: 400, message: "output too large for this format".to_owned() }
            },
            ImageFailure::Pipeline(e) => ErrorReply { status: 500, message: e.message() },
        }
    }
}

/// JSON-LD media type with the profile parameter the IIIF context requires.
pub const LD_JSON: &'static str = "application/ld+json;profile=\"http://iiif.io/api/image/3/context.json\"";

/// `needle` occurs in `hay` starting at `i`.
pub open spec fn occurs_at(hay: Seq<char>, needle: Seq<char>, i: int) -> bool {
    0 <= i && i + needle.len() <= hay.len() && hay.subrange(i, i + needle.len()) == needle
}

pub open spec fn contains_text(hay: Seq<char>, needle: Seq<char>) -> bool {
    exists|i: int| #[trigger] occurs_at(hay, needle, i)
}

/// Whether `needle` occurs in `hay`.
fn text_contains(hay: &str, needle: &str) -> (r: bool)
    ensures
        r == contains_text(hay@, needle@),
{
    let n = hay.unicode_len();
    let m = needle.unicode_len();
    if m > n {
        return false;
    }
    let mut i: usize = 0;
    while i <= n - m
        invariant
            n == hay@.len(),
            m == needle@.len(),
            m <= n,
            i <= n - m + 1,
            forall|j: int| 0 <= j < i ==> !occurs_at(hay@, needle@, j),
        decreases n - m + 1 - i,
    {
        let mut k: usize = 0;
        let mut same = true;
        while k < m
            invariant
                n == hay@.len(),
                m == needle@.len(),
                i + m <= n,
                k <= m,
                same <==> forall|t: int| 0 <= t < k ==> hay@[i + t] == needle@[t],
            decreases m - k,
        {
            if hay.get_char(i + k) != needle.get_char(k) {
                same = false;
            }
            k += 1;
        }
        if same {
            proof {
                assert(hay@.subrange(i as int, i + m) =~= needle@);
                assert(occurs_at(hay@, needle@, i as int));
            }
            return true;
        }
        proof {
            assert(!occurs_at(hay@, needle@, i as int)) by {
                if occurs_at(hay@, needle@, i as int) {
                    assert(exists|t: int| 0 <= t < m && hay@[i + t] != needle@[t]);
                    let t = choose|t: int| 0 <= t < m && hay@[i + t] != needle@[t];
                    assert(hay@.subrange(i as int, i + m)[t] == hay@[i + t]);
                }
            }
        }
        i += 1;
    }
    proof {
        assert forall|j: int| !occurs_at(hay@, needle@, j) by {
            if 0 <= j && j + m <= n {
                assert(j < i);
            }
        }
    }
    false
}

/// The media type of an info.json answer: JSON-LD when the `Accept` header
/// asks for it, plain JSON otherwise (the answer varies on `Accept`).
pub fn info_content_type(accept: &str) -> (r: &'static str)
    ensures
        contains_text(accept@, "application/ld+json"@) ==> r@ == LD_JSON@,
        !contains_text(accept@, "application/ld+json"@) ==> r@ == "application/json"@,
{
    if text_contains(accept, "application/ld+json") {
        LD_JSON
    } else {
        "application/json"
    }
}

/// The public `scheme://authority/prefix` used to build `id` values: the
/// configured base, else `http://` and the request's `Host` (by default
/// `localhost`).
pub fn base_uri(public_base: &Option<String>, host: Option<&str>) -> (r: String)
    ensures
        public_base matches Some(b) ==> r@ == b@,
        public_base is None ==> (host matches Some(h) ==> r@ == "http://"@ + h@),
        public_base is None && host is None ==> r@ == "http://localhost"@,
{
    match public_base {
        Some(b) => b.clone(),
        None => {
            let mut out = "http://".to_owned();
            match host {
                Some(h) => out.append(h),
                None => out.append("localhost"),
            }
            proof {
                reveal_strlit("http://");
                reveal_strlit("localhost");
                reveal_strlit("http://localhost");
            }
            out
        },
    }
}

/// The `id` of an image service: the base, `/iiif/3/` and the encoded
/// identifier.
pub fn info_id(base: &str, encoded: &str) -> (r: String)
    ensures
        r@ == base@ + "/iiif/3/"@ + encoded@,
{
    let mut out = base.to_owned();
    out.append("/iiif/3/");
    out.append(encoded);
    out
}

/// Where a bare identifier redirects (303): its info.json.
pub fn info_location(encoded: &str) -> (r: String)
    ensures
        r@ == "/iiif/3/"@ + encoded@ + "/info.json"@,
{
    let mut out = "/iiif/3/".to_owned();
    out.append(encoded);
    out.append("/info.json");
    out
}

/// The paths the server hands out route back to what they name: the
/// redirect target of an identifier is its info.json, and `{id}/{rest}` is
/// an image request for that identifier when `rest` is not `info.json`
/// (an identifier here is an encoded one, free of `/`).
pub proof fn law_paths_route_back(encoded: Seq<char>, tail: Seq<char>, r1: Route, r2: Route, r3: Route)
    requires
        !has_slash(encoded),
        routed("/iiif/3/"@ + encoded + "/info.json"@, r1),
        routed("/iiif/3/"@ + encoded + "/"@ + tail, r2),
        tail != "info.json"@,
        encoded.len() > 0 ==> routed("/iiif/3/"@ + encoded, r3),
    ensures
        r1 matches Route::InfoJson { identifier } && identifier@ == encoded,
        r2 matches Route::Image { identifier, rest } && identifier@ == encoded && rest@ == tail,
        encoded.len() > 0 ==> (r3 matches Route::BaseRedirect { identifier } && identifier@ == encoded),
{
    reveal_strlit("/iiif/3/");
    reveal_strlit("/info.json");
    reveal_strlit("info.json");
    reveal_strlit("/healthz");
    reveal_strlit("/");
    let k = encoded.len() as int;
    let p1 = "/iiif/3/"@ + encoded + "/info.json"@;
    let rest1 = p1.skip(8);
    assert(p1.subrange(0, 8) =~= iiif3_prefix());
    assert(rest1 =~= encoded + "/info.json"@);
    assert(p1 != "/healthz"@) by {
        if p1 == "/healthz"@ {
            assert(p1[1] == "/healthz"@[1]);
        }
    }
    assert(first_slash_at(rest1, k)) by {
        assert forall|j: int| 0 <= j < k implies rest1[j] != '/' by {
            assert(rest1[j] == encoded[j]);
        }
    }
    assert(rest1.skip(k + 1) =~= "info.json"@);
    assert(rest1.take(k) =~= encoded);
    let p2 = "/iiif/3/"@ + encoded + "/"@ + tail;
    let rest2 = p2.skip(8);
    assert(p2.subrange(0, 8) =~= iiif3_prefix());
    assert(rest2 =~= encoded + "/"@ + tail);
    assert(p2 != "/healthz"@) by {
        if p2 == "/healthz"@ {
            assert(p2[1] == "/healthz"@[1]);
        }
    }
    assert(first_slash_at(rest2, k)) by {
        assert forall|j: int| 0 <= j < k implies rest2[j] != '/' by {
            assert(rest2[j] == encoded[j]);
        }
    }
    assert(rest2.skip(k + 1) =~= tail);
    assert(rest2.take(k) =~= encoded);
    if encoded.len() > 0 {
        let p3 = "/iiif/3/"@ + encoded;
        assert(p3.subrange(0, 8) =~= iiif3_prefix());
        assert(p3.skip(8) =~= encoded);
        assert(p3 != "/healthz"@) by {
            if p3 == "/healthz"@ {
                assert(p3[1] == "/healthz"@[1]);
            }
        }
    }
}

/// A response as the server sends it: status, headers as (name, value)
/// pairs in order, and body.
#[derive(Debug, Clone, PartialEq, Eq)]
pub struct Answer {
    pub status: u16,
    pub headers: Vec<(String, String)>,
    pub body: Vec<u8>,
}

/// Header `i` of `a` is `name: value`.
pub open spec fn header_is(a: Answer, i: int, name: Seq<char>, value: Seq<char>) -> bool {
    0 <= i < a.headers@.len() && a.headers@[i].0@ == name && a.headers@[i].1@ == value
}

fn header(name: &str, value: &str) -> (r: (String, String))
    ensures
        r.0@ == name@,
        r.1@ == value@,
{
    (name.to_owned(), value.to_owned())
}

/// The plain-text answer to a failure: its status, a UTF-8 `text/plain`
/// body holding the message and a line break.
pub fn error_answer(reply: &ErrorReply) -> (r: Answer)
    ensures
        r.status == reply.status,
        r.headers@.len() == 1,
        header_is(r, 0, "content-type"@, "text/plain; charset=utf-8"@),
        r.body@ == encode_utf8(reply.message@ + "\n"@),
{
    let mut headers: Vec<(String, String)> = Vec::new();
    headers.push(header("content-type", "text/plain; charset=utf-8"));
    let text = reply.body();
    Answer { status: reply.status, headers, body: text.as_str().as_bytes_vec() }
}

/// The health check: 200, `text/plain`, `ok` and a line break.
pub fn health_answer() -> (r: Answer)
    ensures
        r.status == 200,
        r.headers@.len() == 1,
        header_is(r, 0, "content-type"@, "text/plain"@),
        r.body@ == encode_utf8("ok\n"@),
{
    let mut headers: Vec<(String, String)> = Vec::new();
    headers.push(header("content-type", "text/plain"));
    Answer { status: 200, headers, body: "ok\n".as_bytes_vec() }
}

/// The redirect of a bare identifier: 303 to its info.json, no body.
pub fn redirect_answer(encoded: &str) -> (r: Answer)
    ensures
        r.status == 303,
        r.headers@.len() == 1,
        header_is(r, 0, "location"@, "/iiif/3/"@ + encoded@ + "/info.json"@),
        r.body@.len() == 0,
{
    let mut headers: Vec<(String, String)> = Vec::new();
    let target = info_location(encoded);
    headers.push(header("location", target.as_str()));
    Answer { status: 303, headers, body: Vec::new() }
}

/// The info.json answer: 200, the negotiated media type, `Vary: Accept`,
/// and the serialized document.
pub fn info_answer(accept: &str, json: &str) -> (r: Answer)
    ensures
        r.status == 200,
        r.headers@.len() == 2,
        contains_text(accept@, "application/ld+json"@) ==> header_is(r, 0, "content-type"@, LD_JSON@),
        !contains_text(accept@, "application/ld+json"@) ==> header_is(r, 0, "content-type"@, "application/json"@),
        header_is(r, 1, "vary"@, "Accept"@),
        r.body@ == encode_utf8(json@),
{
    let mut headers: Vec<(String, String)> = Vec::new();
    headers.push(header("content-type", info_content_type(accept)));
    headers.push(header("vary", "Accept"));
    Answer { status: 200, headers, body: json.as_bytes_vec() }
}

/// A rendered image: 200 with the format's media type.
pub fn image_answer(format: Format, bytes: Vec<u8>) -> (r: Answer)
    ensures
        r.status == 200,
        r.headers@.len() == 1,
        header_is(r, 0, "content-type"@, format.spec_media_type()),
        r.body@ == bytes@,
{
    let mut headers: Vec<(String, String)> = Vec::new();
    headers.push(header("content-type", format.media_type()));
    Answer { status: 200, headers, body: bytes }
}

/// The answer when the decode queue is full: 503 with `Retry-After: 2`.
pub fn overloaded_answer() -> (r: Answer)
    ensures
        r.status == 503,
        r.headers@.len() == 2,
        header_is(r, 0, "content-type"@, "text/plain; charset=utf-8"@),
        header_is(r, 1, "retry-after"@, "2"@),
        r.body@ == encode_utf8("decode pool saturated\n"@),
{
    let mut r = error_answer(&overloaded());
    r.headers.push(header("retry-after", "2"));
    proof {
        reveal_strlit("decode pool saturated");
        reveal_strlit("\n");
        reveal_strlit("decode pool saturated\n");
        assert("decode pool saturated"@ + "\n"@ =~= "decode pool saturated\n"@);
    }
    r
}

/// The answer to a CORS preflight: 204, the allowed methods and headers,
/// the allowed origin, no body.
pub fn preflight_answer() -> (r: Answer)
    ensures
        r.status == 204,
        r.headers@.len() == 5,
        header_is(r, 0, "allow"@, "GET, HEAD, OPTIONS"@),
        header_is(r, 1, "access-control-allow-methods"@, "GET, HEAD, OPTIONS"@),
        header_is(r, 2, "access-control-allow-headers"@, "Accept"@),
        header_is(r, 3, "access-control-max-age"@, "86400"@),
        header_is(r, 4, "access-control-allow-origin"@, "*"@),
        r.body@.len() == 0,
{
    let fixed = preflight_headers();
    let mut headers: Vec<(String, String)> = Vec::new();
    let mut i: usize = 0;
    while i < fixed.len()
        invariant
            fixed@.len() == 4,
            i <= 4,
            headers@.len() == i,
            forall|j: int| 0 <= j < i ==> headers@[j].0@ == fixed@[j].0@ && headers@[j].1@ == fixed@[j].1@,
        decreases 4 - i,
    {
        let (name, value) = fixed[i];
        headers.push(header(name, value));
        i += 1;
    }
    let (name, value) = cors_header();
    headers.push(header(name, value));
    Answer { status: 204, headers, body: Vec::new() }
}

/// The headers of an answer as text.
pub open spec fn header_texts(h: Seq<(String, String)>) -> Seq<(Seq<char>, Seq<char>)> {
    h.map_values(|p: (String, String)| (p.0@, p.1@))
}

/// `r` is `answer` as it leaves the server: same status, the answer's
/// headers followed by the allowed origin `*`, and the body unless the
/// request was `HEAD`.
pub open spec fn served_as(answer: Answer, head: bool, r: Answer) -> bool {
    &&& r.status == answer.status
    &&& header_texts(r.headers@) == header_texts(answer.headers@).push(("access-control-allow-origin"@, "*"@))
    &&& head ==> r.body@.len() == 0
    &&& !head ==> r.body@ == answer.body@
}

/// A routed answer as it leaves the server: the allowed origin added, and
/// the body dropped for `HEAD`.
pub fn served(answer: Answer, head: bool) -> (r: Answer)
    ensures
        served_as(answer, head, r),
        header_is(r, answer.headers@.len() as int, "access-control-allow-origin"@, "*"@),
{
    let mut r = answer;
    let (name, value) = cors_header();
    r.headers.push(header(name, value));
    if head {
        r.body = Vec::new();
    }
    proof {
        assert(header_texts(r.headers@) =~= header_texts(answer.headers@).push(
            ("access-control-allow-origin"@, "*"@),
        ));
    }
    r
}

/// `HEAD` is `GET` without the body: for the same routed answer, the two
/// leave with the same status and headers, the `HEAD` one with no body.
pub proof fn law_head_is_get_without_body(answer: Answer, get: Answer, head: Answer)
    requires
        served_as(answer, false, get),
        served_as(answer, true, head),
    ensures
        head.status == get.status,
        header_texts(head.headers@) == header_texts(get.headers@),
        head.body@.len() == 0,
        get.body@ == answer.body@,
{
}

} // verus!
