# iiif_core

The verified core of a IIIF Image API 3.0 server, written in Verus.

## Layout

- `src/` — the library, verified by Verus.
  - `image.rs`, `luma.rs`, `image_laws.rs`, `arith.rs`: the 8-bit raster
    model (gray and RGB), its transforms (mirror, quarter turns, gray,
    bitonal, blit, zeroed allocation) with exact contracts over the sample
    sequence, and the laws that relate them (mirroring twice, four quarter
    turns, a blit read back, thresholding twice, ...). Luma is computed
    exactly as IEEE binary64 evaluation of `0.299 r + 0.587 g + 0.114 b`
    rounds it, in integer arithmetic.
  - `encode.rs`: output formats and the JPEG / PNG encoders
    (`jpeg-encoder`, `png`) behind trusted wrappers.
  - `pipeline.rs`: the post-decode pipeline (Lanczos3 resampling through
    `fast_image_resize`, quality, mirror, rotation, encoding), the
    mapping of a full-resolution crop onto a pyramid level, and `execute`,
    which decodes exactly that window through the caller's decoder.
  - `jp2.rs`: the decisions around a JPEG 2000 master — supported layouts,
    the advertised pyramid, the reduced-resolution level and buffer for a
    request, and the crop of a whole-image decode.
  - `info.rs`: the info.json document.
  - `server.rs`, `source.rs`: routing, method handling, content
    negotiation, redirect targets, the status and message of every
    failure, and every answer's status, headers (CORS, `Vary`,
    `Retry-After`, preflight) and body; the served root and the containment
    of resolved paths under it; the bounds check of ranged reads.
  - `config.rs`, `number.rs`, `text.rs`: the command line, unsigned decimal
    parsing with the outcomes of `str::parse`, decimal rendering.
- `tests/` — executable tests of the library.
- `app/` — the server binary: sockets, hyper, tokio, files, JSON
  serialization, and the calls into the JPEG 2000 decoder.
- `extras/luma_exhaustive.py` — an exhaustive check of the integer luma
  model against floating-point evaluation.
