//! Verified core of a IIIF Image API engine: the in-memory raster model and
//! its pixel transforms, output encoding, the JPEG 2000 master adapter, the
//! info.json document, the post-decode pipeline, the command line, and the
//! pure decisions of the HTTP layer and the byte-range source.

pub mod arith;
pub mod image;
pub mod luma;
pub mod image_laws;
pub mod text;
pub mod encode;
pub mod info;
pub mod codec;
pub mod pipeline;
pub mod jp2;
pub mod number;
pub mod config;
pub mod source;
pub mod server;
