//! Failures of the source codecs.

use vstd::prelude::*;
use crate::image::RasterError;

verus! {

/// Why a master could not be opened or decoded.
#[derive(Debug)]
pub enum CodecError {
    /// The master's layout is outside the supported matrix.
    Unsupported(String),
    /// The master does not parse or decode.
    Corrupt(String),
    /// A raster operation on decoded pixels failed.
    Raster(RasterError),
}

} // verus!
