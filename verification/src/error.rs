//! What can go wrong with a picture.

use vstd::prelude::*;

verus! {

/// Why a stage of the pipeline gave no result.
#[derive(Clone, Copy, Debug, PartialEq, Eq, Structural)]
pub enum DenoiseError {
    /// The file is no picture that can be decoded.
    Undecodable,
    /// The size of the picture does not suit the request.
    Geometry,
    /// The picture cannot be written as a PNG file.
    Unencodable,
}

} // verus!
