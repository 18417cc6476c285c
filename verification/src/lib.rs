pub mod raster;
pub mod stitcher;
pub mod tile;
pub mod encoder;
pub mod pipeline;

use vstd::prelude::*;

verus! {

/// Why a stitching run failed.  Any single failing tile aborts the whole
/// batch; the variants mirror the stages of the pipeline.
#[derive(Debug)]
pub enum TileError {
    /// The HTTP retrieval of a tile failed; carries the transport message.
    Transport(String),
    /// A tile matched the known invalid-tile signature, either by raw byte
    /// length or by decoded dimensions.
    InvalidTile,
    /// A tile's bytes could not be parsed as an image.
    Decode(String),
    /// A decoded tile is smaller than the requested tile edge, so copying
    /// it into the composite would read out of bounds.
    Stitch,
    /// The composite raster could not be serialized to PNG.
    Encode(String),
}

} // verus!
