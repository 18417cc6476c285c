use vstd::prelude::*;
use crate::raster::{Raster, RasterModel};
use crate::TileError;

verus! {

/// Raw byte length of the upstream source's known placeholder tile.  A
/// retrieved payload of exactly this many bytes is rejected before any
/// decoding is attempted.
pub const INVALID_TILE_BYTE_LEN: usize = 2834;

/// Decoded edge length of the placeholder tile.  A decoded image whose
/// width and height both equal it is rejected as well; the check is kept
/// separate from the byte-length one because it reads the decoded
/// structure, which exists even when the byte-length check was passed.
pub const INVALID_TILE_EDGE: u32 = 2834;

/// The raster, if any, that the image codec decodes the given bytes to,
/// with the pixels converted to four 8-bit channels per pixel.
pub uninterp spec fn decoded_of(bytes: Seq<u8>) -> Option<RasterModel>;

/// A raw payload that matches the placeholder signature by byte length.
pub open spec fn is_invalid_payload(bytes: Seq<u8>) -> bool {
    bytes.len() == INVALID_TILE_BYTE_LEN
}

/// A decoded tile that matches the placeholder signature by dimensions.
pub open spec fn is_invalid_dimensions(m: RasterModel) -> bool {
    m.width == INVALID_TILE_EDGE && m.height == INVALID_TILE_EDGE
}

/// A retrieved payload that passes every per-tile check: it does not match
/// the placeholder signature by byte length, it decodes as an image, and
/// the decoded image does not match the placeholder signature by
/// dimensions.
pub open spec fn payload_valid(bytes: Seq<u8>) -> bool {
    &&& !is_invalid_payload(bytes)
    &&& decoded_of(bytes) is Some
    &&& !is_invalid_dimensions(decoded_of(bytes)->Some_0)
}

/// Relies on image::load_from_memory and DynamicImage::to_rgba8: whether
/// the bytes decode, and the pixels they decode to, depend on the bytes
/// alone, and an RGBA image buffer holds exactly width * height * 4 bytes.
#[verifier::external_body]
fn decode_image(bytes: &Vec<u8>) -> (r: Result<Raster, String>)
    ensures
        match r {
            Ok(img) => img.wf() && decoded_of(bytes@) == Some(img@),
            Err(_) => decoded_of(bytes@) is None,
        },
{
    match image::load_from_memory(bytes) {
        Ok(img) => {
            let rgba = img.to_rgba8();
            let width = rgba.width();
            let height = rgba.height();
            Ok(Raster { width, height, data: rgba.into_raw() })
        },
        Err(e) => Err(e.to_string()),
    }
}

/// Validate one retrieved payload: reject the placeholder signature by raw
/// byte length, decode the bytes as an image, then reject the placeholder
/// signature by decoded dimensions.
pub fn check_tile(bytes: &Vec<u8>) -> (r: Result<Raster, TileError>)
    ensures
        is_invalid_payload(bytes@) ==> (r matches Err(e) && e is InvalidTile),
        !is_invalid_payload(bytes@) && decoded_of(bytes@) is None ==> (r matches Err(e)
            && e is Decode),
        !is_invalid_payload(bytes@) && decoded_of(bytes@) is Some && is_invalid_dimensions(
            decoded_of(bytes@)->Some_0,
        ) ==> (r matches Err(e) && e is InvalidTile),
        !is_invalid_payload(bytes@) && decoded_of(bytes@) is Some && !is_invalid_dimensions(
            decoded_of(bytes@)->Some_0,
        ) ==> (r matches Ok(img) && img.wf() && img@ == decoded_of(bytes@)->Some_0),
{
    if bytes.len() == INVALID_TILE_BYTE_LEN {
        return Err(TileError::InvalidTile);
    }
    match decode_image(bytes) {
        Err(m) => Err(TileError::Decode(m)),
        Ok(img) => {
            if img.width() == INVALID_TILE_EDGE && img.height() == INVALID_TILE_EDGE {
                Err(TileError::InvalidTile)
            } else {
                Ok(img)
            }
        },
    }
}

} // verus!
