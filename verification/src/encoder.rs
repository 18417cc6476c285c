use vstd::prelude::*;
use vstd::arithmetic::div_mod::lemma_div_is_ordered;
use vstd::arithmetic::mul::lemma_mul_inequality;
use crate::raster::Raster;
use crate::raster::RasterModel;
use crate::TileError;

verus! {

/// Largest PNG byte stream that is handed to the base64 step.  Streams over
/// this fixed cap are reported as an encoding failure; the cap keeps the
/// engine's encoded-length computation inside the address space on every
/// machine, and the contracts below name it so callers see the limit.
pub const MAX_PNG_LEN: usize = 0x3000_0000;

/// The PNG serialization of a raster.
pub uninterp spec fn png_of(img: RasterModel) -> Seq<u8>;

/// Whether the PNG encoder accepts a raster at all.  Acceptance depends on
/// the raster alone; the trusted wrapper below ties it to the encoder's
/// outcome and promises it for every raster with positive dimensions.
pub uninterp spec fn png_ok(img: RasterModel) -> bool;

/// The standard-alphabet, padded base64 rendering of a byte sequence.
pub uninterp spec fn base64_of(bytes: Seq<u8>) -> Seq<char>;

/// Relies on DynamicImage::write_to with the PNG output format: the bytes
/// written depend on the pixel buffer alone, and failures are returned,
/// not thrown.  ImageBuffer::from_raw accepts the buffer because a
/// well-formed raster holds exactly width * height * 4 bytes; for the same
/// reason the encoder's buffer-length check passes, and writing to an
/// in-memory cursor cannot fail, so its only remaining failure paths are a
/// zero width or height.
#[verifier::external_body]
fn encode_png(img: &Raster) -> (r: Result<Vec<u8>, String>)
    requires
        img.wf(),
    ensures
        r matches Ok(b) ==> b@ == png_of(img@),
        r is Ok <==> png_ok(img@),
        img@.width >= 1 && img@.height >= 1 ==> r is Ok,
{
    let buffer = image::ImageBuffer::<image::Rgba<u8>, Vec<u8>>::from_raw(
        img.width,
        img.height,
        img.data.clone(),
    ).unwrap();
    let mut out: Vec<u8> = Vec::new();
    let mut cursor = std::io::Cursor::new(&mut out);
    let dynamic = image::DynamicImage::ImageRgba8(buffer);
    match dynamic.write_to(&mut cursor, image::ImageOutputFormat::Png) {
        Ok(()) => Ok(out),
        Err(e) => Err(e.to_string()),
    }
}

/// Relies on base64's STANDARD engine: the text depends on the input bytes
/// alone.  The length bound keeps the engine's buffer-size computation
/// from overflowing, which would panic.
#[verifier::external_body]
fn base64_encode(bytes: &Vec<u8>) -> (r: String)
    requires
        (bytes@.len() + 2) / 3 * 4 <= usize::MAX,
    ensures
        r@ == base64_of(bytes@),
{
    base64::Engine::encode(&base64::engine::general_purpose::STANDARD, bytes)
}

/// Serialize the composite raster as a PNG byte stream and render that
/// stream as standard base64 text.  Success is owed whenever the PNG
/// encoder accepts the raster — in particular whenever both dimensions are
/// positive — and the stream stays within `MAX_PNG_LEN`.
pub fn encode_output(img: &Raster) -> (r: Result<String, TileError>)
    requires
        img.wf(),
    ensures
        r matches Ok(s) ==> s@ == base64_of(png_of(img@)),
        r matches Err(e) ==> e is Encode,
        png_ok(img@) && png_of(img@).len() <= MAX_PNG_LEN ==> r is Ok,
        img@.width >= 1 && img@.height >= 1 && png_of(img@).len() <= MAX_PNG_LEN ==> r is Ok,
{
    match encode_png(img) {
        Err(m) => Err(TileError::Encode(m)),
        Ok(buf) => {
            if buf.len() > MAX_PNG_LEN {
                return Err(TileError::Encode("png stream too large".to_owned()));
            }
            proof {
                lemma_div_is_ordered(buf@.len() as int + 2, MAX_PNG_LEN as int + 2, 3);
                lemma_mul_inequality((buf@.len() + 2) as int / 3, (MAX_PNG_LEN + 2) as int / 3, 4);
            }
            Ok(base64_encode(&buf))
        },
    }
}

} // verus!
