use vstd::prelude::*;
use vstd::utf8::{encode_utf8, valid_utf8};
use std::io::{Read, Write};

verus! {

/// Failure reported by the image codec.
#[verifier::external_type_specification]
#[verifier::external_body]
pub struct ExImageError(image::ImageError);

/// Failure reported by the compressor.
#[verifier::external_type_specification]
#[verifier::external_body]
pub struct ExIoError(std::io::Error);

/// What gzip-decompressing `b` yields: `None` when `b` is not a valid gzip
/// stream.
pub uninterp spec fn gunzip_of(b: Seq<u8>) -> Option<Seq<u8>>;

/// Whether image::guess_format recognises the container format of `b`.
pub uninterp spec fn format_known(b: Seq<u8>) -> bool;

/// What decoding the image `b`, in the container format recognised from its
/// leading bytes, to 8-bit RGBA yields: width, height and the row-major
/// buffer, or `None` when either step fails.
pub uninterp spec fn rgba_of(b: Seq<u8>) -> Option<(u32, u32, Seq<u8>)>;

/// What encoding the 8-bit RGBA buffer `data` of a `w` by `h` image yields,
/// in the container format recognised from the leading bytes of `source`.
pub uninterp spec fn encoded_of(source: Seq<u8>, w: u32, h: u32, data: Seq<u8>) -> Option<Seq<u8>>;

/// What gzip-compressing `b` at the default level yields.
pub uninterp spec fn gzip_of(b: Seq<u8>) -> Option<Seq<u8>>;

/// Relies on image::guess_format: recognises the container format from a
/// fixed table of leading-byte signatures.
#[verifier::external_body]
pub(crate) fn guess_image_format(bytes: &[u8]) -> (r: Result<(), image::ImageError>)
    ensures
        r is Ok <==> format_known(bytes@),
{
    image::guess_format(bytes).map(|_| ())
}

/// Relies on image::guess_format, image::load_from_memory_with_format (which
/// uses the built-in decoders only) and DynamicImage::to_rgba8: returns width,
/// height and the raw row-major buffer.
#[verifier::external_body]
pub(crate) fn decode_rgba(bytes: &[u8]) -> (r: Result<(u32, u32, Vec<u8>), image::ImageError>)
    ensures
        r is Ok <==> rgba_of(bytes@) is Some,
        r matches Ok((w, h, d)) ==> rgba_of(bytes@) == Some((w, h, d@)),
        r is Ok ==> format_known(bytes@),
{
    let format = image::guess_format(bytes)?;
    let img = image::load_from_memory_with_format(bytes, format)?.to_rgba8();
    let (width, height) = img.dimensions();
    Ok((width, height, img.into_raw()))
}

/// Relies on image::guess_format, ImageBuffer::from_raw and
/// DynamicImage::write_to: encodes an 8-bit RGBA buffer in the container
/// format of `source`.
#[verifier::external_body]
pub(crate) fn encode_rgba_like(
    source: &[u8],
    width: u32,
    height: u32,
    data: Vec<u8>,
) -> (r: Result<Vec<u8>, image::ImageError>)
    ensures
        r is Ok <==> encoded_of(source@, width, height, data@) is Some,
        r matches Ok(out) ==> encoded_of(source@, width, height, data@) == Some(out@),
{
    let format = image::guess_format(source)?;
    let buffer = image::RgbaImage::from_raw(width, height, data).ok_or_else(
        || image::ImageError::Parameter(image::error::ParameterError::from_kind(
            image::error::ParameterErrorKind::DimensionMismatch,
        )),
    )?;
    let mut out = std::io::Cursor::new(Vec::new());
    image::DynamicImage::ImageRgba8(buffer).write_to(&mut out, format)?;
    Ok(out.into_inner())
}

/// Relies on the Display impl of image::ImageError for its message.
#[verifier::external_body]
pub(crate) fn image_error_message(e: &image::ImageError) -> (r: String) {
    e.to_string()
}

/// Relies on the Display impl of std::io::Error for its message.
#[verifier::external_body]
pub(crate) fn io_error_message(e: &std::io::Error) -> (r: String) {
    e.to_string()
}

/// Relies on flate2's GzEncoder at the default level: the output depends on
/// the input alone (mtime 0, OS byte 255), holds at least the 10-byte header
/// and the 8-byte trailer, and gzip decompression turns it back into the
/// input.
#[verifier::external_body]
pub(crate) fn gzip(bytes: &[u8]) -> (r: Result<Vec<u8>, std::io::Error>)
    ensures
        r is Ok <==> gzip_of(bytes@) is Some,
        r matches Ok(c) ==> gzip_of(bytes@) == Some(c@),
        r matches Ok(c) ==> gunzip_of(c@) == Some(bytes@),
        r matches Ok(c) ==> c@.len() >= 18,
{
    let mut encoder = flate2::write::GzEncoder::new(Vec::new(), flate2::Compression::default());
    encoder.write_all(bytes)?;
    encoder.finish()
}

/// Relies on flate2's GzDecoder read to the end: it fails exactly when the
/// bytes are not a valid gzip stream.
#[verifier::external_body]
pub(crate) fn gunzip(bytes: &[u8]) -> (r: Result<Vec<u8>, std::io::Error>)
    ensures
        r is Ok <==> gunzip_of(bytes@) is Some,
        r matches Ok(v) ==> gunzip_of(bytes@) == Some(v@),
{
    let mut decoder = flate2::read::GzDecoder::new(bytes);
    let mut out = Vec::new();
    decoder.read_to_end(&mut out)?;
    Ok(out)
}

/// Relies on String::from_utf8: succeeds exactly on valid UTF-8, and the
/// string's bytes are then the input.
#[verifier::external_body]
pub(crate) fn text_from_utf8(bytes: Vec<u8>) -> (r: Option<String>)
    ensures
        r is Some <==> valid_utf8(bytes@),
        r matches Some(s) ==> encode_utf8(s@) == bytes@,
{
    String::from_utf8(bytes).ok()
}

} // verus!
