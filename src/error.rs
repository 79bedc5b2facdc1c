use vstd::prelude::*;

verus! {

/// Every way embedding or decoding can fail.
///
/// Variants that carry a `String` hold the message of the collaborator
/// (image codec or compressor) that failed.
#[derive(Debug, PartialEq, Eq)]
pub enum StealthError {
    /// The image container format could not be recognised.
    ImageFormatGuess(String),
    /// The image bytes could not be decoded to pixels.
    ImageDecode(String),
    /// The pixels could not be encoded back to image bytes.
    ImageEncode(String),
    /// Compressing the metadata failed.
    Compression(String),
    /// The embedded payload is not a valid compressed stream.
    Decompression(String),
    /// The leading bytes of the bit stream are not the magic header.
    MagicNotFound,
    /// The bit stream ended before a read completed.
    OutOfRange,
    /// The decompressed payload is not valid UTF-8.
    TextDecode,
    /// The length field of the frame is zero or negative.
    CorruptLength,
    /// The compressed payload is too long for the 32-bit signed length field.
    PayloadTooLarge,
}

} // verus!
