use vstd::prelude::*;
use vstd::utf8::{decode_utf8, encode_utf8, valid_utf8, encode_utf8_decode_utf8};
use crate::error::StealthError;
use crate::frame::{build_frame, frame_of, max_payload_len, parse_frame, parse_frame_spec};
use crate::grid::{alpha_bits, embed_bits, embedded, extract_bits, PixelGrid};
use crate::laws::{lemma_round_trip_text, lemma_short_grid_out_of_range};
use crate::outside::{
    decode_rgba, encode_rgba_like, encoded_of, format_known, gunzip, gunzip_of, guess_image_format,
    gzip, gzip_of, image_error_message, io_error_message, rgba_of, text_from_utf8,
};

verus! {

/// The payload that decoding finds in a grid's alpha bits.
pub open spec fn grid_payload(data: Seq<u8>, w: int, h: int) -> Result<Seq<u8>, StealthError> {
    parse_frame_spec(alpha_bits(data, w, h))
}

/// The text carried by a decompressed payload, when it is valid UTF-8.
pub open spec fn payload_text(decompressed: Seq<u8>) -> Option<Seq<char>> {
    if valid_utf8(decompressed) {
        Some(decode_utf8(decompressed))
    } else {
        None
    }
}

/// The text that decoding finds in a grid, when every step succeeds.
pub open spec fn grid_text(data: Seq<u8>, w: int, h: int) -> Option<Seq<char>> {
    match grid_payload(data, w, h) {
        Ok(p) => match gunzip_of(p) {
            Some(b) => payload_text(b),
            None => None,
        },
        Err(_) => None,
    }
}

/// The decoded pixels of the image `bytes`, when decoding succeeds and
/// yields four bytes per pixel.
pub open spec fn source_pixels(bytes: Seq<u8>) -> Option<(u32, u32, Seq<u8>)> {
    match rgba_of(bytes) {
        Some((w, h, d)) => if d.len() == 4 * w * h {
            Some((w, h, d))
        } else {
            None
        },
        None => None,
    }
}

/// The compressed payload that carries `text`, when compression succeeds and
/// the result fits the length field.
pub open spec fn text_payload(text: Seq<char>) -> Option<Seq<u8>> {
    match gzip_of(encode_utf8(text)) {
        Some(c) => if c.len() <= max_payload_len() {
            Some(c)
        } else {
            None
        },
        None => None,
    }
}

/// The watermarked image: the pixels of `bytes` with the frame of `text`'s
/// payload embedded, encoded in the container format of `bytes`.
pub open spec fn watermarked_image(bytes: Seq<u8>, text: Seq<char>) -> Option<Seq<u8>> {
    if !format_known(bytes) {
        None
    } else {
        match (source_pixels(bytes), text_payload(text)) {
            (Some((w, h, d)), Some(c)) => encoded_of(
                bytes,
                w,
                h,
                embedded(d, w as int, h as int, frame_of(c)),
            ),
            _ => None,
        }
    }
}

/// Compresses the UTF-8 bytes of `metadata`.
pub fn compress_metadata(metadata: &str) -> (r: Result<Vec<u8>, StealthError>)
    ensures
        r is Ok <==> gzip_of(encode_utf8(metadata@)) is Some,
        r matches Ok(c) ==> gzip_of(encode_utf8(metadata@)) == Some(c@),
        r matches Ok(c) ==> gunzip_of(c@) == Some(encode_utf8(metadata@)) && c@.len() >= 18,
        r matches Err(e) ==> e is Compression,
{
    match gzip(metadata.as_bytes()) {
        Ok(c) => Ok(c),
        Err(e) => Err(StealthError::Compression(io_error_message(&e))),
    }
}

/// Frames `payload` and writes the frame's bits into the grid's alpha bits.
/// Fails, leaving the grid as it was, when the payload is too long for the
/// length field. When the grid is too small the frame is cut short.
pub fn embed_payload(grid: &mut PixelGrid, payload: &Vec<u8>) -> (r: Result<(), StealthError>)
    requires
        old(grid).wf(),
    ensures
        final(grid).wf(),
        final(grid).width == old(grid).width,
        final(grid).height == old(grid).height,
        payload@.len() <= max_payload_len() ==> r is Ok && final(grid).data@ == embedded(
            old(grid).data@,
            old(grid).width as int,
            old(grid).height as int,
            frame_of(payload@),
        ),
        payload@.len() > max_payload_len() ==> r == Err::<(), StealthError>(
            StealthError::PayloadTooLarge,
        ) && final(grid).data@ == old(grid).data@,
{
    let frame = match build_frame(payload) {
        Ok(f) => f,
        Err(e) => return Err(e),
    };
    embed_bits(grid, &frame);
    Ok(())
}

/// Compresses `metadata` and embeds it in the grid. On success returns the
/// compressed payload that was embedded. Decoding the grid afterwards gives
/// `metadata` back when the grid has a pixel for every frame bit, and fails
/// with `OutOfRange` otherwise.
pub fn embed_metadata(grid: &mut PixelGrid, metadata: &str) -> (r: Result<Vec<u8>, StealthError>)
    requires
        old(grid).wf(),
    ensures
        final(grid).wf(),
        final(grid).width == old(grid).width,
        final(grid).height == old(grid).height,
        gzip_of(encode_utf8(metadata@)) is None ==> r matches Err(StealthError::Compression(_)),
        gzip_of(encode_utf8(metadata@)) matches Some(c) && c.len() > max_payload_len() ==> r
            == Err::<Vec<u8>, StealthError>(StealthError::PayloadTooLarge),
        text_payload(metadata@) matches Some(c) ==> r matches Ok(c2) && c2@ == c,
        r is Err ==> final(grid).data@ == old(grid).data@,
        r matches Ok(c) ==> final(grid).data@ == embedded(
            old(grid).data@,
            old(grid).width as int,
            old(grid).height as int,
            frame_of(c@),
        ),
        r matches Ok(c) && 8 * (19 + c@.len()) <= old(grid).capacity() ==> grid_text(
            final(grid).data@,
            old(grid).width as int,
            old(grid).height as int,
        ) == Some(metadata@),
        r matches Ok(c) && old(grid).capacity() < 8 * (19 + c@.len()) ==> grid_payload(
            final(grid).data@,
            old(grid).width as int,
            old(grid).height as int,
        ) == Err::<Seq<u8>, StealthError>(StealthError::OutOfRange),
{
    let compressed = match compress_metadata(metadata) {
        Ok(c) => c,
        Err(e) => return Err(e),
    };
    match embed_payload(grid, &compressed) {
        Ok(()) => {
            proof {
                let (w, h) = (grid.width as int, grid.height as int);
                assert(frame_of(compressed@).len() == 19 + compressed@.len());
                if 8 * (19 + compressed@.len()) <= w * h {
                    lemma_round_trip_text(
                        old(grid).data@,
                        w,
                        h,
                        compressed@,
                        metadata@,
                    );
                } else {
                    lemma_short_grid_out_of_range(old(grid).data@, w, h, compressed@);
                }
            }
            Ok(compressed)
        },
        Err(e) => Err(e),
    }
}

/// Reads the frame carried by the grid's alpha bits and returns its payload.
pub fn extract_payload(grid: &PixelGrid) -> (r: Result<Vec<u8>, StealthError>)
    requires
        grid.wf(),
    ensures
        r matches Ok(p) ==> grid_payload(grid.data@, grid.width as int, grid.height as int)
            == Ok::<Seq<u8>, StealthError>(p@),
        r matches Err(e) ==> grid_payload(grid.data@, grid.width as int, grid.height as int)
            == Err::<Seq<u8>, StealthError>(e),
{
    parse_frame(extract_bits(grid))
}

/// Turns decompressed payload bytes into text; fails with `TextDecode`
/// exactly when they are not valid UTF-8.
pub fn text_from_decompressed(decompressed: Vec<u8>) -> (r: Result<String, StealthError>)
    ensures
        r is Ok <==> payload_text(decompressed@) is Some,
        r matches Ok(s) ==> payload_text(decompressed@) == Some(s@),
        r matches Err(e) ==> e is TextDecode,
{
    match text_from_utf8(decompressed) {
        Some(s) => {
            proof {
                encode_utf8_decode_utf8(s@);
            }
            Ok(s)
        },
        None => Err(StealthError::TextDecode),
    }
}

/// Decompresses a payload and turns it into text.
pub fn decode_payload_text(payload: &Vec<u8>) -> (r: Result<String, StealthError>)
    ensures
        gunzip_of(payload@) is None <==> r matches Err(StealthError::Decompression(_)),
        gunzip_of(payload@) matches Some(b) ==> (r is Ok <==> payload_text(b) is Some),
        r matches Ok(s) ==> gunzip_of(payload@) matches Some(b) && payload_text(b) == Some(s@),
        r matches Err(e) ==> e is Decompression || e is TextDecode,
{
    match gunzip(payload.as_slice()) {
        Ok(b) => text_from_decompressed(b),
        Err(e) => Err(StealthError::Decompression(io_error_message(&e))),
    }
}

/// Recovers the text embedded in the grid. Fails with the error of the first
/// step that fails: reading the frame, decompressing, decoding UTF-8.
pub fn decode_from_grid(grid: &PixelGrid) -> (r: Result<String, StealthError>)
    requires
        grid.wf(),
    ensures
        r is Ok <==> grid_text(grid.data@, grid.width as int, grid.height as int) is Some,
        r matches Ok(s) ==> grid_text(grid.data@, grid.width as int, grid.height as int) == Some(
            s@,
        ),
        grid_payload(grid.data@, grid.width as int, grid.height as int) matches Err(e) ==> r
            == Err::<String, StealthError>(e),
        grid_payload(grid.data@, grid.width as int, grid.height as int) matches Ok(p) ==> (
        gunzip_of(p) is None <==> r matches Err(StealthError::Decompression(_))),
        grid_payload(grid.data@, grid.width as int, grid.height as int) matches Ok(p) ==> (gunzip_of(
            p,
        ) matches Some(b) && payload_text(b) is None ==> r == Err::<String, StealthError>(
            StealthError::TextDecode,
        )),
        grid_payload(grid.data@, grid.width as int, grid.height as int) is Ok ==> (r matches Err(
            e,
        ) ==> e is Decompression || e is TextDecode),
{
    let payload = match extract_payload(grid) {
        Ok(p) => p,
        Err(e) => return Err(e),
    };
    decode_payload_text(&payload)
}

/// Embeds `metadata` in the alpha channel of an encoded image and re-encodes
/// it in the same container format. Fails at the first step that fails:
/// recognising the format, decoding, compressing, framing, encoding.
pub fn embed_stealth_watermark(bytes: Vec<u8>, metadata: String) -> (r: Result<Vec<u8>, StealthError>)
    ensures
        r is Ok <==> watermarked_image(bytes@, metadata@) is Some,
        r matches Ok(out) ==> watermarked_image(bytes@, metadata@) == Some(out@),
        !format_known(bytes@) ==> r matches Err(StealthError::ImageFormatGuess(_)),
        format_known(bytes@) && source_pixels(bytes@) is None ==> r matches Err(
            StealthError::ImageDecode(_),
        ),
        format_known(bytes@) && source_pixels(bytes@) is Some && gzip_of(encode_utf8(metadata@))
            is None ==> r matches Err(StealthError::Compression(_)),
        gzip_of(encode_utf8(metadata@)) matches Some(c) && c.len() > max_payload_len()
            && format_known(bytes@) && source_pixels(bytes@) is Some ==> r == Err::<
            Vec<u8>,
            StealthError,
        >(StealthError::PayloadTooLarge),
        format_known(bytes@) && source_pixels(bytes@) is Some && text_payload(metadata@) is Some
            ==> (r matches Err(e) ==> e is ImageEncode),
{
    match guess_image_format(bytes.as_slice()) {
        Ok(()) => {},
        Err(e) => return Err(StealthError::ImageFormatGuess(image_error_message(&e))),
    }
    let (width, height, data) = match decode_rgba(bytes.as_slice()) {
        Ok(d) => d,
        Err(e) => return Err(StealthError::ImageDecode(image_error_message(&e))),
    };
    let mut grid = match PixelGrid::from_raw(width, height, data) {
        Some(g) => g,
        None => return Err(
            StealthError::ImageDecode(String::from_str("pixel buffer does not match the image size")),
        ),
    };
    match embed_metadata(&mut grid, metadata.as_str()) {
        Ok(_) => {},
        Err(e) => return Err(e),
    }
    match encode_rgba_like(bytes.as_slice(), grid.width, grid.height, grid.data) {
        Ok(out) => Ok(out),
        Err(e) => Err(StealthError::ImageEncode(image_error_message(&e))),
    }
}

/// Recovers the metadata embedded in the alpha channel of an encoded image.
pub fn decode_stealth_watermark(input_bytes: Vec<u8>) -> (r: Result<String, StealthError>)
    ensures
        r matches Err(e) ==> e is ImageDecode || e is MagicNotFound || e is OutOfRange
            || e is CorruptLength || e is Decompression || e is TextDecode,
        source_pixels(input_bytes@) is None ==> r matches Err(StealthError::ImageDecode(_)),
        source_pixels(input_bytes@) matches Some((w, h, d)) ==> (r is Ok <==> grid_text(
            d,
            w as int,
            h as int,
        ) is Some),
        r matches Ok(s) ==> (source_pixels(input_bytes@) matches Some((w, h, d)) ==> grid_text(
            d,
            w as int,
            h as int,
        ) == Some(s@)),
        source_pixels(input_bytes@) matches Some((w, h, d)) ==> (grid_payload(
            d,
            w as int,
            h as int,
        ) matches Err(e) ==> r == Err::<String, StealthError>(e)),
        source_pixels(input_bytes@) matches Some((w, h, d)) ==> (grid_payload(
            d,
            w as int,
            h as int,
        ) matches Ok(p) ==> (gunzip_of(p) is None <==> r matches Err(
            StealthError::Decompression(_),
        ))),
        source_pixels(input_bytes@) matches Some((w, h, d)) ==> (grid_payload(
            d,
            w as int,
            h as int,
        ) matches Ok(p) ==> (gunzip_of(p) matches Some(b) && payload_text(b) is None ==> r
            == Err::<String, StealthError>(StealthError::TextDecode))),
{
    let (width, height, data) = match decode_rgba(input_bytes.as_slice()) {
        Ok(d) => d,
        Err(e) => return Err(StealthError::ImageDecode(image_error_message(&e))),
    };
    let grid = match PixelGrid::from_raw(width, height, data) {
        Some(g) => g,
        None => return Err(
            StealthError::ImageDecode(String::from_str("pixel buffer does not match the image size")),
        ),
    };
    decode_from_grid(&grid)
}

} // verus!
