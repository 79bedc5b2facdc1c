use stealth_watermark::bitstream::DataReader;
use stealth_watermark::error::StealthError;
use stealth_watermark::frame::{build_frame, magic_bytes, parse_frame};
use stealth_watermark::grid::{embed_bits, extract_bits, pixel_at_scan, PixelGrid};
use stealth_watermark::watermark::{
    compress_metadata, decode_from_grid, decode_payload_text, decode_stealth_watermark,
    embed_metadata, embed_payload, embed_stealth_watermark, extract_payload,
    text_from_decompressed,
};

fn grid(width: u32, height: u32, fill: u8) -> PixelGrid {
    PixelGrid { width, height, data: vec![fill; (width * height * 4) as usize] }
}

/// One element per bit, most significant bit of each byte first.
fn bits_of(bytes: &[u8]) -> Vec<u8> {
    let mut out = Vec::new();
    for b in bytes {
        for i in 0..8 {
            out.push((b >> (7 - i)) & 1);
        }
    }
    out
}

fn alpha(g: &PixelGrid, x: u32, y: u32) -> u8 {
    g.data[((y * g.width + x) * 4 + 3) as usize]
}

#[test]
fn read_bit_uses_lowest_bit() {
    let mut r = DataReader::new(vec![3, 2, 255]);
    assert_eq!(r.read_bit(), Ok(1));
    assert_eq!(r.read_bit(), Ok(0));
    assert_eq!(r.read_bit(), Ok(1));
    assert_eq!(r.read_bit(), Err(StealthError::OutOfRange));
}

#[test]
fn read_byte_is_msb_first() {
    let mut r = DataReader::new(vec![1, 0, 0, 0, 0, 0, 1, 1]);
    assert_eq!(r.read_byte(), Ok(0b1000_0011));
    assert_eq!(r.index, 8);
    assert_eq!(r.read_byte(), Err(StealthError::OutOfRange));
}

#[test]
fn read_byte_short_stream_consumes_nothing() {
    let mut r = DataReader::new(vec![1; 7]);
    assert_eq!(r.read_byte(), Err(StealthError::OutOfRange));
    assert_eq!(r.index, 0);
}

#[test]
fn read_bytes_reads_consecutive_bytes() {
    let mut r = DataReader::new(bits_of(&[0xAB, 0x01, 0x7F]));
    assert_eq!(r.read_bytes(2), Ok(vec![0xAB, 0x01]));
    assert_eq!(r.read_bytes(2), Err(StealthError::OutOfRange));
    assert_eq!(r.read_bytes(1), Ok(vec![0x7F]));
    assert_eq!(r.read_bytes(0), Ok(vec![]));
}

#[test]
fn read_int32_big_endian_positive() {
    let mut r = DataReader::new(bits_of(&[0, 0, 1, 8]));
    assert_eq!(r.read_int32(), Ok(264));
}

#[test]
fn read_int32_big_endian_negative() {
    let mut r = DataReader::new(bits_of(&[0xFF, 0xFF, 0xFF, 0xFE]));
    assert_eq!(r.read_int32(), Ok(-2));
    let mut r = DataReader::new(bits_of(&[0x80, 0, 0, 0]));
    assert_eq!(r.read_int32(), Ok(i32::MIN));
}

#[test]
fn read_int32_needs_32_bits() {
    let mut r = DataReader::new(bits_of(&[1, 2, 3]));
    assert_eq!(r.read_int32(), Err(StealthError::OutOfRange));
}

#[test]
fn magic_is_ascii_header() {
    assert_eq!(magic_bytes(), b"stealth_pngcomp".to_vec());
}

#[test]
fn frame_layout_is_magic_length_payload() {
    let f = build_frame(&vec![9, 8, 7]).unwrap();
    let mut expected = b"stealth_pngcomp".to_vec();
    expected.extend_from_slice(&[0, 0, 0, 24, 9, 8, 7]);
    assert_eq!(f, expected);
}

#[test]
fn frame_length_field_big_endian() {
    let f = build_frame(&vec![0; 300]).unwrap();
    assert_eq!(&f[15..19], &[0, 0, 0x09, 0x60]);
    assert_eq!(f.len(), 319);
}

#[test]
fn frame_rejects_oversized_payload() {
    let payload = vec![0u8; 268_435_456];
    assert_eq!(build_frame(&payload), Err(StealthError::PayloadTooLarge));
}

#[test]
fn parse_frame_recovers_payload() {
    let f = build_frame(&vec![1, 2, 3, 4]).unwrap();
    let mut bits = bits_of(&f);
    bits.extend_from_slice(&[1, 1, 1]);
    assert_eq!(parse_frame(bits), Ok(vec![1, 2, 3, 4]));
}

#[test]
fn parse_frame_wrong_magic() {
    let mut f = build_frame(&vec![1]).unwrap();
    f[3] = b'x';
    assert_eq!(parse_frame(bits_of(&f)), Err(StealthError::MagicNotFound));
}

#[test]
fn parse_frame_short_stream() {
    assert_eq!(parse_frame(vec![0; 100]), Err(StealthError::OutOfRange));
    let f = build_frame(&vec![1, 2]).unwrap();
    assert_eq!(parse_frame(bits_of(&f[..17])), Err(StealthError::OutOfRange));
    assert_eq!(parse_frame(bits_of(&f[..20])), Err(StealthError::OutOfRange));
}

#[test]
fn parse_frame_zero_or_negative_length() {
    let mut f = b"stealth_pngcomp".to_vec();
    f.extend_from_slice(&[0, 0, 0, 0, 5]);
    assert_eq!(parse_frame(bits_of(&f)), Err(StealthError::CorruptLength));
    let mut f = b"stealth_pngcomp".to_vec();
    f.extend_from_slice(&[0xFF, 0xFF, 0xFF, 0xF8, 5]);
    assert_eq!(parse_frame(bits_of(&f)), Err(StealthError::CorruptLength));
}

#[test]
fn parse_frame_truncates_length_to_whole_bytes() {
    let mut f = b"stealth_pngcomp".to_vec();
    f.extend_from_slice(&[0, 0, 0, 13, 0xAA, 0xBB]);
    assert_eq!(parse_frame(bits_of(&f)), Ok(vec![0xAA]));
}

#[test]
fn pixel_at_scan_is_column_major() {
    assert_eq!(pixel_at_scan(2, 3, 0), (0, 0));
    assert_eq!(pixel_at_scan(2, 3, 1), (0, 1));
    assert_eq!(pixel_at_scan(2, 3, 2), (0, 2));
    assert_eq!(pixel_at_scan(2, 3, 3), (1, 0));
    assert_eq!(pixel_at_scan(2, 3, 5), (1, 2));
}

#[test]
fn scan_order_single_column() {
    let mut g = grid(1, 3, 0x10);
    embed_bits(&mut g, &vec![0b1010_0000]);
    assert_eq!(alpha(&g, 0, 0), 0x11);
    assert_eq!(alpha(&g, 0, 1), 0x10);
    assert_eq!(alpha(&g, 0, 2), 0x11);
    assert_eq!(extract_bits(&g), vec![1, 0, 1]);
}

#[test]
fn scan_order_single_row() {
    let mut g = grid(3, 1, 0x10);
    embed_bits(&mut g, &vec![0b0110_0000]);
    assert_eq!(alpha(&g, 0, 0), 0x10);
    assert_eq!(alpha(&g, 1, 0), 0x11);
    assert_eq!(alpha(&g, 2, 0), 0x11);
    assert_eq!(extract_bits(&g), vec![0, 1, 1]);
}

#[test]
fn scan_order_goes_down_columns_first() {
    let mut g = grid(2, 2, 0);
    embed_bits(&mut g, &vec![0b1100_0000]);
    assert_eq!(alpha(&g, 0, 0), 1);
    assert_eq!(alpha(&g, 0, 1), 1);
    assert_eq!(alpha(&g, 1, 0), 0);
    assert_eq!(alpha(&g, 1, 1), 0);
}

#[test]
fn embed_touches_only_alpha_lsb() {
    let mut g = grid(4, 4, 0xFF);
    embed_bits(&mut g, &vec![0x00]);
    for (i, v) in g.data.iter().enumerate() {
        let pixel = (i / 4) as u32;
        let (x, y) = (pixel % 4, pixel / 4);
        let step = x * 4 + y;
        if i % 4 == 3 && step < 8 {
            assert_eq!(*v, 0xFE);
        } else {
            assert_eq!(*v, 0xFF);
        }
    }
}

#[test]
fn embed_stops_at_grid_end() {
    let mut g = grid(2, 2, 0);
    embed_bits(&mut g, &vec![0xFF, 0xFF]);
    assert_eq!(extract_bits(&g), vec![1, 1, 1, 1]);
}

#[test]
fn from_raw_checks_buffer_length() {
    assert!(PixelGrid::from_raw(2, 2, vec![0; 16]).is_some());
    assert!(PixelGrid::from_raw(2, 2, vec![0; 15]).is_none());
    assert!(PixelGrid::from_raw(0, 5, vec![]).is_some());
}

#[test]
fn concrete_twenty_by_twenty_round_trip() {
    let mut g = grid(20, 20, 200);
    let metadata = "{\"k\":1}";
    let compressed = embed_metadata(&mut g, metadata).unwrap();
    assert!(8 * (19 + compressed.len()) <= 400);
    assert_eq!(decode_from_grid(&g), Ok(metadata.to_string()));
}

#[test]
fn round_trip_larger_text() {
    let mut g = grid(64, 48, 0x80);
    let metadata = "{\"Description\": \"This is some secret data!\", \"ünïcødé\": \"✓\"}";
    embed_metadata(&mut g, metadata).unwrap();
    assert_eq!(decode_from_grid(&g), Ok(metadata.to_string()));
}

#[test]
fn round_trip_empty_text() {
    let mut g = grid(30, 30, 7);
    embed_metadata(&mut g, "").unwrap();
    assert_eq!(decode_from_grid(&g), Ok(String::new()));
}

#[test]
fn capacity_exactly_frame_bits() {
    let payload = compress_metadata("capacity").unwrap();
    let frame_bits = (8 * (19 + payload.len())) as u32;
    let mut g = grid(frame_bits, 1, 0);
    embed_payload(&mut g, &payload).unwrap();
    assert_eq!(extract_payload(&g), Ok(payload.clone()));
    assert_eq!(decode_from_grid(&g), Ok("capacity".to_string()));
}

#[test]
fn capacity_one_bit_short() {
    let payload = compress_metadata("capacity").unwrap();
    let frame_bits = (8 * (19 + payload.len())) as u32;
    let mut g = grid(frame_bits - 1, 1, 0);
    embed_payload(&mut g, &payload).unwrap();
    assert_eq!(decode_from_grid(&g), Err(StealthError::OutOfRange));
}

#[test]
fn grid_below_header_size_fails_out_of_range() {
    for (w, h) in [(10u32, 10u32), (12, 12), (151, 1), (1, 119), (0, 0)] {
        let mut g = grid(w, h, 0xFF);
        embed_metadata(&mut g, "{\"k\":1}").unwrap();
        assert_eq!(decode_from_grid(&g), Err(StealthError::OutOfRange));
    }
}

#[test]
fn random_alpha_has_no_magic() {
    let mut g = grid(40, 40, 0);
    let mut state: u64 = 0x2545_F491_4F6C_DD1D;
    for v in g.data.iter_mut() {
        state = state.wrapping_mul(6364136223846793005).wrapping_add(1442695040888963407);
        *v = (state >> 33) as u8;
    }
    assert_eq!(decode_from_grid(&g), Err(StealthError::MagicNotFound));
}

#[test]
fn untouched_grid_has_no_magic() {
    let g = grid(40, 40, 0xFF);
    assert_eq!(decode_from_grid(&g), Err(StealthError::MagicNotFound));
}

#[test]
fn compression_is_inverted_by_decompression() {
    for text in ["", "a", "{\"k\":1}", "repeat repeat repeat repeat repeat"] {
        let c = compress_metadata(text).unwrap();
        assert_ne!(c, text.as_bytes().to_vec());
        assert_eq!(&c[..2], &[0x1f, 0x8b]);
        assert_eq!(decode_payload_text(&c), Ok(text.to_string()));
    }
}

#[test]
fn decompression_error_on_garbage() {
    let r = decode_payload_text(&vec![1, 2, 3, 4, 5]);
    assert!(matches!(r, Err(StealthError::Decompression(_))));
}

#[test]
fn decompression_error_surfaces_from_grid() {
    let mut g = grid(30, 30, 0);
    embed_payload(&mut g, &vec![0xAA, 0xBB, 0xCC]).unwrap();
    assert!(matches!(decode_from_grid(&g), Err(StealthError::Decompression(_))));
}

#[test]
fn text_decode_error_on_invalid_utf8() {
    assert_eq!(text_from_decompressed(vec![0xFF, 0xFE]), Err(StealthError::TextDecode));
    assert_eq!(text_from_decompressed(b"ok".to_vec()), Ok("ok".to_string()));
}

fn png_bytes(width: u32, height: u32) -> Vec<u8> {
    let mut data = Vec::new();
    for i in 0..(width * height) {
        data.extend_from_slice(&[(i % 251) as u8, 30, 60, 255]);
    }
    let img = image::RgbaImage::from_raw(width, height, data).unwrap();
    let mut out = std::io::Cursor::new(Vec::new());
    image::DynamicImage::ImageRgba8(img).write_to(&mut out, image::ImageFormat::Png).unwrap();
    out.into_inner()
}

#[test]
fn image_round_trip() {
    let png = png_bytes(32, 32);
    let metadata = "{\"Description\": \"This is some secret data!\"}".to_string();
    let marked = embed_stealth_watermark(png.clone(), metadata.clone()).unwrap();
    assert_ne!(marked, png);
    assert_eq!(decode_stealth_watermark(marked), Ok(metadata));
}

#[test]
fn image_without_watermark() {
    let png = png_bytes(32, 32);
    assert_eq!(decode_stealth_watermark(png), Err(StealthError::MagicNotFound));
}

#[test]
fn image_format_guess_error() {
    let r = embed_stealth_watermark(vec![0, 1, 2, 3], "x".to_string());
    assert!(matches!(r, Err(StealthError::ImageFormatGuess(_))));
}

#[test]
fn image_decode_error() {
    let r = decode_stealth_watermark(vec![0, 1, 2, 3]);
    assert!(matches!(r, Err(StealthError::ImageDecode(_))));
    let mut truncated = png_bytes(8, 8);
    truncated.truncate(30);
    let r = embed_stealth_watermark(truncated, "x".to_string());
    assert!(matches!(r, Err(StealthError::ImageDecode(_))));
}


#[test]
fn compression_is_deterministic_and_framed() {
    let a = compress_metadata("{\"k\":1}").unwrap();
    let b = compress_metadata("{\"k\":1}").unwrap();
    assert_eq!(a, b);
    assert!(compress_metadata("").unwrap().len() >= 18);
}

#[test]
fn image_embedding_is_deterministic() {
    let png = png_bytes(24, 24);
    let first = embed_stealth_watermark(png.clone(), "same".to_string()).unwrap();
    let second = embed_stealth_watermark(png, "same".to_string()).unwrap();
    assert_eq!(first, second);
}

#[test]
fn image_too_small_for_header() {
    let png = png_bytes(10, 10);
    let marked = embed_stealth_watermark(png, "{\"k\":1}".to_string()).unwrap();
    assert_eq!(decode_stealth_watermark(marked), Err(StealthError::OutOfRange));
}
