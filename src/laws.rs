use vstd::prelude::*;
use vstd::arithmetic::div_mod::lemma_fundamental_div_mod_converse;
use vstd::utf8::{encode_utf8, encode_utf8_decode_utf8, encode_utf8_valid_utf8};
use crate::bitstream::{bits_value, byte_at, bytes_at, be_i32_value, be_u32_value};
use crate::error::StealthError;
use crate::frame::{be_u32_bytes, frame_of, magic, max_payload_len, parse_frame_spec};
use crate::grid::{
    alpha_bits, alpha_offset, embedded, frame_bit, lemma_scan_step, scan_pixel_index, set_lsb,
};
use crate::outside::gunzip_of;
use crate::watermark::{grid_payload, grid_text};

verus! {

proof fn lemma_set_lsb_bit(a: u8, bit: u8)
    requires
        bit <= 1,
    ensures
        set_lsb(a, bit) % 2 == bit,
{
    assert(((a & 0xFEu8) | bit) % 2 == bit) by (bit_vector)
        requires
            bit <= 1,
    ;
}

proof fn lemma_frame_bit_is_bit(frame: Seq<u8>, j: int)
    ensures
        frame_bit(frame, j) <= 1,
{
    let b = frame[j / 8];
    let s = (7 - j % 8) as u32;
    assert((b >> s) & 1u8 <= 1) by (bit_vector);
}

/// After embedding, every scan step that the frame and the grid both reach
/// reads back the frame's bit.
proof fn lemma_alpha_bit_read_back(data: Seq<u8>, w: int, h: int, frame: Seq<u8>, k: int)
    requires
        w > 0,
        h > 0,
        data.len() == 4 * w * h,
        0 <= k < w * h,
        k < 8 * frame.len(),
    ensures
        alpha_bits(embedded(data, w, h, frame), w, h)[k] == frame_bit(frame, k),
{
    lemma_scan_step(w, h, k);
    let p = scan_pixel_index(w, h, k);
    let i = alpha_offset(w, h, k);
    lemma_fundamental_div_mod_converse(i, 4, p, 3);
    assert(4 * w * h == 4 * (w * h)) by (nonlinear_arith);
    lemma_frame_bit_is_bit(frame, k);
    lemma_set_lsb_bit(data[i], frame_bit(frame, k));
}

proof fn lemma_prefix_step(s: Seq<u8>, t: int)
    requires
        0 <= t < s.len(),
    ensures
        bits_value(s.subrange(0, t + 1)) == 2 * bits_value(s.subrange(0, t)) + (s[t] % 2) as nat,
{
    assert(s.subrange(0, t + 1).drop_last() =~= s.subrange(0, t));
}

proof fn lemma_byte_of_bits(b: u8)
    ensures
        b as int == 128 * ((b >> 7u32) & 1u8) + 64 * ((b >> 6u32) & 1u8) + 32 * ((b >> 5u32) & 1u8)
            + 16 * ((b >> 4u32) & 1u8) + 8 * ((b >> 3u32) & 1u8) + 4 * ((b >> 2u32) & 1u8) + 2 * ((
        b >> 1u32) & 1u8) + ((b >> 0u32) & 1u8),
{
    assert(b as int == 128 * ((b >> 7u32) & 1u8) + 64 * ((b >> 6u32) & 1u8) + 32 * ((b >> 5u32)
        & 1u8) + 16 * ((b >> 4u32) & 1u8) + 8 * ((b >> 3u32) & 1u8) + 4 * ((b >> 2u32) & 1u8) + 2
        * ((b >> 1u32) & 1u8) + ((b >> 0u32) & 1u8)) by (bit_vector);
}

/// Eight bits that carry the bits of `frame[j]` assemble back into it.
proof fn lemma_byte_read_back(bits: Seq<u8>, start: int, frame: Seq<u8>, j: int)
    requires
        0 <= j < frame.len(),
        0 <= start,
        start + 8 <= bits.len(),
        forall|t: int| 0 <= t < 8 ==> #[trigger] bits[start + t] % 2 == frame_bit(frame, 8 * j + t),
    ensures
        byte_at(bits, start, ) == frame[j],
{
    let s = bits.subrange(start, start + 8);
    let b = frame[j];
    assert forall|t: int| 0 <= t < 8 implies s[t] % 2 == ((b >> ((7 - t) as u32)) & 1u8) by {
        lemma_fundamental_div_mod_converse(8 * j + t, 8, j, t);
        assert(s[t] == bits[start + t]);
        assert(frame_bit(frame, 8 * j + t) == ((b >> ((7 - t) as u32)) & 1u8));
    }
    lemma_prefix_step(s, 0);
    lemma_prefix_step(s, 1);
    lemma_prefix_step(s, 2);
    lemma_prefix_step(s, 3);
    lemma_prefix_step(s, 4);
    lemma_prefix_step(s, 5);
    lemma_prefix_step(s, 6);
    lemma_prefix_step(s, 7);
    assert(s.subrange(0, 0).len() == 0);
    assert(s.subrange(0, 8) =~= s);
    lemma_byte_of_bits(b);
}

/// Every whole byte of the frame that fits in the grid reads back unchanged.
proof fn lemma_bytes_read_back(data: Seq<u8>, w: int, h: int, frame: Seq<u8>, a: int, n: int)
    requires
        w > 0,
        h > 0,
        data.len() == 4 * w * h,
        0 <= a,
        0 <= n,
        a + n <= frame.len(),
        8 * (a + n) <= w * h,
    ensures
        bytes_at(alpha_bits(embedded(data, w, h, frame), w, h), 8 * a, n as nat) =~= frame.subrange(
            a,
            a + n,
        ),
{
    let bits = alpha_bits(embedded(data, w, h, frame), w, h);
    assert forall|m: int| 0 <= m < n implies #[trigger] bytes_at(bits, 8 * a, n as nat)[m]
        == frame.subrange(a, a + n)[m] by {
        let st = 8 * a + 8 * m;
        assert forall|t: int| 0 <= t < 8 implies #[trigger] bits[st + t] % 2 == frame_bit(
            frame,
            8 * (a + m) + t,
        ) by {
            lemma_alpha_bit_read_back(data, w, h, frame, st + t);
            lemma_frame_bit_is_bit(frame, st + t);
        }
        lemma_byte_read_back(bits, st, frame, a + m);
    }
}

proof fn lemma_length_field(v: u32)
    requires
        v < 0x8000_0000,
    ensures
        be_i32_value(be_u32_bytes(v)) == v,
{
    let b = be_u32_bytes(v);
    assert(((v >> 24u32) as u8) as int * 0x100_0000 + ((v >> 16u32) as u8) as int * 0x1_0000 + ((v
        >> 8u32) as u8) as int * 0x100 + (v as u8) as int == v as int) by (bit_vector);
    assert(be_u32_value(b) == v);
}

proof fn lemma_frame_layout(payload: Seq<u8>)
    requires
        payload.len() <= max_payload_len(),
    ensures
        frame_of(payload).len() == 19 + payload.len(),
        frame_of(payload).subrange(0, 15) =~= magic(),
        frame_of(payload).subrange(15, 19) =~= be_u32_bytes((8 * payload.len()) as u32),
        frame_of(payload).subrange(19, 19 + payload.len() as int) =~= payload,
{
}

/// Round trip of the frame: when the grid has at least one pixel per frame
/// bit, decoding the grid after embedding a non-empty payload gives that
/// payload back.
pub proof fn lemma_round_trip_payload(data: Seq<u8>, w: int, h: int, payload: Seq<u8>)
    requires
        w >= 0,
        h >= 0,
        data.len() == 4 * w * h,
        0 < payload.len() <= max_payload_len(),
        8 * frame_of(payload).len() <= w * h,
    ensures
        grid_payload(embedded(data, w, h, frame_of(payload)), w, h) == Ok::<Seq<u8>, StealthError>(
            payload,
        ),
{
    let frame = frame_of(payload);
    let n = payload.len() as int;
    lemma_frame_layout(payload);
    assert(w > 0 && h > 0) by (nonlinear_arith)
        requires
            w >= 0,
            h >= 0,
            w * h > 0,
    ;
    let e = embedded(data, w, h, frame);
    assert(e.len() == data.len());
    assert(4 * w * h == 4 * (w * h)) by (nonlinear_arith);
    let bits = alpha_bits(e, w, h);
    lemma_bytes_read_back(data, w, h, frame, 0, 15);
    lemma_bytes_read_back(data, w, h, frame, 15, 4);
    lemma_bytes_read_back(data, w, h, frame, 19, n);
    let v = (8 * n) as u32;
    lemma_length_field(v);
    assert(bytes_at(bits, 120, 4) == be_u32_bytes(v));
    assert(bytes_at(bits, 0, 15) == magic());
    assert(be_i32_value(bytes_at(bits, 120, 4)) == 8 * n);
    assert((8 * n) / 8 == n);
    assert(bytes_at(bits, 152, n as nat) == payload);
}

/// Round trip of the text: decoding the grid after embedding a compression
/// of `text` gives `text` back, whenever the grid has a pixel per frame bit.
pub proof fn lemma_round_trip_text(
    data: Seq<u8>,
    w: int,
    h: int,
    compressed: Seq<u8>,
    text: Seq<char>,
)
    requires
        w >= 0,
        h >= 0,
        data.len() == 4 * w * h,
        0 < compressed.len() <= max_payload_len(),
        8 * frame_of(compressed).len() <= w * h,
        gunzip_of(compressed) == Some(encode_utf8(text)),
    ensures
        grid_text(embedded(data, w, h, frame_of(compressed)), w, h) == Some(text),
{
    lemma_round_trip_payload(data, w, h, compressed);
    encode_utf8_valid_utf8(text);
    encode_utf8_decode_utf8(text);
}

/// Capacity shortfall: when the grid has fewer pixels than the frame has
/// bits, decoding the grid after embedding fails with `OutOfRange`. This
/// covers grids too small to hold even the magic and the length.
pub proof fn lemma_short_grid_out_of_range(data: Seq<u8>, w: int, h: int, payload: Seq<u8>)
    requires
        w >= 0,
        h >= 0,
        data.len() == 4 * w * h,
        0 < payload.len() <= max_payload_len(),
        w * h < 8 * frame_of(payload).len(),
    ensures
        grid_payload(embedded(data, w, h, frame_of(payload)), w, h) == Err::<Seq<u8>, StealthError>(
            StealthError::OutOfRange,
        ),
{
    let frame = frame_of(payload);
    let n = payload.len() as int;
    lemma_frame_layout(payload);
    let e = embedded(data, w, h, frame);
    assert(4 * w * h == 4 * (w * h)) by (nonlinear_arith);
    let bits = alpha_bits(e, w, h);
    assert(w * h >= 0) by (nonlinear_arith)
        requires
            w >= 0,
            h >= 0,
    ;
    if w * h >= 120 {
        assert(w > 0 && h > 0) by (nonlinear_arith)
            requires
                w >= 0,
                h >= 0,
                w * h > 0,
        ;
        lemma_bytes_read_back(data, w, h, frame, 0, 15);
        assert(bytes_at(bits, 0, 15) == magic());
        if w * h >= 152 {
            lemma_bytes_read_back(data, w, h, frame, 15, 4);
            let v = (8 * n) as u32;
            lemma_length_field(v);
            assert(bytes_at(bits, 120, 4) == be_u32_bytes(v));
            assert((8 * n) / 8 == n);
        }
    }
}

/// Any bit stream that starts with the frame of a non-empty payload decodes
/// to that payload, whatever bits follow the frame.
pub proof fn lemma_frame_prefix_decodes(bits: Seq<u8>, payload: Seq<u8>)
    requires
        0 < payload.len() <= max_payload_len(),
        bits.len() >= 8 * frame_of(payload).len(),
        bytes_at(bits, 0, frame_of(payload).len()) == frame_of(payload),
    ensures
        parse_frame_spec(bits) == Ok::<Seq<u8>, StealthError>(payload),
{
    let frame = frame_of(payload);
    let n = payload.len() as int;
    lemma_frame_layout(payload);
    assert forall|a: int, m: int| 0 <= a && 0 <= m && a + m <= frame.len() implies #[trigger] bytes_at(
        bits,
        8 * a,
        m as nat,
    ) =~= frame.subrange(a, a + m) by {
        assert forall|k: int| 0 <= k < m implies #[trigger] bytes_at(bits, 8 * a, m as nat)[k] == frame.subrange(
            a,
            a + m,
        )[k] by {
            assert(bytes_at(bits, 0, frame.len())[a + k] == byte_at(bits, 8 * (a + k)));
        }
    }
    assert(bytes_at(bits, 0, 15) == frame.subrange(0, 15));
    assert(bytes_at(bits, 8 * 15int, 4) == frame.subrange(15, 19));
    assert(bytes_at(bits, 8 * 19int, n as nat) == frame.subrange(19, 19 + n));
    let v = (8 * n) as u32;
    lemma_length_field(v);
    assert((8 * n) / 8 == n);
}

} // verus!
