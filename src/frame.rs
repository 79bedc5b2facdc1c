use vstd::prelude::*;
use crate::bitstream::{bytes_at, be_i32_value, DataReader};
use crate::error::StealthError;

verus! {

/// Number of bytes of the magic header.
pub const MAGIC_LEN: usize = 15;

/// The magic header, the ASCII text `stealth_pngcomp`.
pub open spec fn magic() -> Seq<u8> {
    seq![115u8, 116, 101, 97, 108, 116, 104, 95, 112, 110, 103, 99, 111, 109, 112]
}

/// The magic header as bytes; the one definition both directions use.
pub fn magic_bytes() -> (r: Vec<u8>)
    ensures
        r@ == magic(),
{
    let r: Vec<u8> = vec![115u8, 116, 101, 97, 108, 116, 104, 95, 112, 110, 103, 99, 111, 109, 112];
    assert(r@ =~= magic());
    r
}

/// The four big-endian bytes of `v`.
pub open spec fn be_u32_bytes(v: u32) -> Seq<u8> {
    seq![(v >> 24u32) as u8, (v >> 16u32) as u8, (v >> 8u32) as u8, v as u8]
}

/// Largest payload, in bytes, whose bit length fits the signed length field.
pub open spec fn max_payload_len() -> int {
    0x7fff_ffffint / 8
}

/// The frame that carries `payload`: magic, the payload's length in bits as
/// a big-endian 32-bit number, then the payload.
pub open spec fn frame_of(payload: Seq<u8>) -> Seq<u8>
    recommends
        payload.len() <= max_payload_len(),
{
    magic() + be_u32_bytes((8 * payload.len()) as u32) + payload
}

/// Wraps `payload` in a frame. Fails with `PayloadTooLarge` exactly when its
/// bit length does not fit a signed 32-bit number.
pub fn build_frame(payload: &Vec<u8>) -> (r: Result<Vec<u8>, StealthError>)
    ensures
        payload@.len() <= max_payload_len() ==> r is Ok && r->Ok_0@ == frame_of(payload@),
        payload@.len() > max_payload_len() ==> r == Err::<Vec<u8>, StealthError>(
            StealthError::PayloadTooLarge,
        ),
{
    if payload.len() > 0x7fff_ffff / 8 {
        return Err(StealthError::PayloadTooLarge);
    }
    let bit_length: u32 = (payload.len() * 8) as u32;
    let mut out = magic_bytes();
    out.push((bit_length >> 24u32) as u8);
    out.push((bit_length >> 16u32) as u8);
    out.push((bit_length >> 8u32) as u8);
    out.push(bit_length as u8);
    let mut i: usize = 0;
    while i < payload.len()
        invariant
            i <= payload@.len(),
            out@ == magic() + be_u32_bytes(bit_length) + payload@.subrange(0, i as int),
        decreases payload@.len() - i,
    {
        out.push(payload[i]);
        i = i + 1;
        assert(out@ =~= magic() + be_u32_bytes(bit_length) + payload@.subrange(0, i as int));
    }
    assert(payload@.subrange(0, payload@.len() as int) =~= payload@);
    Ok(out)
}

/// What decoding a sequence of bits yields: the payload of the frame they
/// start with, or the first failure met while reading the magic, the length
/// and the payload in turn.
pub open spec fn parse_frame_spec(bits: Seq<u8>) -> Result<Seq<u8>, StealthError> {
    if bits.len() < 120 {
        Err(StealthError::OutOfRange)
    } else if bytes_at(bits, 0, 15) != magic() {
        Err(StealthError::MagicNotFound)
    } else if bits.len() < 152 {
        Err(StealthError::OutOfRange)
    } else {
        let bit_length = be_i32_value(bytes_at(bits, 120, 4));
        if bit_length <= 0 {
            Err(StealthError::CorruptLength)
        } else if 152 + 8 * (bit_length / 8) > bits.len() {
            Err(StealthError::OutOfRange)
        } else {
            Ok(bytes_at(bits, 152, (bit_length / 8) as nat))
        }
    }
}

/// Reads the frame at the start of `bits` and returns its payload.
pub fn parse_frame(bits: Vec<u8>) -> (r: Result<Vec<u8>, StealthError>)
    ensures
        r matches Ok(p) ==> parse_frame_spec(bits@) == Ok::<Seq<u8>, StealthError>(p@),
        r matches Err(e) ==> parse_frame_spec(bits@) == Err::<Seq<u8>, StealthError>(e),
{
    let mut reader = DataReader::new(bits);
    let found = match reader.read_bytes(MAGIC_LEN) {
        Ok(m) => m,
        Err(e) => return Err(e),
    };
    let expected = magic_bytes();
    let mut same = true;
    let mut i: usize = 0;
    while i < MAGIC_LEN
        invariant
            found@.len() == MAGIC_LEN,
            expected@ == magic(),
            i <= MAGIC_LEN,
            same <==> forall|j: int| 0 <= j < i ==> found@[j] == expected@[j],
        decreases MAGIC_LEN - i,
    {
        if found[i] != expected[i] {
            same = false;
        }
        i = i + 1;
    }
    if !same {
        return Err(StealthError::MagicNotFound);
    }
    assert(found@ =~= magic());
    let bit_length = match reader.read_int32() {
        Ok(v) => v,
        Err(e) => return Err(e),
    };
    if bit_length <= 0 {
        return Err(StealthError::CorruptLength);
    }
    let byte_length: usize = (bit_length / 8) as usize;
    reader.read_bytes(byte_length)
}

} // verus!
