use vstd::prelude::*;
use vstd::arithmetic::power2::{pow2, lemma_pow2_unfold, lemma2_to64};
use crate::error::StealthError;

verus! {

/// The number whose binary digits, most significant first, are the lowest
/// bits of the elements of `bits`.
pub open spec fn bits_value(bits: Seq<u8>) -> nat
    decreases bits.len(),
{
    if bits.len() == 0 {
        0
    } else {
        2 * bits_value(bits.drop_last()) + (bits.last() % 2) as nat
    }
}

/// The byte assembled, most significant bit first, from the eight bits that
/// start at `start`.
pub open spec fn byte_at(bits: Seq<u8>, start: int) -> u8 {
    bits_value(bits.subrange(start, start + 8)) as u8
}

/// The `n` bytes assembled from consecutive groups of eight bits, the first
/// group starting at `start`.
pub open spec fn bytes_at(bits: Seq<u8>, start: int, n: nat) -> Seq<u8> {
    Seq::new(n, |k: int| byte_at(bits, start + 8 * k))
}

/// Four bytes read as an unsigned big-endian number.
pub open spec fn be_u32_value(b: Seq<u8>) -> int {
    b[0] * 0x100_0000 + b[1] * 0x1_0000 + b[2] * 0x100 + b[3]
}

/// Four bytes read as a signed (two's complement) big-endian number.
pub open spec fn be_i32_value(b: Seq<u8>) -> int {
    let u = be_u32_value(b);
    if u >= 0x8000_0000 {
        u - 0x1_0000_0000
    } else {
        u
    }
}

pub proof fn lemma_bits_value_bound(bits: Seq<u8>)
    ensures
        bits_value(bits) < pow2(bits.len()),
    decreases bits.len(),
{
    if bits.len() > 0 {
        lemma_bits_value_bound(bits.drop_last());
        lemma_pow2_unfold(bits.len());
    } else {
        lemma2_to64();
    }
}

/// Sequential reader over a sequence of bits, each bit being the lowest bit
/// of one element of `data`.
pub struct DataReader {
    pub data: Vec<u8>,
    pub index: usize,
}

impl DataReader {
    /// The bits not yet consumed are those from `index` on.
    pub open spec fn remaining(&self) -> int {
        self.data@.len() - self.index
    }

    pub fn new(data: Vec<u8>) -> (r: DataReader)
        ensures
            r.data@ == data@,
            r.index == 0,
    {
        DataReader { data, index: 0 }
    }

    /// Consumes one bit.
    pub fn read_bit(&mut self) -> (r: Result<u8, StealthError>)
        ensures
            final(self).data@ == old(self).data@,
            old(self).remaining() >= 1 ==> r == Ok::<u8, StealthError>(
                (old(self).data@[old(self).index as int] % 2) as u8,
            ) && final(self).index == old(self).index + 1,
            old(self).remaining() < 1 ==> r == Err::<u8, StealthError>(StealthError::OutOfRange)
                && final(self).index == old(self).index,
    {
        if self.index >= self.data.len() {
            return Err(StealthError::OutOfRange);
        }
        let v = self.data[self.index];
        let bit = v & 1;
        assert(v & 1 == v % 2) by (bit_vector);
        self.index = self.index + 1;
        Ok(bit)
    }

    /// Consumes eight bits and assembles them, most significant first.
    pub fn read_byte(&mut self) -> (r: Result<u8, StealthError>)
        ensures
            final(self).data@ == old(self).data@,
            old(self).remaining() >= 8 ==> r == Ok::<u8, StealthError>(
                byte_at(old(self).data@, old(self).index as int),
            ) && final(self).index == old(self).index + 8,
            old(self).remaining() < 8 ==> r == Err::<u8, StealthError>(StealthError::OutOfRange)
                && final(self).index == old(self).index,
    {
        if self.index > self.data.len() || self.data.len() - self.index < 8 {
            return Err(StealthError::OutOfRange);
        }
        let ghost start = self.index as int;
        let ghost bits = self.data@;
        let mut byte: u8 = 0;
        let mut i: usize = 0;
        while i < 8
            invariant
                i <= 8,
                0 <= start,
                self.data@ == bits,
                self.index == start + i,
                start + 8 <= bits.len(),
                byte as nat == bits_value(bits.subrange(start, start + i)),
            decreases 8 - i,
        {
            let bit = match self.read_bit() {
                Ok(b) => b,
                Err(e) => return Err(e),
            };
            let ghost prev = bits.subrange(start, start + i);
            let ghost next = bits.subrange(start, start + i + 1);
            proof {
                assert(next.drop_last() =~= prev);
                lemma_bits_value_bound(prev);
                lemma2_to64();
                if i < 7 {
                    vstd::arithmetic::power2::lemma_pow2_strictly_increases(i as nat, 7);
                }
                assert(byte < 128);
                assert(bit < 2);
            }
            byte = byte * 2 + bit;
            i = i + 1;
        }
        Ok(byte)
    }
    /// Consumes `8 * n` bits as `n` bytes. When fewer bits remain, nothing is
    /// consumed.
    pub fn read_bytes(&mut self, n: usize) -> (r: Result<Vec<u8>, StealthError>)
        ensures
            final(self).data@ == old(self).data@,
            old(self).remaining() >= 8 * n ==> r is Ok && r->Ok_0@ == bytes_at(
                old(self).data@,
                old(self).index as int,
                n as nat,
            ) && final(self).index == old(self).index + 8 * n,
            old(self).remaining() < 8 * n ==> r == Err::<Vec<u8>, StealthError>(
                StealthError::OutOfRange,
            ) && final(self).index == old(self).index,
    {
        if self.index > self.data.len() || n > (self.data.len() - self.index) / 8 {
            return Err(StealthError::OutOfRange);
        }
        let ghost start = self.index as int;
        let ghost bits = self.data@;
        let mut out: Vec<u8> = Vec::new();
        let mut k: usize = 0;
        while k < n
            invariant
                k <= n,
                0 <= start,
                start + 8 * n <= bits.len(),
                self.data@ == bits,
                self.index == start + 8 * k,
                out@ == bytes_at(bits, start, k as nat),
            decreases n - k,
        {
            let b = match self.read_byte() {
                Ok(b) => b,
                Err(e) => return Err(e),
            };
            out.push(b);
            k = k + 1;
            assert(out@ =~= bytes_at(bits, start, k as nat));
        }
        Ok(out)
    }

    /// Consumes 32 bits as a big-endian two's complement number. When fewer
    /// bits remain, nothing is consumed.
    pub fn read_int32(&mut self) -> (r: Result<i32, StealthError>)
        ensures
            final(self).data@ == old(self).data@,
            old(self).remaining() >= 32 ==> r is Ok && r->Ok_0 == be_i32_value(
                bytes_at(old(self).data@, old(self).index as int, 4),
            ) && final(self).index == old(self).index + 32,
            old(self).remaining() < 32 ==> r == Err::<i32, StealthError>(StealthError::OutOfRange)
                && final(self).index == old(self).index,
    {
        let bytes = match self.read_bytes(4) {
            Ok(b) => b,
            Err(e) => return Err(e),
        };
        let u: u32 = (bytes[0] as u32) * 0x100_0000 + (bytes[1] as u32) * 0x1_0000
            + (bytes[2] as u32) * 0x100 + bytes[3] as u32;
        if u >= 0x8000_0000 {
            Ok((u as i64 - 0x1_0000_0000i64) as i32)
        } else {
            Ok(u as i32)
        }
    }
}

} // verus!
