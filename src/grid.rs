use vstd::prelude::*;
use vstd::arithmetic::div_mod::{lemma_fundamental_div_mod, lemma_fundamental_div_mod_converse};

verus! {

/// An RGBA image of 8-bit channels: `data` holds four bytes per pixel,
/// rows top to bottom, pixels left to right within a row.
pub struct PixelGrid {
    pub width: u32,
    pub height: u32,
    pub data: Vec<u8>,
}

impl PixelGrid {
    /// The buffer holds exactly four bytes for every pixel.
    pub open spec fn wf(&self) -> bool {
        self.data@.len() == 4 * self.width * self.height
    }

    /// Number of pixels, which is also the number of bits the grid can carry.
    pub open spec fn capacity(&self) -> int {
        self.width * self.height
    }

    /// Builds a grid from its raw buffer; `None` when the buffer's length is
    /// not four bytes per pixel.
    pub fn from_raw(width: u32, height: u32, data: Vec<u8>) -> (r: Option<PixelGrid>)
        ensures
            r is Some <==> data@.len() == 4 * width * height,
            r matches Some(g) ==> g.width == width && g.height == height && g.data@ == data@,
    {
        let len = data.len();
        proof {
            let (wi, hi) = (width as int, height as int);
            assert(4 * wi * hi == 4 * (wi * hi)) by (nonlinear_arith);
            assert(wi * hi >= 0) by (nonlinear_arith)
                requires
                    wi >= 0,
                    hi >= 0,
            ;
        }
        let pixels = match (width as usize).checked_mul(height as usize) {
            Some(p) => p,
            None => return None,
        };
        let bytes = match pixels.checked_mul(4) {
            Some(b) => b,
            None => return None,
        };
        if len != bytes {
            return None;
        }
        Some(PixelGrid { width, height, data })
    }
}

/// Row-major index of the pixel visited at step `k` of the scan: the scan is
/// column-major, down each column in turn from the left.
pub open spec fn scan_pixel_index(w: int, h: int, k: int) -> int {
    (k % h) * w + k / h
}

/// Step of the scan at which the pixel of row-major index `p` is visited.
pub open spec fn scan_position(w: int, h: int, p: int) -> int {
    (p % w) * h + p / w
}

/// Offset in the buffer of the alpha byte of the pixel visited at step `k`.
pub open spec fn alpha_offset(w: int, h: int, k: int) -> int {
    4 * scan_pixel_index(w, h, k) + 3
}

/// Bit `j` of `frame`, most significant bit of each byte first.
pub open spec fn frame_bit(frame: Seq<u8>, j: int) -> u8 {
    (frame[j / 8] >> ((7 - j % 8) as u32)) & 1u8
}

/// `a` with its lowest bit replaced by `bit`.
pub open spec fn set_lsb(a: u8, bit: u8) -> u8 {
    (a & 0xFEu8) | bit
}

/// The buffer after writing the bits of `frame`, in scan order, into the
/// lowest alpha bits; pixels past the frame's end, or past the grid's end,
/// and all colour bytes are left as they were.
pub open spec fn embedded(data: Seq<u8>, w: int, h: int, frame: Seq<u8>) -> Seq<u8> {
    Seq::new(
        data.len(),
        |i: int|
            if i % 4 == 3 && scan_position(w, h, i / 4) < 8 * frame.len() {
                set_lsb(data[i], frame_bit(frame, scan_position(w, h, i / 4)))
            } else {
                data[i]
            },
    )
}

/// The lowest alpha bit of every pixel, in scan order.
pub open spec fn alpha_bits(data: Seq<u8>, w: int, h: int) -> Seq<u8> {
    Seq::new((w * h) as nat, |k: int| data[alpha_offset(w, h, k)] % 2)
}

/// The pixel visited at step `k` is at column `k / h` and row `k % h`, and
/// no other step visits it.
pub proof fn lemma_scan_step(w: int, h: int, k: int)
    requires
        w > 0,
        h > 0,
        0 <= k < w * h,
    ensures
        0 <= k / h < w,
        0 <= k % h < h,
        0 <= scan_pixel_index(w, h, k) < w * h,
        scan_position(w, h, scan_pixel_index(w, h, k)) == k,
{
    let x = k / h;
    let y = k % h;
    lemma_fundamental_div_mod(k, h);
    assert(x < w) by (nonlinear_arith)
        requires
            k == h * x + y,
            0 <= y < h,
            k < w * h,
    ;
    assert(0 <= x) by (nonlinear_arith)
        requires
            k == h * x + y,
            0 <= y < h,
            0 <= k,
    ;
    let p = y * w + x;
    assert(0 <= p < w * h) by (nonlinear_arith)
        requires
            p == y * w + x,
            0 <= x < w,
            0 <= y < h,
    ;
    lemma_fundamental_div_mod_converse(p, w, y, x);
    assert(x * h + y == k) by (nonlinear_arith)
        requires
            k == h * x + y,
    ;
}

/// Each pixel is visited at exactly one step of the scan.
pub proof fn lemma_pixel_step(w: int, h: int, p: int)
    requires
        w > 0,
        h > 0,
        0 <= p < w * h,
    ensures
        0 <= scan_position(w, h, p) < w * h,
        scan_pixel_index(w, h, scan_position(w, h, p)) == p,
{
    let x = p % w;
    let y = p / w;
    lemma_fundamental_div_mod(p, w);
    assert(0 <= y < h) by (nonlinear_arith)
        requires
            p == w * y + x,
            0 <= x < w,
            0 <= p < w * h,
    ;
    let s = x * h + y;
    assert(0 <= s < w * h) by (nonlinear_arith)
        requires
            s == x * h + y,
            0 <= x < w,
            0 <= y < h,
    ;
    lemma_fundamental_div_mod_converse(s, h, x, y);
    assert(y * w + x == p) by (nonlinear_arith)
        requires
            p == w * y + x,
    ;
}

/// Column and row of the pixel visited at step `k` of the scan shared by
/// embedding and extraction: columns left to right, each top to bottom.
pub fn pixel_at_scan(width: u32, height: u32, k: usize) -> (r: (u32, u32))
    requires
        k < width * height,
    ensures
        r.0 == k as int / height as int,
        r.1 == k as int % height as int,
        r.0 < width,
        r.1 < height,
{
    proof {
        if height == 0 {
            assert(width * height == 0) by (nonlinear_arith)
                requires
                    height == 0,
            ;
        }
        if width == 0 {
            assert(width * height == 0) by (nonlinear_arith)
                requires
                    width == 0,
            ;
        }
        lemma_scan_step(width as int, height as int, k as int);
    }
    let h = height as usize;
    ((k / h) as u32, (k % h) as u32)
}

/// The value a byte of the buffer has once the first `done` steps of the
/// scan have written their bits of `frame`.
pub open spec fn partly_embedded(orig: Seq<u8>, w: int, h: int, frame: Seq<u8>, done: int, i: int) -> u8 {
    if i % 4 == 3 && scan_position(w, h, i / 4) < done {
        set_lsb(orig[i], frame_bit(frame, scan_position(w, h, i / 4)))
    } else {
        orig[i]
    }
}

proof fn lemma_grid_size(w: int, h: int)
    requires
        w >= 0,
        h >= 0,
    ensures
        4 * w * h == 4 * (w * h),
        w * h >= 0,
        w * h > 0 ==> w > 0 && h > 0,
{
    assert(4 * w * h == 4 * (w * h)) by (nonlinear_arith);
    assert(w * h >= 0) by (nonlinear_arith)
        requires
            w >= 0,
            h >= 0,
    ;
    assert(w * h > 0 ==> w > 0 && h > 0) by (nonlinear_arith)
        requires
            w >= 0,
            h >= 0,
    ;
}

/// Writes the bits of `frame`, most significant bit of each byte first, into
/// the lowest alpha bits of the pixels in scan order. Stops at the end of the
/// frame or of the grid, whichever comes first; nothing else changes.
pub fn embed_bits(grid: &mut PixelGrid, frame: &Vec<u8>)
    requires
        old(grid).wf(),
    ensures
        final(grid).wf(),
        final(grid).width == old(grid).width,
        final(grid).height == old(grid).height,
        final(grid).data@ == embedded(
            old(grid).data@,
            old(grid).width as int,
            old(grid).height as int,
            frame@,
        ),
{
    let ghost wi = grid.width as int;
    let ghost hi = grid.height as int;
    let ghost orig = grid.data@;
    proof {
        lemma_grid_size(wi, hi);
    }
    let w = grid.width as usize;
    let h = grid.height as usize;
    let cap: usize = grid.data.len() / 4;
    let nbits: usize = if frame.len() > cap / 8 {
        cap
    } else {
        frame.len() * 8
    };
    let mut k: usize = 0;
    while k < nbits
        invariant
            k <= nbits,
            nbits <= cap,
            nbits <= 8 * frame@.len(),
            nbits == cap || nbits == 8 * frame@.len(),
            cap == wi * hi,
            wi >= 0,
            hi >= 0,
            w == wi,
            h == hi,
            grid.width == wi,
            grid.height == hi,
            orig.len() == 4 * cap,
            4 * cap <= usize::MAX,
            grid.data@.len() == orig.len(),
            forall|i: int|
                0 <= i < orig.len() ==> grid.data@[i] == partly_embedded(
                    orig,
                    wi,
                    hi,
                    frame@,
                    k as int,
                    i,
                ),
        decreases nbits - k,
    {
        proof {
            lemma_grid_size(wi, hi);
            lemma_scan_step(wi, hi, k as int);
        }
        let (x, y) = pixel_at_scan(grid.width, grid.height, k);
        let ghost p = scan_pixel_index(wi, hi, k as int);
        assert(p == (y as int) * wi + x as int);
        let idx: usize = ((y as usize) * w + x as usize) * 4 + 3;
        let bit: u8 = (frame[k / 8] >> ((7 - k % 8) as u32)) & 1;
        let a: u8 = grid.data[idx];
        grid.data.set(idx, (a & 0xFE) | bit);
        proof {
            assert(idx % 4 == 3 && idx / 4 == p);
            assert forall|i: int| 0 <= i < orig.len() implies grid.data@[i] == partly_embedded(
                orig,
                wi,
                hi,
                frame@,
                k + 1,
                i,
            ) by {
                if i % 4 == 3 && scan_position(wi, hi, i / 4) == k {
                    lemma_pixel_step(wi, hi, i / 4);
                    assert(i == idx);
                }
            }
        }
        k = k + 1;
    }
    proof {
        assert forall|i: int| 0 <= i < orig.len() implies grid.data@[i] == embedded(
            orig,
            wi,
            hi,
            frame@,
        )[i] by {
            if i % 4 == 3 {
                lemma_pixel_step(wi, hi, i / 4);
            }
        }
        assert(grid.data@ =~= embedded(orig, wi, hi, frame@));
    }
}

/// The lowest alpha bit of every pixel, in scan order.
pub fn extract_bits(grid: &PixelGrid) -> (r: Vec<u8>)
    requires
        grid.wf(),
    ensures
        r@ == alpha_bits(grid.data@, grid.width as int, grid.height as int),
{
    let ghost wi = grid.width as int;
    let ghost hi = grid.height as int;
    proof {
        lemma_grid_size(wi, hi);
    }
    let w = grid.width as usize;
    let cap: usize = grid.data.len() / 4;
    let mut out: Vec<u8> = Vec::new();
    let mut k: usize = 0;
    while k < cap
        invariant
            k <= cap,
            cap == wi * hi,
            wi >= 0,
            hi >= 0,
            w == wi,
            grid.width == wi,
            grid.height == hi,
            grid.data@.len() == 4 * cap,
            4 * cap <= usize::MAX,
            out@.len() == k,
            forall|j: int| 0 <= j < k ==> out@[j] == grid.data@[alpha_offset(wi, hi, j)] % 2,
        decreases cap - k,
    {
        proof {
            lemma_grid_size(wi, hi);
            lemma_scan_step(wi, hi, k as int);
        }
        let (x, y) = pixel_at_scan(grid.width, grid.height, k);
        assert(scan_pixel_index(wi, hi, k as int) == (y as int) * wi + x as int);
        let idx: usize = ((y as usize) * w + x as usize) * 4 + 3;
        let a: u8 = grid.data[idx];
        assert(a & 1 == a % 2) by (bit_vector);
        out.push(a & 1);
        k = k + 1;
    }
    assert(out@ =~= alpha_bits(grid.data@, wi, hi));
    out
}

} // verus!
