//! Decoded images as plain values: width, height and a row-major 8-bit RGB
//! buffer, and the zero-filled padding that makes differently sized images
//! comparable.

use vstd::prelude::*;
use vstd::arithmetic::div_mod::lemma_fundamental_div_mod;
use vstd::arithmetic::div_mod::lemma_fundamental_div_mod_converse;
use vstd::arithmetic::div_mod::lemma_mod_pos_bound;

verus! {

/// A decoded 8-bit RGB image. The buffer holds three bytes per pixel in
/// row-major order.
#[derive(Clone, Debug)]
pub struct PixelImage {
    pub width: u32,
    pub height: u32,
    pub data: Vec<u8>,
}

impl View for PixelImage {
    type V = (u32, u32, Seq<u8>);

    open spec fn view(&self) -> (u32, u32, Seq<u8>) {
        (self.width, self.height, self.data@)
    }
}

/// The buffer length fits the dimensions: three bytes per pixel.
pub open spec fn rgb_wf(t: (u32, u32, Seq<u8>)) -> bool {
    t.2.len() == 3 * t.0 as int * t.1 as int
}

/// The byte of channel `ch` of the pixel at `(x, y)`.
pub open spec fn pixel_byte(t: (u32, u32, Seq<u8>), x: int, y: int, ch: int) -> u8 {
    t.2[3 * (y * t.0 as int + x) + ch]
}

/// The image composited into the top-left corner of a zero-filled `w` by
/// `h` canvas: inside the original dimensions the original byte, outside
/// them zero.
pub open spec fn spec_padded(t: (u32, u32, Seq<u8>), w: u32, h: u32) -> Seq<u8> {
    Seq::new(
        (3 * w as int * h as int) as nat,
        |i: int|
            {
                let row = i / (3 * w as int);
                let rem = i % (3 * w as int);
                let col = rem / 3;
                let ch = rem % 3;
                if col < t.0 && row < t.1 {
                    pixel_byte(t, col, row, ch)
                } else {
                    0u8
                }
            },
    )
}

impl PixelImage {
    /// The buffer length fits the dimensions.
    pub open spec fn wf(&self) -> bool {
        rgb_wf(self@)
    }

    /// An image with no pixels.
    pub fn empty() -> (r: PixelImage)
        ensures
            r.wf(),
            r.width == 0,
            r.height == 0,
            r.data@ == Seq::<u8>::empty(),
    {
        let data: Vec<u8> = Vec::new();
        assert(data@ =~= Seq::<u8>::empty());
        PixelImage { width: 0, height: 0, data }
    }
}

/// Relates a buffer index of the padded canvas to its pixel coordinates.
pub proof fn lemma_padded_index(t: (u32, u32, Seq<u8>), w: u32, h: u32, x: int, y: int, ch: int)
    requires
        0 <= x < w,
        0 <= y < h,
        0 <= ch < 3,
    ensures
        0 <= 3 * (y * w as int + x) + ch < 3 * w as int * h as int,
        spec_padded(t, w, h)[3 * (y * w as int + x) + ch] == (if x < t.0 && y < t.1 {
            pixel_byte(t, x, y, ch)
        } else {
            0u8
        }),
{
    let wi = w as int;
    let hi = h as int;
    let i = 3 * (y * wi + x) + ch;
    assert(y * wi + x < wi * hi) by (nonlinear_arith)
        requires
            0 <= x < wi,
            0 <= y < hi,
    ;
    assert(0 <= y * wi + x) by (nonlinear_arith)
        requires
            0 <= x,
            0 <= y,
            0 < wi,
    ;
    assert(i < 3 * wi * hi) by (nonlinear_arith)
        requires
            y * wi + x < wi * hi,
            ch < 3,
            i == 3 * (y * wi + x) + ch,
    ;
    assert(i == y * (3 * wi) + (3 * x + ch)) by (nonlinear_arith)
        requires
            i == 3 * (y * wi + x) + ch,
    ;
    assert(0 <= 3 * x + ch < 3 * wi);
    lemma_fundamental_div_mod_converse(i, 3 * wi, y, 3 * x + ch);
    lemma_fundamental_div_mod_converse(3 * x + ch, 3, x, ch);
    assert(i / (3 * wi) == y);
    assert(i % (3 * wi) == 3 * x + ch);
    assert((3 * x + ch) / 3 == x);
    assert((3 * x + ch) % 3 == ch);
}

/// Padding an image to its own dimensions leaves its buffer unchanged.
pub proof fn lemma_pad_identity(t: (u32, u32, Seq<u8>))
    requires
        rgb_wf(t),
    ensures
        spec_padded(t, t.0, t.1) == t.2,
{
    let wi = t.0 as int;
    let hi = t.1 as int;
    let p = spec_padded(t, t.0, t.1);
    assert forall|i: int| 0 <= i < p.len() implies p[i] == t.2[i] by {
        lemma_fundamental_div_mod(i, 3 * wi);
        lemma_mod_pos_bound(i, 3 * wi);
        let row = i / (3 * wi);
        let rem = i % (3 * wi);
        lemma_fundamental_div_mod(rem, 3);
        lemma_mod_pos_bound(rem, 3);
        let col = rem / 3;
        let ch = rem % 3;
        assert(0 <= row < hi) by (nonlinear_arith)
            requires
                0 <= i < 3 * wi * hi,
                i == (3 * wi) * row + rem,
                0 <= rem < 3 * wi,
                0 < wi,
        ;
        assert(0 <= col < wi) by (nonlinear_arith)
            requires
                rem == 3 * col + ch,
                0 <= ch < 3,
                0 <= rem < 3 * wi,
        ;
        assert(i == 3 * (row * wi + col) + ch) by (nonlinear_arith)
            requires
                i == (3 * wi) * row + rem,
                rem == 3 * col + ch,
        ;
        assert(p[i] == pixel_byte(t, col, row, ch));
    }
    assert(p =~= t.2);
}

/// Builds the zero-filled canvas with the image in its top-left corner
/// (see `spec_padded`).
pub fn pad_to(img: &PixelImage, w: u32, h: u32) -> (r: PixelImage)
    requires
        img.wf(),
        img.width <= w,
        img.height <= h,
        3 * w as int * h as int <= usize::MAX as int,
    ensures
        r.wf(),
        r.width == w,
        r.height == h,
        r.data@ == spec_padded(img@, w, h),
{
    let ghost t = img@;
    let w0: usize = img.width as usize;
    let h0: usize = img.height as usize;
    let mut data: Vec<u8> = Vec::new();
    let mut y: usize = 0;
    while y < h as usize
        invariant
            img.wf(),
            t == img@,
            w0 == img.width && h0 == img.height,
            img.width <= w && img.height <= h,
            3 * w as int * h as int <= usize::MAX as int,
            0 <= y <= h as usize,
            data@.len() == 3 * ((y as int) * (w as int)),
            forall|i: int| 0 <= i < data@.len() ==> data@[i] == spec_padded(t, w, h)[i],
        decreases h as usize - y,
    {
        let mut x: usize = 0;
        while x < w as usize
            invariant
                img.wf(),
                t == img@,
                w0 == img.width && h0 == img.height,
                img.width <= w && img.height <= h,
                3 * w as int * h as int <= usize::MAX as int,
                0 <= y < h as usize,
                0 <= x <= w as usize,
                data@.len() == 3 * ((y as int) * (w as int) + x as int),
                forall|i: int| 0 <= i < data@.len() ==> data@[i] == spec_padded(t, w, h)[i],
            decreases w as usize - x,
        {
            proof {
                assert(3 * ((y as int) * (w as int) + x as int) + 3 <= 3 * w as int * h as int)
                    by (nonlinear_arith)
                    requires
                        0 <= x < w as int,
                        0 <= y < h as int,
                ;
                lemma_padded_index(t, w, h, x as int, y as int, 0);
                lemma_padded_index(t, w, h, x as int, y as int, 1);
                lemma_padded_index(t, w, h, x as int, y as int, 2);
            }
            if x < w0 && y < h0 {
                let dlen: usize = img.data.len();
                proof {
                    assert(dlen as int == 3 * (w0 as int) * (h0 as int));
                    assert(3 * ((y as int) * (w0 as int) + x as int) + 3 <= 3 * (w0 as int) * (
                    h0 as int)) by (nonlinear_arith)
                        requires
                            0 <= x < w0 as int,
                            0 <= y < h0 as int,
                    ;
                }
                let base: usize = 3 * (y * w0 + x);
                data.push(img.data[base]);
                data.push(img.data[base + 1]);
                data.push(img.data[base + 2]);
            } else {
                data.push(0);
                data.push(0);
                data.push(0);
            }
            x = x + 1;
        }
        proof {
            assert(3 * ((y as int) * (w as int) + w as int) == 3 * (((y as int) + 1) * (
            w as int))) by (nonlinear_arith);
        }
        y = y + 1;
    }
    proof {
        assert(3 * ((h as int) * (w as int)) == 3 * (w as int) * (h as int)) by (nonlinear_arith);
        assert(data@ =~= spec_padded(t, w, h));
    }
    PixelImage { width: w, height: h, data }
}

} // verus!
