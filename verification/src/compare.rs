//! The in-process pixel-hybrid comparison backend: decoding to 8-bit RGB,
//! padding differently sized images onto a shared canvas, and the hybrid
//! structural/color metric with its false-color diff image.

use vstd::prelude::*;
use crate::pixel::PixelImage;
use crate::pixel::lemma_pad_identity;
use crate::pixel::pad_to;
use crate::pixel::spec_padded;
use crate::Score;
use crate::SCORE_ONE;
use crate::ImDirDiffError;
use vstd::string::StrSliceExecFns;

verus! {

#[verifier::external_type_specification]
#[verifier::external_body]
pub struct ExImageError(image::ImageError);

/// What decoding an image file yields: its dimensions and 8-bit RGB pixel
/// buffer, a function of the encoded bytes alone; nothing when the bytes do
/// not decode.
pub uninterp spec fn rgb_decoding(bytes: Seq<u8>) -> Option<(u32, u32, Seq<u8>)>;

/// The hybrid metric's similarity score for two equally sized RGB buffers,
/// rendered as decimal text, a function of the buffers alone.
pub uninterp spec fn hybrid_score_text(w: u32, h: u32, a: Seq<u8>, b: Seq<u8>) -> Seq<char>;

/// The hybrid metric's similarity score in micro-units: its decimal text
/// read in fixed point.
pub open spec fn hybrid_score_micros(w: u32, h: u32, a: Seq<u8>, b: Seq<u8>) -> int {
    crate::flip::value_micros(hybrid_score_text(w, h, a, b))
}

/// The false-color rendering of the per-pixel differences of two equally
/// sized RGB buffers, a function of the buffers alone.
pub uninterp spec fn hybrid_color_map(w: u32, h: u32, a: Seq<u8>, b: Seq<u8>) -> Seq<u8>;

/// Relies on image::load_from_memory and image::DynamicImage::into_rgb8:
/// decoding is a pure function of the encoded bytes; the RGB8 buffer holds
/// three bytes per pixel; alpha is discarded.
#[verifier::external_body]
pub(crate) fn decode_rgb8(bytes: &Vec<u8>) -> (r: Result<PixelImage, image::ImageError>)
    ensures
        match r {
            Ok(img) => img.wf() && rgb_decoding(bytes@) == Some((img.width, img.height, img.data@)),
            Err(_) => rgb_decoding(bytes@) is None,
        },
{
    let decoded = match image::load_from_memory(bytes.as_slice()) {
        Ok(d) => d,
        Err(e) => return Err(e),
    };
    let rgb = decoded.into_rgb8();
    let width = rgb.width();
    let height = rgb.height();
    let data = rgb.into_raw();
    Ok(PixelImage { width, height, data })
}

/// Relies on image_compare::rgb_hybrid_compare: over two RGB8 buffers of
/// equal nonzero dimensions it cannot fail (its only error is a dimension
/// mismatch); its score is a mean of per-pixel similarities clamped to
/// [0, 1], so it lies in [0, 1] and is exactly 1.0 for identical buffers;
/// rendered as plain (never scientific) decimal text it therefore reads as
/// at most one in fixed point, and as exactly one for identical buffers.
/// The metric sizes its per-pixel buffer with a 32-bit pixel count, so the
/// pixel count must fit a `u32` or that multiplication overflows.
/// Also relies on image_compare::SimilarityImage::to_color_map: the
/// false-color rendering of the per-pixel result, an RGB8 image of the same
/// dimensions.
#[verifier::external_body]
fn hybrid_compare_raw(a: &PixelImage, b: &PixelImage) -> (r: Option<(String, PixelImage)>)
    requires
        a.wf(),
        b.wf(),
        a.width == b.width,
        a.height == b.height,
        a.width as int * a.height as int > 0,
        a.width as int * a.height as int <= u32::MAX as int,
    ensures
        r is Some,
        match r {
            Some(p) => {
                &&& p.0@ == hybrid_score_text(a.width, a.height, a.data@, b.data@)
                &&& crate::flip::valid_decimal(p.0@)
                &&& forall|k: int| 0 <= k < p.0@.len() ==> crate::flip::is_dd(p.0@[k])
                &&& 0 <= crate::flip::value_micros(p.0@) <= SCORE_ONE
                &&& (a.data@ == b.data@ ==> crate::flip::value_micros(p.0@) == SCORE_ONE)
                &&& p.1.wf()
                &&& p.1.width == a.width
                &&& p.1.height == a.height
                &&& p.1.data@ == hybrid_color_map(a.width, a.height, a.data@, b.data@)
            },
            None => true,
        },
{
    let buf_a = image::RgbImage::from_raw(a.width, a.height, a.data.clone())?;
    let buf_b = image::RgbImage::from_raw(b.width, b.height, b.data.clone())?;
    let sim = image_compare::rgb_hybrid_compare(&buf_a, &buf_b).ok()?;
    let text = format!("{}", sim.score);
    let map = sim.image.to_color_map().into_rgb8();
    let width = map.width();
    let height = map.height();
    let data = map.into_raw();
    Some((text, PixelImage { width, height, data }))
}

/// Runs the hybrid metric over two equally sized decoded images and reads
/// its score in fixed point.
fn hybrid_compare(a: &PixelImage, b: &PixelImage) -> (r: (Score, PixelImage))
    requires
        a.wf(),
        b.wf(),
        a.width == b.width,
        a.height == b.height,
        a.width as int * a.height as int > 0,
        a.width as int * a.height as int <= u32::MAX as int,
    ensures
        r.0.micros as int == hybrid_score_micros(a.width, a.height, a.data@, b.data@),
        0 <= r.0.micros <= SCORE_ONE,
        a.data@ == b.data@ ==> r.0.micros == SCORE_ONE,
        r.1.wf(),
        r.1.width == a.width,
        r.1.height == a.height,
        r.1.data@ == hybrid_color_map(a.width, a.height, a.data@, b.data@),
{
    let p: (String, PixelImage) = hybrid_compare_raw(a, b).unwrap();
    let text: String = p.0;
    let s: &str = text.as_str();
    let len: usize = s.unicode_len();
    assert(len > 0) by {
        assert(crate::flip::has_digit(s@));
    }
    match crate::flip::parse_decimal_micros(s, 0, len) {
        Some(v) => {
            proof {
                assert(s@.subrange(0, s@.len() as int) =~= s@);
                assert(crate::flip::clamped_micros(s@) == crate::flip::value_micros(s@));
            }
            (Score { micros: v }, p.1)
        },
        None => {
            proof {
                // the wrapper guarantees a decimal text, so the parser
                // cannot reject it
                assert(s@.subrange(0, s@.len() as int) =~= s@);
                assert(false);
            }
            (Score::one(), PixelImage::empty())
        },
    }
}

/// The dimensions `image::DynamicImage::resize` scales an image to within
/// the given bounds: a pure function of the four dimensions alone, with
/// the aspect ratio preserved up to rounding.
pub uninterp spec fn resize_fit_dims(w: u32, h: u32, max_w: u32, max_h: u32) -> (u32, u32);

/// Relies on image::DynamicImage::resize: it scales to the largest size
/// that fits within the given bounds, preserving the aspect ratio, with
/// the given filter (triangle, a smooth one). The fitted dimensions are a
/// deterministic function of the four dimensions, each at least one and
/// within its bound; the resampled bytes may depend on the machine's
/// floating-point paths, so nothing is claimed of them beyond
/// well-formedness.
#[verifier::external_body]
pub fn resize_to_fit(img: &PixelImage, max_w: u32, max_h: u32) -> (r: PixelImage)
    requires
        img.wf(),
        img.width as int * img.height as int > 0,
        max_w >= 1,
        max_h >= 1,
    ensures
        r.wf(),
        (r.width, r.height) == resize_fit_dims(img.width, img.height, max_w, max_h),
        1 <= r.width <= max_w,
        1 <= r.height <= max_h,
{
    let buf = match image::RgbImage::from_raw(img.width, img.height, img.data.clone()) {
        Some(b) => b,
        // unreachable: a well-formed buffer holds exactly three bytes per
        // pixel, which from_raw accepts
        None => return PixelImage { width: 0, height: 0, data: Vec::new() },
    };
    let scaled = image::DynamicImage::ImageRgb8(buf).resize(
        max_w,
        max_h,
        image::imageops::FilterType::Triangle,
    );
    let rgb = scaled.into_rgb8();
    let width = rgb.width();
    let height = rgb.height();
    let data = rgb.into_raw();
    PixelImage { width, height, data }
}

/// The larger of two dimensions.
pub open spec fn max_dim(a: u32, b: u32) -> u32 {
    if a >= b {
        a
    } else {
        b
    }
}

/// Whether a canvas of these dimensions can be compared: its
/// three-byte-per-pixel buffer fits in memory, and its pixel count fits a
/// `u32`, the width of the index the metric sizes its per-pixel result
/// buffer with.
pub open spec fn canvas_fits(w: u32, h: u32) -> bool {
    &&& 3 * w as int * h as int <= usize::MAX as int
    &&& w as int * h as int <= u32::MAX as int
}

/// What a comparison of two decoded images scores: the hybrid metric over
/// the two buffers, each first composited onto the zero-filled canvas of
/// the joint dimensions; a pair with no pixels at all counts as identical.
pub open spec fn spec_compare_score(a: (u32, u32, Seq<u8>), b: (u32, u32, Seq<u8>)) -> int {
    let w = max_dim(a.0, b.0);
    let h = max_dim(a.1, b.1);
    if w as int * h as int == 0 {
        SCORE_ONE as int
    } else {
        hybrid_score_micros(w, h, spec_padded(a, w, h), spec_padded(b, w, h))
    }
}

/// The diff artifact of a comparison: the false-color map over the padded
/// buffers, empty for a pair with no pixels.
pub open spec fn spec_compare_diff(a: (u32, u32, Seq<u8>), b: (u32, u32, Seq<u8>)) -> (
    u32,
    u32,
    Seq<u8>,
) {
    let w = max_dim(a.0, b.0);
    let h = max_dim(a.1, b.1);
    if w as int * h as int == 0 {
        (0u32, 0u32, Seq::<u8>::empty())
    } else {
        (w, h, hybrid_color_map(w, h, spec_padded(a, w, h), spec_padded(b, w, h)))
    }
}

/// One comparator invocation's product: the similarity score and the owned
/// diff-visualization image.
#[derive(Debug)]
pub struct ComparisonOutcome {
    pub score: Score,
    pub diff: PixelImage,
}

/// Compares two decoded images: equal dimensions are compared directly,
/// differing dimensions are first padded onto the joint canvas, so a size
/// change registers as a visible difference instead of an error.
pub fn compare_decoded(a: &PixelImage, b: &PixelImage) -> (r: ComparisonOutcome)
    requires
        a.wf(),
        b.wf(),
        canvas_fits(max_dim(a.width, b.width), max_dim(a.height, b.height)),
    ensures
        r.score.micros as int == spec_compare_score(a@, b@),
        0 <= r.score.micros <= SCORE_ONE,
        r.diff.wf(),
        r.diff@ == spec_compare_diff(a@, b@),
        a@ == b@ ==> r.score.micros == SCORE_ONE,
{
    let w: u32 = if a.width >= b.width {
        a.width
    } else {
        b.width
    };
    let h: u32 = if a.height >= b.height {
        a.height
    } else {
        b.height
    };
    if w == 0 || h == 0 {
        proof {
            assert(w as int * h as int == 0) by (nonlinear_arith)
                requires
                    w == 0 || h == 0,
            ;
        }
        return ComparisonOutcome { score: Score::one(), diff: PixelImage::empty() };
    }
    proof {
        assert(w as int * h as int > 0) by (nonlinear_arith)
            requires
                w >= 1,
                h >= 1,
        ;
    }
    if a.width == b.width && a.height == b.height {
        proof {
            lemma_pad_identity(a@);
            lemma_pad_identity(b@);
        }
        let p: (Score, PixelImage) = hybrid_compare(a, b);
        ComparisonOutcome { score: p.0, diff: p.1 }
    } else {
        let pa: PixelImage = pad_to(a, w, h);
        let pb: PixelImage = pad_to(b, w, h);
        let p: (Score, PixelImage) = hybrid_compare(&pa, &pb);
        ComparisonOutcome { score: p.0, diff: p.1 }
    }
}

/// Whether the padded canvas of the joint dimensions can be compared
/// (see `canvas_fits`).
pub fn check_canvas_fits(wa: u32, wb: u32, ha: u32, hb: u32) -> (r: bool)
    ensures
        r == canvas_fits(max_dim(wa, wb), max_dim(ha, hb)),
{
    let w: u32 = if wa >= wb {
        wa
    } else {
        wb
    };
    let h: u32 = if ha >= hb {
        ha
    } else {
        hb
    };
    let area: Option<u32> = w.checked_mul(h);
    match area {
        None => {
            assert(w as int * h as int > u32::MAX as int);
            false
        },
        Some(p) => {
            let bytes: Option<usize> = (p as usize).checked_mul(3);
            proof {
                assert(3 * w as int * h as int == (w as int * h as int) * 3) by (nonlinear_arith);
            }
            match bytes {
                None => false,
                Some(_) => true,
            }
        },
    }
}

/// Re-comparing the same encoded bytes reads the same score: decoding and
/// the metric reading are functions of the bytes alone, so a second run
/// over unchanged inputs scores every common path as the first did.
pub proof fn lemma_compare_deterministic(a1: Seq<u8>, b1: Seq<u8>, a2: Seq<u8>, b2: Seq<u8>)
    requires
        a1 == a2,
        b1 == b2,
    ensures
        rgb_decoding(a1) == rgb_decoding(a2),
        rgb_decoding(b1) == rgb_decoding(b2),
        (rgb_decoding(a1) is Some && rgb_decoding(b1) is Some) ==> spec_compare_score(
            rgb_decoding(a1)->0,
            rgb_decoding(b1)->0,
        ) == spec_compare_score(rgb_decoding(a2)->0, rgb_decoding(b2)->0),
{
}

/// Compares two encoded images byte-for-byte-deterministically: both are
/// decoded to 8-bit RGB and compared with the hybrid metric over the joint
/// canvas. A file that does not decode aborts with a decode error; a joint
/// canvas too large to compare aborts with its own error.
pub fn compare_rgb_bytes(a_bytes: &Vec<u8>, b_bytes: &Vec<u8>) -> (r: Result<
    ComparisonOutcome,
    ImDirDiffError,
>)
    ensures
        match r {
            Ok(out) => {
                &&& rgb_decoding(a_bytes@) is Some
                &&& rgb_decoding(b_bytes@) is Some
                &&& ({
                    let ta = rgb_decoding(a_bytes@)->0;
                    let tb = rgb_decoding(b_bytes@)->0;
                    &&& canvas_fits(max_dim(ta.0, tb.0), max_dim(ta.1, tb.1))
                    &&& out.score.micros as int == spec_compare_score(ta, tb)
                    &&& 0 <= out.score.micros <= SCORE_ONE
                    &&& out.diff.wf()
                    &&& out.diff@ == spec_compare_diff(ta, tb)
                })
                &&& (a_bytes@ == b_bytes@ ==> out.score.micros == SCORE_ONE)
            },
            Err(e) => match e {
                ImDirDiffError::ImageError(_) => rgb_decoding(a_bytes@) is None || rgb_decoding(
                    b_bytes@,
                ) is None,
                ImDirDiffError::ImagesTooLarge => {
                    &&& rgb_decoding(a_bytes@) is Some
                    &&& rgb_decoding(b_bytes@) is Some
                    &&& ({
                        let ta = rgb_decoding(a_bytes@)->0;
                        let tb = rgb_decoding(b_bytes@)->0;
                        !canvas_fits(max_dim(ta.0, tb.0), max_dim(ta.1, tb.1))
                    })
                },
                _ => false,
            },
        },
{
    let a: PixelImage = match decode_rgb8(a_bytes) {
        Ok(img) => img,
        Err(e) => {
            return Err(ImDirDiffError::ImageError(e));
        },
    };
    let b: PixelImage = match decode_rgb8(b_bytes) {
        Ok(img) => img,
        Err(e) => {
            return Err(ImDirDiffError::ImageError(e));
        },
    };
    if !check_canvas_fits(a.width, b.width, a.height, b.height) {
        return Err(ImDirDiffError::ImagesTooLarge);
    }
    let out: ComparisonOutcome = compare_decoded(&a, &b);
    Ok(out)
}

} // verus!
