//! The artifact store's plan: which files a comparison leaves under the
//! report root — verbatim copies of the sources, the diff image, and a
//! height-bounded thumbnail beside each — and the comparison that produces
//! them.

use vstd::prelude::*;
use vstd::slice::slice_to_vec;
use vstd::string::StringExecFns;
use crate::compare::ComparisonOutcome;
use crate::compare::canvas_fits;
use crate::compare::check_canvas_fits;
use crate::compare::compare_decoded;
use crate::compare::decode_rgb8;
use crate::compare::max_dim;
use crate::compare::resize_fit_dims;
use crate::compare::resize_to_fit;
use crate::compare::rgb_decoding;
use crate::compare::spec_compare_diff;
use crate::compare::spec_compare_score;
use crate::paths::spec_join;
use crate::paths::spec_thumb_path;
use crate::paths::join_path;
use crate::paths::thumb_path;
use crate::pixel::PixelImage;
use crate::Config;
use crate::ImDirDiffError;
use crate::Score;
use crate::SCORE_ONE;

verus! {

/// What one artifact file holds: bytes copied verbatim, or an image that
/// the writer encodes by the path's extension.
#[derive(Debug)]
pub enum ArtifactData {
    Copy(Vec<u8>),
    Picture(PixelImage),
}

/// One file of the report tree: where it goes and what it holds.
#[derive(Debug)]
pub struct ArtifactFile {
    pub path: String,
    pub data: ArtifactData,
}

/// The place of an artifact: `<root>/<side>/<relative path>`.
pub open spec fn spec_artifact_path(root: Seq<char>, side: Seq<char>, rel: Seq<char>) -> Seq<
    char,
> {
    spec_join(spec_join(root, side), rel)
}

/// Builds the artifact path `<root>/<side>/<rel>` (see `spec_artifact_path`).
pub fn artifact_path(cfg: &Config, side: &str, rel: &String) -> (r: String)
    ensures
        r@ == spec_artifact_path(cfg.report_root@, side@, rel@),
{
    let side_string: String = String::from_str(side);
    let dir: String = join_path(&cfg.report_root, &side_string);
    join_path(&dir, rel)
}

/// The dimensions a thumbnail of a `w` by `h` image has: the fitted size
/// under an unbounded width and the given height bound, or no pixels at
/// all for an image that has none.
pub open spec fn spec_thumb_dims(w: u32, h: u32, max_h: u32) -> (u32, u32) {
    if w > 0 && h > 0 {
        resize_fit_dims(w, h, u32::MAX, max_h)
    } else {
        (0u32, 0u32)
    }
}

/// `t` is the thumbnail of an image with the dimensions of `src`: well
/// formed, of the fitted dimensions, no taller than the bound.
pub open spec fn is_thumb_of(t: PixelImage, src: (u32, u32, Seq<u8>), max_h: u32) -> bool {
    &&& t.wf()
    &&& (t.width, t.height) == spec_thumb_dims(src.0, src.1, max_h)
    &&& t.height <= max_h
    &&& (src.0 > 0 && src.1 > 0 ==> t.width >= 1 && t.height >= 1)
}

/// A height-bounded, aspect-preserving thumbnail of the image; an image
/// with no pixels stays empty.
pub fn thumbnail(img: &PixelImage, max_h: u32) -> (r: PixelImage)
    requires
        img.wf(),
        max_h >= 1,
    ensures
        r.wf(),
        r.height <= max_h,
        (r.width, r.height) == spec_thumb_dims(img.width, img.height, max_h),
        img.width > 0 && img.height > 0 ==> r.width >= 1 && r.height >= 1,
{
    if img.width > 0 && img.height > 0 {
        proof {
            assert(img.width as int * img.height as int > 0) by (nonlinear_arith)
                requires
                    img.width >= 1,
                    img.height >= 1,
            ;
        }
        resize_to_fit(img, u32::MAX, max_h)
    } else {
        PixelImage::empty()
    }
}

/// The six files a changed comparison leaves, in writing order: the copy
/// of side A and its thumbnail, the copy of side B and its thumbnail, the
/// diff image and its thumbnail.
pub open spec fn changed_artifacts_wf(
    r: Seq<ArtifactFile>,
    root: Seq<char>,
    rel: Seq<char>,
    a_bytes: Seq<u8>,
    b_bytes: Seq<u8>,
    diff: (u32, u32, Seq<u8>),
    thumb_height: u32,
) -> bool {
    &&& r.len() == 6
    &&& r[0].path@ == spec_artifact_path(root, "a"@, rel)
    &&& r[0].data matches ArtifactData::Copy(c) && c@ == a_bytes
    &&& r[1].path@ == spec_artifact_path(root, "a"@, spec_thumb_path(rel))
    &&& r[1].data matches ArtifactData::Picture(t) && is_thumb_of(
        t,
        rgb_decoding(a_bytes)->0,
        thumb_height,
    )
    &&& r[2].path@ == spec_artifact_path(root, "b"@, rel)
    &&& r[2].data matches ArtifactData::Copy(c) && c@ == b_bytes
    &&& r[3].path@ == spec_artifact_path(root, "b"@, spec_thumb_path(rel))
    &&& r[3].data matches ArtifactData::Picture(t) && is_thumb_of(
        t,
        rgb_decoding(b_bytes)->0,
        thumb_height,
    )
    &&& r[4].path@ == spec_artifact_path(root, "diff"@, rel)
    &&& r[4].data matches ArtifactData::Picture(d) && d@ == diff
    &&& r[5].path@ == spec_artifact_path(root, "diff"@, spec_thumb_path(rel))
    &&& r[5].data matches ArtifactData::Picture(t) && is_thumb_of(t, diff, thumb_height)
}

/// Compares two encoded images and plans the report artifacts for the
/// pair: both sides are decoded to 8-bit RGB and scored with the hybrid
/// metric over the joint canvas; the plan holds the two copies, the diff
/// image, and a thumbnail beside each. A file that does not decode aborts
/// with a decode error; a joint canvas too large to compare aborts with
/// its own error.
pub fn compare_with_artifacts(
    cfg: &Config,
    rel: &String,
    a_bytes: &Vec<u8>,
    b_bytes: &Vec<u8>,
) -> (r: Result<(Score, Vec<ArtifactFile>), ImDirDiffError>)
    requires
        cfg.wf(),
    ensures
        match r {
            Ok(p) => {
                &&& rgb_decoding(a_bytes@) is Some
                &&& rgb_decoding(b_bytes@) is Some
                &&& ({
                    let ta = rgb_decoding(a_bytes@)->0;
                    let tb = rgb_decoding(b_bytes@)->0;
                    &&& canvas_fits(max_dim(ta.0, tb.0), max_dim(ta.1, tb.1))
                    &&& p.0.micros as int == spec_compare_score(ta, tb)
                    &&& 0 <= p.0.micros <= SCORE_ONE
                    &&& changed_artifacts_wf(
                        p.1@,
                        cfg.report_root@,
                        rel@,
                        a_bytes@,
                        b_bytes@,
                        spec_compare_diff(ta, tb),
                        cfg.thumb_height,
                    )
                })
                &&& (a_bytes@ == b_bytes@ ==> p.0.micros == SCORE_ONE)
            },
            Err(e) => match e {
                ImDirDiffError::ImageError(_) => rgb_decoding(a_bytes@) is None || rgb_decoding(
                    b_bytes@,
                ) is None,
                ImDirDiffError::ImagesTooLarge => {
                    &&& rgb_decoding(a_bytes@) is Some
                    &&& rgb_decoding(b_bytes@) is Some
                    &&& ({
                        let ta = rgb_decoding(a_bytes@)->0;
                        let tb = rgb_decoding(b_bytes@)->0;
                        !canvas_fits(max_dim(ta.0, tb.0), max_dim(ta.1, tb.1))
                    })
                },
                _ => false,
            },
        },
{
    let a: PixelImage = match decode_rgb8(a_bytes) {
        Ok(img) => img,
        Err(e) => {
            return Err(ImDirDiffError::ImageError(e));
        },
    };
    let b: PixelImage = match decode_rgb8(b_bytes) {
        Ok(img) => img,
        Err(e) => {
            return Err(ImDirDiffError::ImageError(e));
        },
    };
    if !check_canvas_fits(a.width, b.width, a.height, b.height) {
        return Err(ImDirDiffError::ImagesTooLarge);
    }
    let out: ComparisonOutcome = compare_decoded(&a, &b);
    let thumb_a: PixelImage = thumbnail(&a, cfg.thumb_height);
    let thumb_b: PixelImage = thumbnail(&b, cfg.thumb_height);
    let thumb_diff: PixelImage = thumbnail(&out.diff, cfg.thumb_height);
    let rel_thumb: String = thumb_path(rel);
    let mut files: Vec<ArtifactFile> = Vec::new();
    files.push(
        ArtifactFile {
            path: artifact_path(cfg, "a", rel),
            data: ArtifactData::Copy(slice_to_vec(a_bytes.as_slice())),
        },
    );
    files.push(
        ArtifactFile {
            path: artifact_path(cfg, "a", &rel_thumb),
            data: ArtifactData::Picture(thumb_a),
        },
    );
    files.push(
        ArtifactFile {
            path: artifact_path(cfg, "b", rel),
            data: ArtifactData::Copy(slice_to_vec(b_bytes.as_slice())),
        },
    );
    files.push(
        ArtifactFile {
            path: artifact_path(cfg, "b", &rel_thumb),
            data: ArtifactData::Picture(thumb_b),
        },
    );
    files.push(
        ArtifactFile { path: artifact_path(cfg, "diff", rel), data: ArtifactData::Picture(out.diff) },
    );
    files.push(
        ArtifactFile {
            path: artifact_path(cfg, "diff", &rel_thumb),
            data: ArtifactData::Picture(thumb_diff),
        },
    );
    Ok((out.score, files))
}

/// The five files the external backend leaves beside the diff image that
/// the tool itself wrote: the two copies with their thumbnails, and the
/// diff image's thumbnail.
pub open spec fn flip_artifacts_wf(
    r: Seq<ArtifactFile>,
    root: Seq<char>,
    rel: Seq<char>,
    a_bytes: Seq<u8>,
    b_bytes: Seq<u8>,
    diff_bytes: Seq<u8>,
    thumb_height: u32,
) -> bool {
    &&& r.len() == 5
    &&& r[0].path@ == spec_artifact_path(root, "a"@, rel)
    &&& r[0].data matches ArtifactData::Copy(c) && c@ == a_bytes
    &&& r[1].path@ == spec_artifact_path(root, "a"@, spec_thumb_path(rel))
    &&& r[1].data matches ArtifactData::Picture(t) && is_thumb_of(
        t,
        rgb_decoding(a_bytes)->0,
        thumb_height,
    )
    &&& r[2].path@ == spec_artifact_path(root, "b"@, rel)
    &&& r[2].data matches ArtifactData::Copy(c) && c@ == b_bytes
    &&& r[3].path@ == spec_artifact_path(root, "b"@, spec_thumb_path(rel))
    &&& r[3].data matches ArtifactData::Picture(t) && is_thumb_of(
        t,
        rgb_decoding(b_bytes)->0,
        thumb_height,
    )
    &&& r[4].path@ == spec_artifact_path(root, "diff"@, spec_thumb_path(rel))
    &&& r[4].data matches ArtifactData::Picture(t) && is_thumb_of(
        t,
        rgb_decoding(diff_bytes)->0,
        thumb_height,
    )
}

/// Plans the report artifacts of one external-backend comparison: the
/// caller hands over the two source files and the diff image that the
/// external tool wrote, and gets back the copies and thumbnails to write.
/// A file that does not decode aborts with a report-image error, as the
/// thumbnail cannot be derived from it.
pub fn flip_artifacts(
    cfg: &Config,
    rel: &String,
    a_bytes: &Vec<u8>,
    b_bytes: &Vec<u8>,
    diff_bytes: &Vec<u8>,
) -> (r: Result<Vec<ArtifactFile>, ImDirDiffError>)
    requires
        cfg.wf(),
    ensures
        match r {
            Ok(files) => {
                &&& rgb_decoding(a_bytes@) is Some
                &&& rgb_decoding(b_bytes@) is Some
                &&& rgb_decoding(diff_bytes@) is Some
                &&& flip_artifacts_wf(
                    files@,
                    cfg.report_root@,
                    rel@,
                    a_bytes@,
                    b_bytes@,
                    diff_bytes@,
                    cfg.thumb_height,
                )
            },
            Err(e) => match e {
                ImDirDiffError::ReportImageError(_) => {
                    ||| rgb_decoding(a_bytes@) is None
                    ||| rgb_decoding(b_bytes@) is None
                    ||| rgb_decoding(diff_bytes@) is None
                },
                _ => false,
            },
        },
{
    let a: PixelImage = match decode_rgb8(a_bytes) {
        Ok(img) => img,
        Err(e) => {
            return Err(ImDirDiffError::ReportImageError(e));
        },
    };
    let b: PixelImage = match decode_rgb8(b_bytes) {
        Ok(img) => img,
        Err(e) => {
            return Err(ImDirDiffError::ReportImageError(e));
        },
    };
    let d: PixelImage = match decode_rgb8(diff_bytes) {
        Ok(img) => img,
        Err(e) => {
            return Err(ImDirDiffError::ReportImageError(e));
        },
    };
    let thumb_a: PixelImage = thumbnail(&a, cfg.thumb_height);
    let thumb_b: PixelImage = thumbnail(&b, cfg.thumb_height);
    let thumb_diff: PixelImage = thumbnail(&d, cfg.thumb_height);
    let rel_thumb: String = thumb_path(rel);
    let mut files: Vec<ArtifactFile> = Vec::new();
    files.push(
        ArtifactFile {
            path: artifact_path(cfg, "a", rel),
            data: ArtifactData::Copy(slice_to_vec(a_bytes.as_slice())),
        },
    );
    files.push(
        ArtifactFile {
            path: artifact_path(cfg, "a", &rel_thumb),
            data: ArtifactData::Picture(thumb_a),
        },
    );
    files.push(
        ArtifactFile {
            path: artifact_path(cfg, "b", rel),
            data: ArtifactData::Copy(slice_to_vec(b_bytes.as_slice())),
        },
    );
    files.push(
        ArtifactFile {
            path: artifact_path(cfg, "b", &rel_thumb),
            data: ArtifactData::Picture(thumb_b),
        },
    );
    files.push(
        ArtifactFile {
            path: artifact_path(cfg, "diff", &rel_thumb),
            data: ArtifactData::Picture(thumb_diff),
        },
    );
    Ok(files)
}

} // verus!
