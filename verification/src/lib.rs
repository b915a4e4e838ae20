//! Compares two directory trees of images: indexes each tree into a set of
//! relative paths, reconciles the sets, scores each common pair of images with
//! a perceptual metric, and renders the outcome as a terminal line per record
//! and a single HTML report.

use vstd::prelude::*;
use vstd::string::StringExecFns;

pub mod artifacts;
pub mod compare;
pub mod flip;
pub mod imageset;
pub mod paths;
pub mod pixel;
pub mod records;
pub mod report;

verus! {

/// What can go wrong in the comparison pipeline itself. Failures of the
/// surrounding process (unreadable roots, spawning the external tool,
/// report I/O) belong to the caller that performs that I/O.
#[derive(Debug)]
pub enum ImDirDiffError {
    /// An input image could not be decoded.
    ImageError(image::ImageError),
    /// The in-process metric failed.
    CompareError,
    /// The external tool's output held no parsable `Mean: <decimal>`.
    FlipOutputParseError,
    /// A diff image written by the external tool could not be decoded.
    ReportImageError(image::ImageError),
    /// The padded comparison canvas is beyond what can be compared: its
    /// buffer would not fit in memory, or its pixel count would overflow
    /// the metric's 32-bit index.
    ImagesTooLarge,
}

/// The run's fixed configuration, constructed once at start-up and handed
/// to every component: where the report tree is written and how tall a
/// thumbnail may be.
pub struct Config {
    pub report_root: String,
    pub thumb_height: u32,
}

impl Config {
    /// A thumbnail must have at least one row.
    pub open spec fn wf(&self) -> bool {
        self.thumb_height >= 1
    }

    /// The stock configuration: the report tree beside the working
    /// directory, thumbnails eighty pixels tall.
    pub fn standard() -> (c: Config)
        ensures
            c.wf(),
            c.report_root@ == "./imdirdiff-out"@,
            c.thumb_height == 80,
    {
        Config { report_root: String::from_str("./imdirdiff-out"), thumb_height: 80 }
    }
}

/// Fixed-point scale for similarity scores: one unit of similarity
/// (two images identical under the metric) is `SCORE_ONE` micro-units.
pub const SCORE_ONE: i64 = 1_000_000;

/// A perceptual similarity score in fixed-point micro-units.
/// `SCORE_ONE` (1.0) means no detectable difference under the active metric.
#[derive(Clone, Copy, PartialEq, Eq, Structural, Debug)]
pub struct Score {
    pub micros: i64,
}

impl Score {
    /// The score meaning "identical under the metric".
    pub fn one() -> (r: Score)
        ensures
            r.micros == SCORE_ONE,
    {
        Score { micros: SCORE_ONE }
    }

    /// Whether this score reports a detectable difference.
    pub fn is_different(&self) -> (r: bool)
        ensures
            r == (self.micros < SCORE_ONE),
    {
        self.micros < SCORE_ONE
    }
}

} // verus!
