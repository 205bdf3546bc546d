//! Normalized compression distance (NCD) over byte strings.
//!
//! The distance between two buffers is derived from how well a generic
//! compressor squeezes their concatenation versus each buffer alone.  The
//! crate provides the pluggable compressor abstraction, the pairwise distance
//! formula, the all-pairs matrix engine with its size-deduplication cache,
//! and the online ETA estimator that observes per-cell timing of matrix runs.
//!
//! Distances are kept as exact rationals (see [`Distance`]): the numerator
//! and denominator are integers derived from compressed lengths, so results
//! are reproducible bit for bit and free of rounding.  Callers that want a
//! floating-point value divide the two parts themselves.

use vstd::prelude::*;

pub mod cache;
pub mod compressors;
pub mod distance;
pub mod eta;
pub mod factory;
pub mod frames;
pub mod inputs;
pub mod matrix;

pub use compressors::{compressor_ids, Brotli, Compressor, Gzip, Lz4, Xz, Zstd};
pub use distance::{ncd, Distance};
pub use factory::{parse_compressor, CompressorSpec};
pub use frames::join_bytes;
pub use matrix::{ncd_matrix, ncd_matrix_with_progress, NcdMatrixProgress, ProgressSink};

verus! {

/// Errors surfaced by the distance engine.
#[derive(Clone, Debug)]
pub enum NcdError {
    /// The underlying compression backend failed.
    Codec { message: String },
    /// An unrecognized compressor identifier was requested.
    InvalidSelection { requested: String },
}

/// How two buffers are concatenated before compression.
#[derive(Clone, Copy, Debug, PartialEq, Eq, Structural)]
pub enum Join {
    /// `frame64(x) || frame64(y)`, where `frame64(b) = u64_le(len(b)) || b`.
    Frame64,
}

/// Whether concatenation order affects the computed distance.
#[derive(Clone, Copy, Debug, PartialEq, Eq, Structural)]
pub enum Symmetry {
    /// Use the compressed length of `x || y` only.
    Off,
    /// Use the smaller of the compressed lengths of `x || y` and `y || x`.
    Min,
}

/// Options for a distance computation; immutable per computation.
#[derive(Clone, Copy, Debug, PartialEq, Eq, Structural)]
pub struct NcdOptions {
    pub join: Join,
    pub symmetry: Symmetry,
    /// Clip every result into `[0, 1]`.
    pub clamp_0_1: bool,
}

impl Default for NcdOptions {
    /// Frame64 join, `Min` symmetry, no clamping.
    fn default() -> (r: Self)
        ensures
            r == (NcdOptions { join: Join::Frame64, symmetry: Symmetry::Min, clamp_0_1: false }),
    {
        NcdOptions { join: Join::Frame64, symmetry: Symmetry::Min, clamp_0_1: false }
    }
}

} // verus!
