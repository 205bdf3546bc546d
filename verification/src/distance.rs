//! The normalized compression distance formula.
//!
//! For singleton compressed lengths `Cx`, `Cy` and a concatenation length
//! `Ccat`, the distance is `(Ccat - min(Cx, Cy)) / max(Cx, Cy)`.  The value is
//! kept as an exact rational (`num / den`), so there is no rounding and no
//! not-a-number: when `max(Cx, Cy) == 0` (both inputs compress to nothing) the
//! distance is defined as `0 / 1`, and clamping is done on the numerator.

use vstd::math::{max, min};
use vstd::prelude::*;

use crate::compressors::Compressor;
use crate::frames::{join_bytes, joined_spec};
use crate::{NcdError, NcdOptions, Symmetry};

verus! {

/// A distance as an exact rational `num / den`.
///
/// `den` is always at least 1.  `num` may be negative when clamping is off
/// and the concatenation compresses below the smaller singleton.
#[derive(Clone, Copy, Debug, PartialEq, Eq, Structural)]
pub struct Distance {
    pub num: i128,
    pub den: u128,
}

impl Distance {
    /// Every distance the engine produces has a positive denominator.
    pub open spec fn wf(&self) -> bool {
        self.den >= 1
    }
}

/// The numerator of the distance computed from singleton lengths `cx`, `cy`
/// and concatenation length `ccat`.  A zero `max(cx, cy)` means both inputs
/// compress to nothing; their distance is 0 by definition.
pub open spec fn ncd_num(cx: nat, cy: nat, ccat: nat, clamp: bool) -> int {
    let mn = min(cx as int, cy as int);
    let mx = max(cx as int, cy as int);
    if mx == 0 {
        0
    } else {
        let raw = ccat - mn;
        if clamp {
            if raw < 0 {
                0
            } else if raw > mx {
                mx
            } else {
                raw
            }
        } else {
            raw
        }
    }
}

/// The denominator of the distance: `max(cx, cy)`, or 1 for the defined-zero
/// case where both singleton lengths are 0.
pub open spec fn ncd_den(cx: nat, cy: nat) -> int {
    let mx = max(cx as int, cy as int);
    if mx == 0 {
        1
    } else {
        mx
    }
}

/// `d` is exactly the distance derived from the given sizes.
pub open spec fn matches_ncd(d: Distance, cx: nat, cy: nat, ccat: nat, clamp: bool) -> bool {
    d.num == ncd_num(cx, cy, ccat, clamp) && d.den == ncd_den(cx, cy)
}

/// The concatenation length the options call for: the joined pair in one
/// order, or the smaller of both orders under `Min` symmetry.
pub open spec fn ccat_spec<C: Compressor>(c: C, x: Seq<u8>, y: Seq<u8>, opts: NcdOptions) -> nat {
    let cxy = c.len_spec(joined_spec(x, y, opts.join));
    let cyx = c.len_spec(joined_spec(y, x, opts.join));
    match opts.symmetry {
        Symmetry::Off => cxy,
        Symmetry::Min => if cxy <= cyx {
            cxy
        } else {
            cyx
        },
    }
}

/// The numerator of the distance of `x` and `y` under compressor `c`.
pub open spec fn ncd_num_of<C: Compressor>(c: C, x: Seq<u8>, y: Seq<u8>, opts: NcdOptions) -> int {
    ncd_num(c.len_spec(x), c.len_spec(y), ccat_spec(c, x, y, opts), opts.clamp_0_1)
}

/// The denominator of the distance of `x` and `y` under compressor `c`.
pub open spec fn ncd_den_of<C: Compressor>(c: C, x: Seq<u8>, y: Seq<u8>) -> int {
    ncd_den(c.len_spec(x), c.len_spec(y))
}

/// `d` is exactly the distance of `x` and `y` under compressor `c`.
pub open spec fn is_ncd_of<C: Compressor>(
    d: Distance,
    c: C,
    x: Seq<u8>,
    y: Seq<u8>,
    opts: NcdOptions,
) -> bool {
    d.num == ncd_num_of(c, x, y, opts) && d.den == ncd_den_of(c, x, y)
}

/// Assemble a distance from already-computed sizes.  This is the whole
/// numeric core: it is exact, total, and never fails.
pub fn ncd_value(cx: usize, cy: usize, ccat: usize, clamp: bool) -> (d: Distance)
    ensures
        matches_ncd(d, cx as nat, cy as nat, ccat as nat, clamp),
        d.wf(),
{
    let mn: usize = if cx <= cy {
        cx
    } else {
        cy
    };
    let mx: usize = if cx <= cy {
        cy
    } else {
        cx
    };
    if mx == 0 {
        return Distance { num: 0, den: 1 };
    }
    let raw: i128 = ccat as i128 - mn as i128;
    let num: i128 = if clamp {
        if raw < 0 {
            0
        } else if raw > mx as i128 {
            mx as i128
        } else {
            raw
        }
    } else {
        raw
    };
    Distance { num, den: mx as u128 }
}

/// Distance of `x` and `y` when their singleton compressed lengths are
/// already known; only the concatenation lengths are computed, fresh, since
/// they are pair-specific.
pub fn ncd_from_sizes<C: Compressor>(
    c: &C,
    x: &[u8],
    y: &[u8],
    cx: usize,
    cy: usize,
    opts: NcdOptions,
) -> (r: Result<Distance, NcdError>)
    ensures
        r matches Ok(d) ==> matches_ncd(
            d,
            cx as nat,
            cy as nat,
            ccat_spec(*c, x@, y@, opts),
            opts.clamp_0_1,
        ) && d.wf(),
        cx == 0 && cy == 0 ==> r is Ok,
{
    let mx: usize = if cx <= cy {
        cy
    } else {
        cx
    };
    if mx == 0 {
        return Ok(Distance { num: 0, den: 1 });
    }
    let joined_xy = join_bytes(x, y, opts.join);
    let cxy = match c.compressed_len(joined_xy.as_slice()) {
        Ok(n) => n,
        Err(e) => {
            return Err(e);
        },
    };
    let ccat: usize = match opts.symmetry {
        Symmetry::Off => cxy,
        Symmetry::Min => {
            let joined_yx = join_bytes(y, x, opts.join);
            let cyx = match c.compressed_len(joined_yx.as_slice()) {
                Ok(n) => n,
                Err(e) => {
                    return Err(e);
                },
            };
            if cxy <= cyx {
                cxy
            } else {
                cyx
            }
        },
    };
    Ok(ncd_value(cx, cy, ccat, opts.clamp_0_1))
}

/// Normalized compression distance between two buffers.
pub fn ncd<C: Compressor>(c: &C, x: &[u8], y: &[u8], opts: NcdOptions) -> (r: Result<
    Distance,
    NcdError,
>)
    ensures
        r matches Ok(d) ==> is_ncd_of(d, *c, x@, y@, opts) && d.wf(),
{
    let cx = match c.compressed_len(x) {
        Ok(n) => n,
        Err(e) => {
            return Err(e);
        },
    };
    let cy = match c.compressed_len(y) {
        Ok(n) => n,
        Err(e) => {
            return Err(e);
        },
    };
    ncd_from_sizes(c, x, y, cx, cy, opts)
}

/// Under `Min` symmetry the distance does not depend on argument order:
/// swapping `x` and `y` swaps neither the numerator nor the denominator.
pub proof fn lemma_min_symmetry<C: Compressor>(c: C, x: Seq<u8>, y: Seq<u8>, opts: NcdOptions)
    requires
        opts.symmetry is Min,
    ensures
        ncd_num_of(c, x, y, opts) == ncd_num_of(c, y, x, opts),
        ncd_den_of(c, x, y) == ncd_den_of(c, y, x),
{
}

/// Two inputs that both compress to nothing are at distance zero.
pub proof fn lemma_empty_like_inputs_distance_zero<C: Compressor>(
    c: C,
    x: Seq<u8>,
    y: Seq<u8>,
    opts: NcdOptions,
)
    requires
        c.len_spec(x) == 0,
        c.len_spec(y) == 0,
    ensures
        ncd_num_of(c, x, y, opts) == 0,
        ncd_den_of(c, x, y) == 1,
{
}

/// With clamping on, every distance lies in the unit interval:
/// `0 <= num <= den`, whatever the sizes were.
pub proof fn lemma_clamped_in_unit_interval(cx: nat, cy: nat, ccat: nat)
    ensures
        0 <= ncd_num(cx, cy, ccat, true) <= ncd_den(cx, cy),
{
}

} // verus!
