//! The online ETA estimator for long matrix runs.
//!
//! The estimator consumes `(input-size, wall-time)` observations and predicts
//! remaining wall time through a least-squares line `t ~ a + b * bytes`,
//! refit from scratch at a fixed schedule.  All arithmetic is exact: the
//! line is kept as a rational `(a_num + b_num * bytes) / den` in nanoseconds,
//! computed from the classic closed form
//! `den = n*sum(x^2) - sum(x)^2`, `b_num = n*sum(x*y) - sum(x)*sum(y)`,
//! `a_num = sum(y)*sum(x^2) - sum(x)*sum(x*y)`.
//! Should a sum outgrow the 128-bit range the fit is cleared rather than
//! silently wrong; the contracts say exactly when that happens.

use vstd::arithmetic::div_mod::{lemma_div_is_ordered, lemma_div_pos_is_pos};
use vstd::arithmetic::mul::lemma_mul_inequality;
use vstd::prelude::*;

verus! {

/// One accepted timing observation.
#[derive(Clone, Copy, Debug, PartialEq, Eq, Structural)]
pub struct Sample {
    /// Work proxy for the cell: the two buffer lengths added.
    pub input_bytes: u64,
    /// Wall time the cell took, in nanoseconds.
    pub wall_nanos: u64,
}

/// A fitted line: predicted nanoseconds for `n` bytes are
/// `(a_num + b_num * n) / den`, with `den >= 1`.
#[derive(Clone, Copy, Debug, PartialEq, Eq, Structural)]
pub struct LinearFit {
    pub a_num: i128,
    pub b_num: i128,
    pub den: i128,
}

/// Sum of the sizes of the samples.
pub open spec fn sum_x(s: Seq<Sample>) -> int
    decreases s.len(),
{
    if s.len() == 0 {
        0
    } else {
        sum_x(s.drop_last()) + s.last().input_bytes
    }
}

/// Sum of the wall times of the samples.
pub open spec fn sum_y(s: Seq<Sample>) -> int
    decreases s.len(),
{
    if s.len() == 0 {
        0
    } else {
        sum_y(s.drop_last()) + s.last().wall_nanos
    }
}

/// Sum of the squared sizes of the samples.
pub open spec fn sum_xx(s: Seq<Sample>) -> int
    decreases s.len(),
{
    if s.len() == 0 {
        0
    } else {
        sum_xx(s.drop_last()) + s.last().input_bytes * s.last().input_bytes
    }
}

/// Sum of size times wall time over the samples.
pub open spec fn sum_xy(s: Seq<Sample>) -> int
    decreases s.len(),
{
    if s.len() == 0 {
        0
    } else {
        sum_xy(s.drop_last()) + s.last().input_bytes * s.last().wall_nanos
    }
}

/// The least-squares denominator `n*sum(x^2) - sum(x)^2`; zero exactly when
/// all sizes are equal.
pub open spec fn fit_den(s: Seq<Sample>) -> int {
    s.len() * sum_xx(s) - sum_x(s) * sum_x(s)
}

/// The slope numerator `n*sum(x*y) - sum(x)*sum(y)`.
pub open spec fn fit_b_num(s: Seq<Sample>) -> int {
    s.len() * sum_xy(s) - sum_x(s) * sum_y(s)
}

/// The intercept numerator `sum(y)*sum(x^2) - sum(x)*sum(x*y)`.
pub open spec fn fit_a_num(s: Seq<Sample>) -> int {
    sum_y(s) * sum_xx(s) - sum_x(s) * sum_xy(s)
}

/// `f` is the least-squares line of the samples `s`: the closed form when
/// the sizes vary, and the mean time with slope zero when they do not (so
/// zero size variance never divides by zero).
pub open spec fn fitted_on(f: LinearFit, s: Seq<Sample>) -> bool {
    if fit_den(s) <= 0 {
        f.a_num == sum_y(s) && f.b_num == 0 && f.den == s.len()
    } else {
        f.a_num == fit_a_num(s) && f.b_num == fit_b_num(s) && f.den == fit_den(s)
    }
}

/// How many leading samples a refit request `n` actually uses: `n` floored
/// at 2 and capped at the sample count.
pub open spec fn refit_count(n: int, len: int) -> int {
    let floored = if n < 2 {
        2
    } else {
        n
    };
    if floored <= len {
        floored
    } else {
        len
    }
}

/// All four sums, and every product the closed form takes, fit in `i128`.
pub open spec fn sums_representable(s: Seq<Sample>) -> bool {
    &&& sum_x(s) <= i128::MAX
    &&& sum_y(s) <= i128::MAX
    &&& sum_xx(s) <= i128::MAX
    &&& sum_xy(s) <= i128::MAX
    &&& s.len() * sum_xx(s) <= i128::MAX
    &&& sum_x(s) * sum_x(s) <= i128::MAX
    &&& (fit_den(s) > 0 ==> s.len() * sum_xy(s) <= i128::MAX && sum_x(s) * sum_y(s) <= i128::MAX
        && sum_y(s) * sum_xx(s) <= i128::MAX && sum_x(s) * sum_xy(s) <= i128::MAX)
}

/// The predicted nanoseconds for `bytes` under fit `f`, floored at zero.
pub open spec fn predict_total(f: LinearFit, bytes: u64) -> int {
    let t = f.a_num + f.b_num * bytes;
    if t <= 0 {
        0
    } else {
        t / (f.den as int)
    }
}

/// A value clipped into the `u64` range from above.
pub open spec fn clamp_u64(v: int) -> int {
    if v > u64::MAX {
        u64::MAX as int
    } else {
        v
    }
}

/// The products the prediction takes fit in `i128`.
pub open spec fn predict_representable(f: LinearFit, bytes: u64) -> bool {
    &&& i128::MIN <= f.b_num * bytes <= i128::MAX
    &&& i128::MIN <= f.a_num + f.b_num * bytes <= i128::MAX
}

/// The total predicted nanoseconds over the entries of `rem`, zero-size
/// entries skipped, each entry's share clipped into `u64`.
pub open spec fn estimate_sum(f: LinearFit, rem: Seq<u64>) -> int
    decreases rem.len(),
{
    if rem.len() == 0 {
        0
    } else {
        estimate_sum(f, rem.drop_last()) + if rem.last() == 0 {
            0
        } else {
            clamp_u64(predict_total(f, rem.last()))
        }
    }
}

/// Some entry of `rem` is non-zero.
pub open spec fn any_nonzero(rem: Seq<u64>) -> bool {
    exists|i: int| 0 <= i < rem.len() && rem[i] != 0
}

/// A tiny online ETA estimator: accumulated samples plus the current fit,
/// which is absent until the first refit.
#[derive(Debug, Clone)]
pub struct EtaEstimator {
    samples: Vec<Sample>,
    fit: Option<LinearFit>,
}

impl Default for EtaEstimator {
    /// No samples, no fit.
    fn default() -> (r: Self)
        ensures
            r.samples() == Seq::<Sample>::empty(),
            r.fit() is None,
            r.wf(),
    {
        EtaEstimator { samples: Vec::new(), fit: Option::None }
    }
}

impl EtaEstimator {
    /// The accepted samples, in arrival order.
    pub closed spec fn samples(&self) -> Seq<Sample> {
        self.samples@
    }

    /// The current fit, if any refit has happened.
    pub closed spec fn fit(&self) -> Option<LinearFit> {
        self.fit
    }

    /// Any present fit has a positive denominator.  Constructors establish
    /// this and every method preserves it.
    pub open spec fn wf(&self) -> bool {
        self.fit() matches Some(f) ==> f.den >= 1
    }

    /// Accept one observation; zero-size and zero-time samples are dropped
    /// silently.  Samples are never removed.
    pub fn add(&mut self, s: Sample)
        ensures
            s.input_bytes == 0 || s.wall_nanos == 0 ==> final(self).samples() == old(
                self,
            ).samples(),
            s.input_bytes != 0 && s.wall_nanos != 0 ==> final(self).samples() == old(
                self,
            ).samples().push(s),
            final(self).fit() == old(self).fit(),
            old(self).wf() ==> final(self).wf(),
    {
        if s.input_bytes == 0 {
            return ;
        }
        if s.wall_nanos == 0 {
            return ;
        }
        self.samples.push(s);
    }

    /// How many samples have been accepted.
    pub fn sample_count(&self) -> (r: usize)
        ensures
            r == self.samples().len(),
    {
        self.samples.len()
    }

    /// True exactly when the sample count is 6, 15 or 16: a fixed schedule
    /// that gets a first usable fit quickly, then stabilizes it once more
    /// data has accumulated, without refitting on every sample.
    pub fn should_refit(&self) -> (r: bool)
        ensures
            r == (self.samples().len() == 6 || self.samples().len() == 15 || self.samples().len()
                == 16),
    {
        let n = self.samples.len();
        n == 6 || n == 15 || n == 16
    }

    /// Refit the line on the first `n` samples (`n` floored at 2, capped at
    /// the sample count).  With fewer than 2 samples, or with sums beyond
    /// the 128-bit range, the fit is cleared instead.
    pub fn refit_first_n(&mut self, n: usize)
        ensures
            final(self).samples() == old(self).samples(),
            final(self).wf(),
            ({
                let s = old(self).samples();
                let t = s.take(refit_count(n as int, s.len() as int));
                &&& (s.len() < 2 ==> final(self).fit() is None)
                &&& (s.len() >= 2 && sums_representable(t) ==> (final(self).fit() matches Some(f)
                    && fitted_on(f, t)))
                &&& (s.len() >= 2 && !sums_representable(t) ==> final(self).fit() is None)
            }),
    {
        let len = self.samples.len();
        let n1: usize = if n < 2 {
            2
        } else {
            n
        };
        let n2: usize = if n1 <= len {
            n1
        } else {
            len
        };
        if n2 < 2 {
            self.fit = Option::None;
            return ;
        }
        let ghost t = self.samples@.take(n2 as int);
        let mut sx: u128 = 0;
        let mut sy: u128 = 0;
        let mut sxx: u128 = 0;
        let mut sxy: u128 = 0;
        let mut i: usize = 0;
        while i < n2
            invariant
                0 <= i <= n2,
                2 <= n2 <= len,
                self.samples@ == old(self).samples@,
                self.fit == old(self).fit,
                len == self.samples@.len(),
                n2 == refit_count(n as int, len as int),
                t == self.samples@.take(n2 as int),
                sx == sum_x(self.samples@.take(i as int)),
                sy == sum_y(self.samples@.take(i as int)),
                sxx == sum_xx(self.samples@.take(i as int)),
                sxy == sum_xy(self.samples@.take(i as int)),
            decreases n2 - i,
        {
            let smp = self.samples[i];
            let x: u128 = smp.input_bytes as u128;
            let y: u128 = smp.wall_nanos as u128;
            proof {
                assert(self.samples@.take(i as int + 1).drop_last() =~= self.samples@.take(
                    i as int,
                ));
                assert(self.samples@.take(i as int + 1).last() == self.samples@[i as int]);
                assert(x * x <= u64::MAX * u64::MAX) by (nonlinear_arith)
                    requires
                        x <= u64::MAX,
                ;
                assert(x * y <= u64::MAX * u64::MAX) by (nonlinear_arith)
                    requires
                        x <= u64::MAX,
                        y <= u64::MAX,
                ;
            }
            let xx: u128 = x * x;
            let xy: u128 = x * y;
            let sx2 = match sx.checked_add(x) {
                Some(v) => v,
                Option::None => {
                    proof {
                        lemma_sums_monotone(self.samples@, i as int + 1, n2 as int);
                        assert(sum_x(self.samples@.take(i as int + 1)) == sx + x);
                        assert(!sums_representable(t));
                    }
                    self.fit = Option::None;
                    return ;
                },
            };
            let sy2 = match sy.checked_add(y) {
                Some(v) => v,
                Option::None => {
                    proof {
                        lemma_sums_monotone(self.samples@, i as int + 1, n2 as int);
                        assert(sum_y(self.samples@.take(i as int + 1)) == sy + y);
                        assert(!sums_representable(t));
                    }
                    self.fit = Option::None;
                    return ;
                },
            };
            let sxx2 = match sxx.checked_add(xx) {
                Some(v) => v,
                Option::None => {
                    proof {
                        lemma_sums_monotone(self.samples@, i as int + 1, n2 as int);
                    }
                    self.fit = Option::None;
                    return ;
                },
            };
            let sxy2 = match sxy.checked_add(xy) {
                Some(v) => v,
                Option::None => {
                    proof {
                        lemma_sums_monotone(self.samples@, i as int + 1, n2 as int);
                    }
                    self.fit = Option::None;
                    return ;
                },
            };
            sx = sx2;
            sy = sy2;
            sxx = sxx2;
            sxy = sxy2;
            i = i + 1;
        }
        let max_i128: u128 = 0x7fffffffffffffffffffffffffffffff;
        proof {
            assert(max_i128 == i128::MAX);
        }
        if sx > max_i128 || sy > max_i128 || sxx > max_i128 || sxy > max_i128 {
            self.fit = Option::None;
            return ;
        }
        let sxi: i128 = sx as i128;
        let syi: i128 = sy as i128;
        let sxxi: i128 = sxx as i128;
        let sxyi: i128 = sxy as i128;
        let ni: i128 = n2 as i128;
        let nsxx = match ni.checked_mul(sxxi) {
            Some(v) => v,
            Option::None => {
                proof {
                    lemma_sums_nonneg(t);
                    assert(ni * sxxi >= 0) by (nonlinear_arith)
                        requires
                            ni >= 0,
                            sxxi >= 0,
                    ;
                }
                self.fit = Option::None;
                return ;
            },
        };
        let sxsx = match sxi.checked_mul(sxi) {
            Some(v) => v,
            Option::None => {
                proof {
                    lemma_sums_nonneg(t);
                    assert(sxi * sxi >= 0) by (nonlinear_arith);
                }
                self.fit = Option::None;
                return ;
            },
        };
        let d: i128 = nsxx - sxsx;
        if d <= 0 {
            self.fit = Some(LinearFit { a_num: syi, b_num: 0, den: ni });
            return ;
        }
        let nsxy = match ni.checked_mul(sxyi) {
            Some(v) => v,
            Option::None => {
                proof {
                    lemma_sums_nonneg(t);
                    assert(ni * sxyi >= 0) by (nonlinear_arith)
                        requires
                            ni >= 0,
                            sxyi >= 0,
                    ;
                }
                self.fit = Option::None;
                return ;
            },
        };
        let sxsy = match sxi.checked_mul(syi) {
            Some(v) => v,
            Option::None => {
                proof {
                    lemma_sums_nonneg(t);
                    assert(sxi * syi >= 0) by (nonlinear_arith)
                        requires
                            sxi >= 0,
                            syi >= 0,
                    ;
                }
                self.fit = Option::None;
                return ;
            },
        };
        let b: i128 = nsxy - sxsy;
        let sysxx = match syi.checked_mul(sxxi) {
            Some(v) => v,
            Option::None => {
                proof {
                    lemma_sums_nonneg(t);
                    assert(syi * sxxi >= 0) by (nonlinear_arith)
                        requires
                            syi >= 0,
                            sxxi >= 0,
                    ;
                }
                self.fit = Option::None;
                return ;
            },
        };
        let sxsxy = match sxi.checked_mul(sxyi) {
            Some(v) => v,
            Option::None => {
                proof {
                    lemma_sums_nonneg(t);
                    assert(sxi * sxyi >= 0) by (nonlinear_arith)
                        requires
                            sxi >= 0,
                            sxyi >= 0,
                    ;
                }
                self.fit = Option::None;
                return ;
            },
        };
        let a: i128 = sysxx - sxsxy;
        self.fit = Some(LinearFit { a_num: a, b_num: b, den: d });
    }

    /// Predict the wall time of one cell of `input_bytes`, in nanoseconds:
    /// the fitted line, floored at zero.  There is no prediction without a
    /// fit or for a zero size.
    pub fn predict(&self, input_bytes: u64) -> (r: Option<u64>)
        requires
            self.wf(),
        ensures
            r is Some <==> (self.fit() is Some && input_bytes != 0),
            self.fit() matches Some(f) ==> ((input_bytes != 0 && predict_representable(
                f,
                input_bytes,
            )) ==> (r matches Some(v) && v == clamp_u64(predict_total(f, input_bytes)))),
    {
        let f = match &self.fit {
            Some(f) => *f,
            Option::None => {
                return Option::None;
            },
        };
        if input_bytes == 0 {
            return Option::None;
        }
        Some(predict_fit_nanos(&f, input_bytes))
    }

    /// Total predicted wall time over the remaining per-cell sizes, zero
    /// entries skipped.  There is no estimate without a fit or when every
    /// entry is zero.
    pub fn estimate_remaining(&self, remaining: &[u64]) -> (r: Option<u64>)
        requires
            self.wf(),
        ensures
            r is Some <==> (self.fit() is Some && any_nonzero(remaining@)),
            self.fit() matches Some(f) ==> ((any_nonzero(remaining@) && (forall|i: int|
                0 <= i < remaining@.len() ==> (#[trigger] remaining@[i] != 0
                    ==> predict_representable(f, remaining@[i]))) && estimate_sum(f, remaining@)
                <= u64::MAX) ==> (r matches Some(v) && v == estimate_sum(f, remaining@))),
    {
        let f = match &self.fit {
            Some(f) => *f,
            Option::None => {
                return Option::None;
            },
        };
        let mut total: u64 = 0;
        let mut any = false;
        let n = remaining.len();
        let mut i: usize = 0;
        proof {
            assert(remaining@.take(0) =~= Seq::<u64>::empty());
        }
        while i < n
            invariant
                0 <= i <= n,
                n == remaining@.len(),
                self.fit() == Some(f),
                f.den >= 1,
                any == any_nonzero(remaining@.take(i as int)),
                ((forall|p: int|
                    0 <= p < i ==> (#[trigger] remaining@[p] != 0 ==> predict_representable(
                        f,
                        remaining@[p],
                    ))) && estimate_sum(f, remaining@.take(i as int)) <= u64::MAX) ==> total
                    == estimate_sum(f, remaining@.take(i as int)),
            decreases n - i,
        {
            let b = remaining[i];
            proof {
                assert(remaining@.take(i as int + 1).drop_last() =~= remaining@.take(i as int));
                assert(remaining@.take(i as int + 1).last() == remaining@[i as int]);
                if b != 0 {
                    lemma_predict_total_bounds(f, b);
                }
                lemma_estimate_sum_nonneg(f, remaining@.take(i as int));
                assert(any_nonzero(remaining@.take(i as int + 1)) == (any_nonzero(
                    remaining@.take(i as int),
                ) || b != 0)) by {
                    let t1 = remaining@.take(i as int + 1);
                    let t0 = remaining@.take(i as int);
                    if any_nonzero(t0) {
                        let w = choose|w: int| 0 <= w < t0.len() && t0[w] != 0;
                        assert(t1[w] != 0);
                    }
                    if b != 0 {
                        assert(t1[i as int] != 0);
                    }
                    if any_nonzero(t1) && !any_nonzero(t0) {
                        let w = choose|w: int| 0 <= w < t1.len() && t1[w] != 0;
                        if w < i as int {
                            assert(t0[w] != 0);
                        }
                    }
                }
            }
            if b != 0 {
                any = true;
                let p = predict_fit_nanos(&f, b);
                total = total.saturating_add(p);
            }
            i = i + 1;
        }
        proof {
            assert(remaining@.take(n as int) =~= remaining@);
        }
        if any {
            Some(total)
        } else {
            Option::None
        }
    }
}

/// The fitted line evaluated at `bytes`, floored at zero and clipped into
/// `u64`.  Values beyond the 128-bit range saturate in the direction of the
/// slope.
fn predict_fit_nanos(f: &LinearFit, bytes: u64) -> (r: u64)
    requires
        f.den >= 1,
        bytes != 0,
    ensures
        predict_representable(*f, bytes) ==> r == clamp_u64(predict_total(*f, bytes)),
{
    let prod = match f.b_num.checked_mul(bytes as i128) {
        Some(p) => p,
        Option::None => {
            return if f.b_num > 0 {
                u64::MAX
            } else {
                0
            };
        },
    };
    let tv = match f.a_num.checked_add(prod) {
        Some(tv) => tv,
        Option::None => {
            return if prod > 0 {
                u64::MAX
            } else {
                0
            };
        },
    };
    if tv <= 0 {
        0
    } else {
        let q: u128 = (tv as u128) / (f.den as u128);
        proof {
            assert(q == tv as int / (f.den as int)) by (nonlinear_arith)
                requires
                    q == (tv as u128) as int / ((f.den as u128) as int),
                    (tv as u128) as int == tv as int,
                    (f.den as u128) as int == f.den as int,
            ;
        }
        if q > u64::MAX as u128 {
            u64::MAX
        } else {
            q as u64
        }
    }
}

/// Sums over samples are non-negative.
proof fn lemma_sums_nonneg(s: Seq<Sample>)
    ensures
        sum_x(s) >= 0,
        sum_y(s) >= 0,
        sum_xx(s) >= 0,
        sum_xy(s) >= 0,
    decreases s.len(),
{
    if s.len() > 0 {
        lemma_sums_nonneg(s.drop_last());
        let e = s.last();
        assert(e.input_bytes * e.input_bytes >= 0) by (nonlinear_arith);
        assert(e.input_bytes * e.wall_nanos >= 0) by (nonlinear_arith);
    }
}

/// Sums over a longer prefix are at least those over a shorter one.
proof fn lemma_sums_monotone(s: Seq<Sample>, i: int, j: int)
    requires
        0 <= i <= j <= s.len(),
    ensures
        sum_x(s.take(i)) <= sum_x(s.take(j)),
        sum_y(s.take(i)) <= sum_y(s.take(j)),
        sum_xx(s.take(i)) <= sum_xx(s.take(j)),
        sum_xy(s.take(i)) <= sum_xy(s.take(j)),
    decreases j - i,
{
    if i < j {
        lemma_sums_monotone(s, i, j - 1);
        assert(s.take(j).drop_last() =~= s.take(j - 1));
        let e = s.take(j).last();
        assert(e.input_bytes * e.input_bytes >= 0) by (nonlinear_arith);
        assert(e.input_bytes * e.wall_nanos >= 0) by (nonlinear_arith);
    }
}

/// A prediction is never negative and its clipped value fits in `u64`.
proof fn lemma_predict_total_bounds(f: LinearFit, bytes: u64)
    requires
        f.den >= 1,
    ensures
        0 <= clamp_u64(predict_total(f, bytes)) <= u64::MAX,
        predict_total(f, bytes) >= 0,
{
    let t = f.a_num + f.b_num * bytes;
    if t > 0 {
        lemma_div_pos_is_pos(t, f.den as int);
    }
}

/// The samples never decrease, in size or in time, as they arrive.
pub open spec fn monotone_samples(s: Seq<Sample>) -> bool {
    forall|i: int, j: int|
        0 <= i <= j < s.len() ==> (#[trigger] s[i]).input_bytes <= (#[trigger] s[j]).input_bytes
            && s[i].wall_nanos <= s[j].wall_nanos
}

/// `sum((x - x_i) * (y - y_i))` over the samples, for a fixed point `(x, y)`.
spec fn cross_sum(s: Seq<Sample>, x: int, y: int) -> int
    decreases s.len(),
{
    if s.len() == 0 {
        0
    } else {
        cross_sum(s.drop_last(), x, y) + (x - s.last().input_bytes) * (y - s.last().wall_nanos)
    }
}

/// The cross sum in closed form over the plain sums.
proof fn lemma_cross_sum_expand(s: Seq<Sample>, x: int, y: int)
    ensures
        cross_sum(s, x, y) == sum_xy(s) + s.len() * (x * y) - x * sum_y(s) - y * sum_x(s),
    decreases s.len(),
{
    if s.len() == 0 {
    } else {
        let s0 = s.drop_last();
        let e = s.last();
        lemma_cross_sum_expand(s0, x, y);
        let ex = e.input_bytes as int;
        let ey = e.wall_nanos as int;
        let k = s0.len() as int;
        assert(cross_sum(s, x, y) == sum_xy(s) + s.len() * (x * y) - x * sum_y(s) - y * sum_x(s))
            by (nonlinear_arith)
            requires
                cross_sum(s, x, y) == cross_sum(s0, x, y) + (x - ex) * (y - ey),
                cross_sum(s0, x, y) == sum_xy(s0) + k * (x * y) - x * sum_y(s0) - y * sum_x(s0),
                sum_xy(s) == sum_xy(s0) + ex * ey,
                sum_x(s) == sum_x(s0) + ex,
                sum_y(s) == sum_y(s0) + ey,
                s.len() == k + 1,
        ;
    }
}

/// The cross sum against a point at or above every sample is non-negative.
proof fn lemma_cross_sum_nonneg(s: Seq<Sample>, x: int, y: int)
    requires
        forall|i: int|
            0 <= i < s.len() ==> (#[trigger] s[i]).input_bytes <= x && s[i].wall_nanos <= y,
    ensures
        cross_sum(s, x, y) >= 0,
    decreases s.len(),
{
    if s.len() > 0 {
        let e = s.last();
        assert(e == s[s.len() - 1]);
        lemma_cross_sum_nonneg(s.drop_last(), x, y);
        assert((x - e.input_bytes) * (y - e.wall_nanos) >= 0) by (nonlinear_arith)
            requires
                e.input_bytes <= x,
                e.wall_nanos <= y,
        ;
    }
}

/// Fitting samples that rise together never gives a negative slope.
proof fn lemma_monotone_slope_nonneg(s: Seq<Sample>)
    requires
        monotone_samples(s),
    ensures
        fit_b_num(s) >= 0,
    decreases s.len(),
{
    if s.len() == 0 {
    } else {
        let s0 = s.drop_last();
        let e = s.last();
        assert(e == s[s.len() - 1]);
        assert(monotone_samples(s0));
        lemma_monotone_slope_nonneg(s0);
        let ex = e.input_bytes as int;
        let ey = e.wall_nanos as int;
        let k = s0.len() as int;
        lemma_cross_sum_expand(s0, ex, ey);
        lemma_cross_sum_nonneg(s0, ex, ey);
        assert(fit_b_num(s) == fit_b_num(s0) + cross_sum(s0, ex, ey)) by (nonlinear_arith)
            requires
                fit_b_num(s) == s.len() * sum_xy(s) - sum_x(s) * sum_y(s),
                fit_b_num(s0) == k * sum_xy(s0) - sum_x(s0) * sum_y(s0),
                cross_sum(s0, ex, ey) == sum_xy(s0) + k * (ex * ey) - ex * sum_y(s0) - ey * sum_x(
                    s0,
                ),
                sum_xy(s) == sum_xy(s0) + ex * ey,
                sum_x(s) == sum_x(s0) + ex,
                sum_y(s) == sum_y(s0) + ey,
                s.len() == k + 1,
        ;
    }
}

/// A fit with a non-negative slope predicts no less for more bytes.
proof fn lemma_predict_monotone(f: LinearFit, s1: u64, s2: u64)
    requires
        f.den >= 1,
        f.b_num >= 0,
        s1 <= s2,
    ensures
        predict_total(f, s1) <= predict_total(f, s2),
{
    lemma_mul_inequality(s1 as int, s2 as int, f.b_num as int);
    assert(f.b_num * s1 == s1 as int * f.b_num) by (nonlinear_arith);
    assert(f.b_num * s2 == s2 as int * f.b_num) by (nonlinear_arith);
    let t1 = f.a_num + f.b_num * s1;
    let t2 = f.a_num + f.b_num * s2;
    if t1 <= 0 {
        lemma_predict_total_bounds(f, s2);
    } else {
        lemma_div_is_ordered(t1, t2, f.den as int);
    }
}

/// After fitting on a monotone-increasing size/time sample set, the
/// remaining-time estimate for a pair of equal cells never decreases as the
/// cell size grows.
pub proof fn lemma_estimate_remaining_monotone(f: LinearFit, s: Seq<Sample>, s1: u64, s2: u64)
    requires
        s.len() >= 2,
        monotone_samples(s),
        fitted_on(f, s),
        0 < s1 <= s2,
    ensures
        estimate_sum(f, seq![s1, s1]) <= estimate_sum(f, seq![s2, s2]),
{
    assert(f.den >= 1 && f.b_num >= 0) by {
        if fit_den(s) <= 0 {
        } else {
            lemma_monotone_slope_nonneg(s);
        }
    }
    lemma_predict_monotone(f, s1, s2);
    lemma_predict_total_bounds(f, s1);
    lemma_predict_total_bounds(f, s2);
    assert(estimate_sum(f, seq![s1, s1]) == 2 * clamp_u64(predict_total(f, s1))) by {
        lemma_estimate_sum_pair(f, s1);
    }
    assert(estimate_sum(f, seq![s2, s2]) == 2 * clamp_u64(predict_total(f, s2))) by {
        lemma_estimate_sum_pair(f, s2);
    }
}

/// The estimate over two equal non-zero cells is twice the one-cell share.
proof fn lemma_estimate_sum_pair(f: LinearFit, v: u64)
    requires
        v != 0,
    ensures
        estimate_sum(f, seq![v, v]) == 2 * clamp_u64(predict_total(f, v)),
{
    reveal_with_fuel(estimate_sum, 4);
    let p = seq![v, v];
    assert(p.drop_last() =~= seq![v]);
    assert(seq![v].drop_last() =~= Seq::<u64>::empty());
    assert(p.last() == v);
    assert(seq![v].last() == v);
    assert(estimate_sum(f, Seq::<u64>::empty()) == 0);
    assert(estimate_sum(f, seq![v]) == clamp_u64(predict_total(f, v)));
}

/// An estimate total is never negative.
proof fn lemma_estimate_sum_nonneg(f: LinearFit, rem: Seq<u64>)
    requires
        f.den >= 1,
    ensures
        estimate_sum(f, rem) >= 0,
    decreases rem.len(),
{
    if rem.len() > 0 {
        lemma_estimate_sum_nonneg(f, rem.drop_last());
        if rem.last() != 0 {
            lemma_predict_total_bounds(f, rem.last());
        }
    }
}

} // verus!
