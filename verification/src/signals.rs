//! The signal computation engine: one polymorphic capability, four
//! independent implementations with heterogeneous result shapes.

use vstd::prelude::*;

use crate::series::PriceSeries;
use crate::series::Ratio;
use crate::series::seq_max;
use crate::series::seq_min;
use crate::series::series_wf;
use crate::series::sum_seq;
use crate::series::MAX_PRICE_UNITS;

verus! {

/// A common interface for all signal calculations over a price series.
///
/// Each implementation fixes its own result shape through `SignalType` and
/// pins the result of `calculate` down through `result_ok`: the predicate
/// depends on the series values alone, so a signal holds no hidden state and
/// two calls on the same series agree.
///
/// An absent result always means the input was unusable for that computation,
/// never a recoverable error.
///
/// No signal suspends: the calculation is a plain synchronous call, and any
/// waiting happens at the data-source boundary outside this crate.
pub trait AsyncStockSignal {
    /// The signal's data type.
    type SignalType;

    /// What `calculate` returns on a series with the given values.
    spec fn result_ok(&self, s: Seq<i64>, r: Option<Self::SignalType>) -> bool;

    /// Calculate the signal on the provided series.
    fn calculate(&self, series: &PriceSeries) -> (r: Option<Self::SignalType>)
        ensures
            self.result_ok(series@, r),
    ;
}

/// Finds the maximum in a series of prices.
pub struct MaxPrice;

impl AsyncStockSignal for MaxPrice {
    type SignalType = i64;

    /// Absent on an empty series; the largest element otherwise.
    open spec fn result_ok(&self, s: Seq<i64>, r: Option<i64>) -> bool {
        if s.len() == 0 {
            r is None
        } else {
            r == Some(seq_max(s))
        }
    }

    fn calculate(&self, series: &PriceSeries) -> (r: Option<i64>) {
        let prices = series.values();
        if prices.len() == 0 {
            None
        } else {
            let ghost s = series@;
            let mut m: i64 = prices[0];
            let mut i: usize = 1;
            assert(s.subrange(0, 1) =~= seq![s[0]]);
            while i < prices.len()
                invariant
                    1 <= i <= s.len(),
                    prices@ == s,
                    m == seq_max(s.subrange(0, i as int)),
                decreases s.len() - i,
            {
                proof {
                    assert(s.subrange(0, i + 1).drop_last() =~= s.subrange(0, i as int));
                }
                if prices[i] > m {
                    m = prices[i];
                }
                i += 1;
            }
            assert(s.subrange(0, s.len() as int) =~= s);
            Some(m)
        }
    }
}

/// Finds the minimum in a series of prices.
pub struct MinPrice;

impl AsyncStockSignal for MinPrice {
    type SignalType = i64;

    /// Absent on an empty series; the smallest element otherwise.
    open spec fn result_ok(&self, s: Seq<i64>, r: Option<i64>) -> bool {
        if s.len() == 0 {
            r is None
        } else {
            r == Some(seq_min(s))
        }
    }

    fn calculate(&self, series: &PriceSeries) -> (r: Option<i64>) {
        let prices = series.values();
        if prices.len() == 0 {
            None
        } else {
            let ghost s = series@;
            let mut m: i64 = prices[0];
            let mut i: usize = 1;
            assert(s.subrange(0, 1) =~= seq![s[0]]);
            while i < prices.len()
                invariant
                    1 <= i <= s.len(),
                    prices@ == s,
                    m == seq_min(s.subrange(0, i as int)),
                decreases s.len() - i,
            {
                proof {
                    assert(s.subrange(0, i + 1).drop_last() =~= s.subrange(0, i as int));
                }
                if prices[i] < m {
                    m = prices[i];
                }
                i += 1;
            }
            assert(s.subrange(0, s.len() as int) =~= s);
            Some(m)
        }
    }
}

/// What a simple moving average must look like: one exact mean per contiguous
/// window of length `w`, in input order. Entry `k` is the rational
/// `sum(s[k .. k + w]) / w`.
pub open spec fn sma_ok(s: Seq<i64>, w: int, out: Seq<Ratio>) -> bool {
    &&& out.len() == (if s.len() >= w {
        s.len() - w + 1
    } else {
        0int
    })
    &&& forall|k: int|
        0 <= k < out.len() ==> (#[trigger] out[k]).den == w && out[k].num == sum_seq(
            s.subrange(k, k + w),
        )
}

/// Window function to create a simple moving average.
///
/// The window size is fixed at construction. Each mean is reported as an
/// exact rational (window sum over window length).
pub struct WindowedSMA(usize);

impl WindowedSMA {
    /// The window size this signal was built with.
    pub closed spec fn window(&self) -> usize {
        self.0
    }

    /// Builds the signal for windows of `window_size` observations.
    pub fn new(window_size: usize) -> (r: Self)
        ensures
            r.window() == window_size,
    {
        Self(window_size)
    }
}

impl AsyncStockSignal for WindowedSMA {
    type SignalType = Vec<Ratio>;

    /// Absent on an empty series or a window of at most one; otherwise one
    /// exact mean per window, and an empty sequence when the series is
    /// shorter than the window.
    open spec fn result_ok(&self, s: Seq<i64>, r: Option<Vec<Ratio>>) -> bool {
        if s.len() == 0 || self.window() <= 1 {
            r is None
        } else {
            r matches Some(v) && sma_ok(s, self.window() as int, v@)
        }
    }

    fn calculate(&self, series: &PriceSeries) -> (r: Option<Vec<Ratio>>) {
        let prices = series.values();
        let ghost s = series@;
        let w = self.0;
        if prices.len() == 0 || w <= 1 {
            return None;
        }
        let mut out: Vec<Ratio> = Vec::new();
        if prices.len() < w {
            return Some(out);
        }
        let n_windows = prices.len() - w + 1;
        let mut i: usize = 0;
        while i < n_windows
            invariant
                prices@ == s,
                series_wf(s),
                2 <= w <= s.len(),
                n_windows == s.len() - w + 1,
                0 <= i <= n_windows,
                out@.len() == i,
                forall|k: int|
                    0 <= k < i ==> (#[trigger] out@[k]).den == w && out@[k].num == sum_seq(
                        s.subrange(k, k + w),
                    ),
            decreases n_windows - i,
        {
            let mut sum: i64 = 0;
            let mut j: usize = i;
            assert(s.subrange(i as int, i as int) =~= Seq::<i64>::empty());
            while j < i + w
                invariant
                    prices@ == s,
                    series_wf(s),
                    i <= j <= i + w,
                    i + w <= s.len(),
                    sum == sum_seq(s.subrange(i as int, j as int)),
                    0 <= sum <= (j - i) * MAX_PRICE_UNITS,
                decreases i + w - j,
            {
                proof {
                    assert(s.subrange(i as int, j + 1).drop_last() =~= s.subrange(
                        i as int,
                        j as int,
                    ));
                }
                sum = sum + prices[j];
                j += 1;
            }
            out.push(Ratio { num: sum, den: w as i64 });
            i += 1;
        }
        Some(out)
    }
}

/// Measures the net and the relative change between the first and the last
/// price of a series; what happens in between does not matter.
pub struct PriceDifference;

impl AsyncStockSignal for PriceDifference {
    type SignalType = (i64, Ratio);

    /// Absent on an empty series. Otherwise the pair of the net change
    /// `last - first` and the relative change `(last - first) / first` as an
    /// exact rational; a first price of zero would make that ratio undefined,
    /// so the denominator falls back to one and the relative change equals
    /// the net change. A single-element series yields a zero pair.
    open spec fn result_ok(&self, s: Seq<i64>, r: Option<(i64, Ratio)>) -> bool {
        if s.len() == 0 {
            r is None
        } else {
            r matches Some(p) && p.0 == s.last() - s.first() && p.1.num == s.last() - s.first()
                && p.1.den == (if s.first() == 0 {
                1int
            } else {
                s.first() as int
            })
        }
    }

    fn calculate(&self, series: &PriceSeries) -> (r: Option<(i64, Ratio)>) {
        let prices = series.values();
        if prices.len() == 0 {
            return None;
        }
        let first = prices[0];
        let last = prices[prices.len() - 1];
        let abs_diff = last - first;
        let den: i64 = if first == 0 {
            1
        } else {
            first
        };
        Some((abs_diff, Ratio { num: abs_diff, den }))
    }
}

/// `MaxPrice` is absent exactly on the empty series; any present result
/// bounds every element of the series from above and is itself one of them.
pub proof fn lemma_max_price_bounds(sig: MaxPrice, s: Seq<i64>, r: Option<i64>)
    requires
        sig.result_ok(s, r),
    ensures
        r is Some <==> s.len() > 0,
        r matches Some(m) ==> forall|i: int| 0 <= i < s.len() ==> #[trigger] s[i] <= m,
        r matches Some(m) ==> exists|i: int| 0 <= i < s.len() && s[i] == m,
{
    if s.len() > 0 {
        crate::series::lemma_seq_max_bounds(s);
    }
}

/// `MinPrice` is absent exactly on the empty series; any present result
/// bounds every element of the series from below and is itself one of them.
pub proof fn lemma_min_price_bounds(sig: MinPrice, s: Seq<i64>, r: Option<i64>)
    requires
        sig.result_ok(s, r),
    ensures
        r is Some <==> s.len() > 0,
        r matches Some(m) ==> forall|i: int| 0 <= i < s.len() ==> #[trigger] s[i] >= m,
        r matches Some(m) ==> exists|i: int| 0 <= i < s.len() && s[i] == m,
{
    if s.len() > 0 {
        crate::series::lemma_seq_min_bounds(s);
    }
}

/// Two results that `WindowedSMA` accepts for the same series and the same
/// window describe the same sequence of means: the signal is stateless and
/// calling it twice changes nothing.
pub proof fn lemma_windowed_sma_deterministic(
    sig: WindowedSMA,
    s: Seq<i64>,
    r1: Option<Vec<Ratio>>,
    r2: Option<Vec<Ratio>>,
)
    requires
        sig.result_ok(s, r1),
        sig.result_ok(s, r2),
    ensures
        r1 is Some <==> r2 is Some,
        (r1 is Some && r2 is Some) ==> r1->Some_0@ == r2->Some_0@,
{
    if r1 is Some && r2 is Some {
        assert(r1->Some_0@ =~= r2->Some_0@);
    }
}

/// Two results that `PriceDifference` accepts for the same series are the
/// same result: the signal is stateless and calling it twice changes nothing.
pub proof fn lemma_price_difference_deterministic(
    sig: PriceDifference,
    s: Seq<i64>,
    r1: Option<(i64, Ratio)>,
    r2: Option<(i64, Ratio)>,
)
    requires
        sig.result_ok(s, r1),
        sig.result_ok(s, r2),
    ensures
        r1 == r2,
{
}

/// Two results that `MaxPrice` accepts for the same series are the same
/// result: the signal is stateless and calling it twice changes nothing.
pub proof fn lemma_max_price_deterministic(sig: MaxPrice, s: Seq<i64>, r1: Option<i64>, r2: Option<i64>)
    requires
        sig.result_ok(s, r1),
        sig.result_ok(s, r2),
    ensures
        r1 == r2,
{
}

/// Two results that `MinPrice` accepts for the same series are the same
/// result: the signal is stateless and calling it twice changes nothing.
pub proof fn lemma_min_price_deterministic(sig: MinPrice, s: Seq<i64>, r1: Option<i64>, r2: Option<i64>)
    requires
        sig.result_ok(s, r1),
        sig.result_ok(s, r2),
    ensures
        r1 == r2,
{
}

} // verus!
