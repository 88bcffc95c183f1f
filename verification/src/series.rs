//! The price-series data model: fixed-point prices, exact rational results,
//! and the spec-level folds (sum, maximum, minimum) that the signal contracts
//! are stated over.

use vstd::prelude::*;

verus! {

/// Largest admissible price value, in fixed-point units.
pub const MAX_PRICE_UNITS: i64 = 1_000_000_000_000;

/// Largest admissible number of observations in one series.
pub const MAX_SERIES_LEN: usize = 1_000_000;

/// A series is well formed when it is short enough and every price is a
/// non-negative value within `MAX_PRICE_UNITS`; these bounds keep every sum
/// and difference computed by the signals inside `i64`.
pub open spec fn series_wf(s: Seq<i64>) -> bool {
    &&& s.len() <= MAX_SERIES_LEN
    &&& forall|i: int| 0 <= i < s.len() ==> 0 <= #[trigger] s[i] <= MAX_PRICE_UNITS
}

/// Mathematical sum of a sequence of prices.
pub open spec fn sum_seq(s: Seq<i64>) -> int
    decreases s.len(),
{
    if s.len() == 0 {
        0
    } else {
        sum_seq(s.drop_last()) + s.last()
    }
}

/// Largest element of a non-empty sequence (0 on an empty one).
pub open spec fn seq_max(s: Seq<i64>) -> i64
    decreases s.len(),
{
    if s.len() == 0 {
        0
    } else if s.len() == 1 {
        s[0]
    } else {
        let m = seq_max(s.drop_last());
        if s.last() > m {
            s.last()
        } else {
            m
        }
    }
}

/// Smallest element of a non-empty sequence (0 on an empty one).
pub open spec fn seq_min(s: Seq<i64>) -> i64
    decreases s.len(),
{
    if s.len() == 0 {
        0
    } else if s.len() == 1 {
        s[0]
    } else {
        let m = seq_min(s.drop_last());
        if s.last() < m {
            s.last()
        } else {
            m
        }
    }
}

/// The maximum of a non-empty series bounds every element from above and is
/// itself one of the elements.
pub proof fn lemma_seq_max_bounds(s: Seq<i64>)
    requires
        s.len() > 0,
    ensures
        forall|i: int| 0 <= i < s.len() ==> #[trigger] s[i] <= seq_max(s),
        exists|i: int| 0 <= i < s.len() && s[i] == seq_max(s),
    decreases s.len(),
{
    if s.len() == 1 {
        assert(s[0] == seq_max(s));
    } else {
        lemma_seq_max_bounds(s.drop_last());
        let m = seq_max(s.drop_last());
        assert(forall|i: int| 0 <= i < s.len() - 1 ==> #[trigger] s[i] == s.drop_last()[i]);
        if s.last() > m {
            assert(s[s.len() - 1] == seq_max(s));
        } else {
            let j = choose|j: int| 0 <= j < s.drop_last().len() && s.drop_last()[j] == m;
            assert(s[j] == seq_max(s));
        }
    }
}

/// The minimum of a non-empty series bounds every element from below and is
/// itself one of the elements.
pub proof fn lemma_seq_min_bounds(s: Seq<i64>)
    requires
        s.len() > 0,
    ensures
        forall|i: int| 0 <= i < s.len() ==> #[trigger] s[i] >= seq_min(s),
        exists|i: int| 0 <= i < s.len() && s[i] == seq_min(s),
    decreases s.len(),
{
    if s.len() == 1 {
        assert(s[0] == seq_min(s));
    } else {
        lemma_seq_min_bounds(s.drop_last());
        let m = seq_min(s.drop_last());
        assert(forall|i: int| 0 <= i < s.len() - 1 ==> #[trigger] s[i] == s.drop_last()[i]);
        if s.last() < m {
            assert(s[s.len() - 1] == seq_min(s));
        } else {
            let j = choose|j: int| 0 <= j < s.drop_last().len() && s.drop_last()[j] == m;
            assert(s[j] == seq_min(s));
        }
    }
}

/// An exact rational number: `num / den`. Moving averages and relative price
/// changes are reported in this form, so no precision is lost.
#[derive(Clone, Copy, Debug, PartialEq, Eq, Structural)]
pub struct Ratio {
    pub num: i64,
    pub den: i64,
}

/// An ordered, chronologically ascending sequence of closing prices for one
/// symbol over one date range, in fixed-point units.
pub struct PriceSeries {
    prices: Vec<i64>,
}

impl View for PriceSeries {
    type V = Seq<i64>;

    closed spec fn view(&self) -> Seq<i64> {
        self.prices@
    }
}

impl PriceSeries {
    #[verifier::type_invariant]
    spec fn inv(self) -> bool {
        series_wf(self@)
    }

    /// Wraps the given prices, or yields nothing when they are out of bounds.
    pub fn new(prices: Vec<i64>) -> (r: Option<PriceSeries>)
        ensures
            r is Some <==> series_wf(prices@),
            r matches Some(s) ==> s@ == prices@,
    {
        if prices.len() > MAX_SERIES_LEN {
            return None;
        }
        let mut i: usize = 0;
        while i < prices.len()
            invariant
                0 <= i <= prices.len(),
                forall|k: int| 0 <= k < i ==> 0 <= #[trigger] prices@[k] <= MAX_PRICE_UNITS,
            decreases prices.len() - i,
        {
            if prices[i] < 0 || prices[i] > MAX_PRICE_UNITS {
                return None;
            }
            i += 1;
        }
        Some(PriceSeries { prices })
    }

    /// The prices, oldest first. A series can only be built well formed, so
    /// its bounds come along with the values.
    pub fn values(&self) -> (r: &Vec<i64>)
        ensures
            r@ == self@,
            series_wf(self@),
    {
        proof {
            use_type_invariant(self);
        }
        &self.prices
    }

    /// How many observations the series holds.
    pub fn len(&self) -> (r: usize)
        ensures
            r == self@.len(),
    {
        self.prices.len()
    }

    /// Whether the series holds no observation at all.
    pub fn is_empty(&self) -> (r: bool)
        ensures
            r == (self@.len() == 0),
    {
        self.prices.len() == 0
    }

}

} // verus!
