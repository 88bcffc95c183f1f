//! The per-symbol pipeline: order the fetched observations by time, extract
//! the closing prices, run every signal, and assemble one output row. The
//! data source and the sink live outside; this module decides everything in
//! between.

use vstd::prelude::*;
use vstd::pervasive::unreached;

use crate::series::PriceSeries;
use crate::series::Ratio;
use crate::series::seq_max;
use crate::series::seq_min;
use crate::series::series_wf;
use crate::series::sum_seq;
use crate::series::MAX_PRICE_UNITS;
use crate::series::MAX_SERIES_LEN;
use crate::signals::AsyncStockSignal;
use crate::signals::MaxPrice;
use crate::signals::MinPrice;
use crate::signals::PriceDifference;
use crate::signals::WindowedSMA;

verus! {

/// The window size of the pipeline's moving average, a fixed constant of the
/// pipeline rather than of the signal interface.
pub const SMA_WINDOW: usize = 3;

/// One price observation as the data source reports it: a timestamp in
/// seconds and an adjusted closing price in fixed-point units.
#[derive(Clone, Copy, Debug, PartialEq, Eq, Structural)]
pub struct Quote {
    pub timestamp: i64,
    pub adjclose: i64,
}

/// A quote whose price fits the series bounds.
pub open spec fn quote_wf(q: Quote) -> bool {
    0 <= q.adjclose <= MAX_PRICE_UNITS
}

/// Chronologically ascending order of observations.
pub open spec fn sorted_by_timestamp(s: Seq<Quote>) -> bool {
    forall|i: int, j: int|
        0 <= i < j < s.len() ==> #[trigger] s[i].timestamp <= #[trigger] s[j].timestamp
}

/// The closing prices of a sequence of observations, in the same order.
pub open spec fn prices_of(s: Seq<Quote>) -> Seq<i64> {
    s.map_values(|q: Quote| q.adjclose)
}

/// An index map that carries each position of `sq` back to a distinct
/// position of `orig`: `sq` holds exactly the observations of `orig`, and
/// observations with equal timestamps stand in `sq` in their `orig` order.
pub open spec fn stable_reordering(orig: Seq<Quote>, sq: Seq<Quote>, f: Seq<int>) -> bool {
    &&& f.len() == sq.len()
    &&& sq.len() == orig.len()
    &&& forall|i: int| 0 <= i < f.len() ==> 0 <= #[trigger] f[i] < orig.len()
    &&& forall|i: int| 0 <= i < f.len() ==> sq[i] == orig[#[trigger] f[i]]
    &&& forall|i: int, j: int| 0 <= i < j < f.len() ==> #[trigger] f[i] != #[trigger] f[j]
    &&& forall|i: int, j: int|
        0 <= i < j < f.len() && sq[i].timestamp == sq[j].timestamp ==> #[trigger] f[i]
            < #[trigger] f[j]
}

/// `sq` is `orig` ordered by ascending timestamp, stably: observations with
/// equal timestamps keep the order in which they were retrieved.
pub open spec fn stable_sorted_of(orig: Seq<Quote>, sq: Seq<Quote>) -> bool {
    &&& sorted_by_timestamp(sq)
    &&& exists|f: Seq<int>| stable_reordering(orig, sq, f)
}

/// `prices` are the closing prices of `orig` in stable chronological order.
pub open spec fn ordered_extract_ok(orig: Seq<Quote>, sq: Seq<Quote>, prices: Seq<i64>) -> bool {
    &&& stable_sorted_of(orig, sq)
    &&& sq.to_multiset() == orig.to_multiset()
    &&& prices_of(sq) == prices
}

/// Index of the first observation with the smallest timestamp: everything
/// before it is strictly later.
fn find_min_index(quotes: &Vec<Quote>) -> (m: usize)
    requires
        quotes@.len() > 0,
    ensures
        m < quotes@.len(),
        forall|k: int| 0 <= k < quotes@.len() ==> quotes@[m as int].timestamp <= #[trigger] quotes@[k].timestamp,
        forall|k: int| 0 <= k < m ==> quotes@[m as int].timestamp < #[trigger] quotes@[k].timestamp,
{
    let mut m: usize = 0;
    let mut k: usize = 1;
    while k < quotes.len()
        invariant
            0 <= m < k <= quotes@.len(),
            forall|t: int| 0 <= t < k ==> quotes@[m as int].timestamp <= #[trigger] quotes@[t].timestamp,
            forall|t: int| 0 <= t < m ==> quotes@[m as int].timestamp < #[trigger] quotes@[t].timestamp,
        decreases quotes@.len() - k,
    {
        if quotes[k].timestamp < quotes[m].timestamp {
            m = k;
        }
        k += 1;
    }
    m
}

/// Orders the observations by ascending timestamp, stably: the result holds
/// exactly the given observations, each as often as it was given, and equal
/// timestamps keep the order in which the observations were given.
pub fn sort_by_timestamp(quotes: Vec<Quote>) -> (r: Vec<Quote>)
    ensures
        stable_sorted_of(quotes@, r@),
        sorted_by_timestamp(r@),
        r@.to_multiset() == quotes@.to_multiset(),
        r@.len() == quotes@.len(),
        forall|i: int| 0 <= i < r@.len() ==> quotes@.contains(#[trigger] r@[i]),
{
    broadcast use vstd::seq_lib::group_to_multiset_ensures;

    let mut rest = quotes;
    let mut r: Vec<Quote> = Vec::new();
    // Ghost index maps into the original order: `f[a]` is where `r[a]` came
    // from, `g[b]` is where `rest[b]` still stands; `g` stays increasing, so
    // extracting the first minimum keeps equal timestamps in given order.
    let ghost mut f: Seq<int> = Seq::empty();
    let ghost mut g: Seq<int> = Seq::new(quotes@.len(), |i: int| i);
    while rest.len() > 0
        invariant
            r@.to_multiset().add(rest@.to_multiset()) == quotes@.to_multiset(),
            r@.len() + rest@.len() == quotes@.len(),
            sorted_by_timestamp(r@),
            forall|a: int, b: int|
                0 <= a < r@.len() && 0 <= b < rest@.len() ==> r@[a].timestamp
                    <= rest@[b].timestamp,
            forall|i: int| 0 <= i < r@.len() ==> quotes@.contains(#[trigger] r@[i]),
            forall|i: int| 0 <= i < rest@.len() ==> quotes@.contains(#[trigger] rest@[i]),
            f.len() == r@.len(),
            g.len() == rest@.len(),
            forall|a: int| 0 <= a < f.len() ==> 0 <= #[trigger] f[a] < quotes@.len(),
            forall|a: int| 0 <= a < f.len() ==> r@[a] == quotes@[#[trigger] f[a]],
            forall|b: int| 0 <= b < g.len() ==> 0 <= #[trigger] g[b] < quotes@.len(),
            forall|b: int| 0 <= b < g.len() ==> rest@[b] == quotes@[#[trigger] g[b]],
            forall|b1: int, b2: int|
                0 <= b1 < b2 < g.len() ==> #[trigger] g[b1] < #[trigger] g[b2],
            forall|a1: int, a2: int|
                0 <= a1 < a2 < f.len() ==> #[trigger] f[a1] != #[trigger] f[a2],
            forall|a: int, b: int|
                0 <= a < f.len() && 0 <= b < g.len() ==> #[trigger] f[a] != #[trigger] g[b],
            forall|a1: int, a2: int|
                0 <= a1 < a2 < f.len() && r@[a1].timestamp == r@[a2].timestamp
                    ==> #[trigger] f[a1] < #[trigger] f[a2],
            forall|a: int, b: int|
                0 <= a < f.len() && 0 <= b < g.len() && r@[a].timestamp == rest@[b].timestamp
                    ==> #[trigger] f[a] < #[trigger] g[b],
        decreases rest@.len(),
    {
        let ghost old_rest = rest@;
        let ghost old_r = r@;
        let ghost old_f = f;
        let ghost old_g = g;
        let m = find_min_index(&rest);
        let q = rest.remove(m);
        r.push(q);
        proof {
            f = old_f.push(old_g[m as int]);
            g = old_g.remove(m as int);
            old_rest.remove_ensures(m as int);
            old_g.remove_ensures(m as int);
            old_rest.to_multiset_ensures();
            old_r.to_multiset_ensures();
            assert(old_rest.contains(q));
            assert(rest@ == old_rest.remove(m as int));
            assert(r@ == old_r.push(q));
            assert(rest@.to_multiset() =~= old_rest.to_multiset().remove(q));
            assert(r@.to_multiset() =~= old_r.to_multiset().insert(q));
            assert(r@.to_multiset().add(rest@.to_multiset()) =~= quotes@.to_multiset());
            // The surviving observations still carry their original indices.
            assert forall|b: int| 0 <= b < g.len() implies rest@[b] == quotes@[#[trigger] g[b]]
                && 0 <= g[b] < quotes@.len() by {
                if b < m {
                    assert(g[b] == old_g[b]);
                } else {
                    assert(g[b] == old_g[b + 1]);
                }
            }
            // The extracted minimum was the first of its timestamp, so every
            // survivor with the same timestamp came later in the original.
            assert forall|b: int|
                0 <= b < g.len() && q.timestamp == rest@[b].timestamp implies old_g[m as int]
                < #[trigger] g[b] by {
                if b < m {
                    assert(rest@[b] == old_rest[b]);
                    assert(old_rest[m as int].timestamp < old_rest[b].timestamp);
                } else {
                    assert(g[b] == old_g[b + 1]);
                }
            }
        }
    }
    proof {
        assert(stable_reordering(quotes@, r@, f));
    }
    r
}

/// Sorts the observations stably by timestamp and extracts their closing
/// prices, oldest first. Well-bounded observations give a well-formed series.
pub fn closing_prices(quotes: Vec<Quote>) -> (r: Vec<i64>)
    ensures
        exists|sq: Seq<Quote>| #[trigger] ordered_extract_ok(quotes@, sq, r@),
        r@.len() == quotes@.len(),
        (quotes@.len() <= MAX_SERIES_LEN && forall|i: int|
            0 <= i < quotes@.len() ==> quote_wf(#[trigger] quotes@[i])) ==> series_wf(r@),
{
    let ghost orig = quotes@;
    let sorted = sort_by_timestamp(quotes);
    let mut r: Vec<i64> = Vec::new();
    let mut i: usize = 0;
    while i < sorted.len()
        invariant
            r@.len() == i <= sorted@.len(),
            forall|k: int| 0 <= k < i ==> #[trigger] r@[k] == sorted@[k].adjclose,
        decreases sorted@.len() - i,
    {
        r.push(sorted[i].adjclose);
        i += 1;
    }
    proof {
        assert(prices_of(sorted@) =~= r@);
        assert(ordered_extract_ok(orig, sorted@, r@));
        if orig.len() <= MAX_SERIES_LEN && forall|k: int|
            0 <= k < orig.len() ==> quote_wf(#[trigger] orig[k]) {
            assert forall|k: int| 0 <= k < r@.len() implies 0 <= #[trigger] r@[k]
                <= MAX_PRICE_UNITS by {
                assert(orig.contains(sorted@[k]));
                let j = choose|j: int| 0 <= j < orig.len() && orig[j] == sorted@[k];
                assert(quote_wf(orig[j]));
            }
        }
    }
    r
}

/// What the RFC 3339 rendering of a UTC timestamp looks like; only the
/// trusted wrapper below gives this name a value.
pub uninterp spec fn rfc3339_of(secs: int) -> Seq<char>;

/// Relies on chrono's `DateTime::<Utc>::from_timestamp` and `to_rfc3339`:
/// both are pure functions of the UTC timestamp (no zone, no locale), so the
/// result depends on `secs` alone; a timestamp outside chrono's range is
/// rendered as the empty string.
#[verifier::external_body]
fn rfc3339_of_timestamp(secs: i64) -> (r: String)
    ensures
        r@ == rfc3339_of(secs as int),
{
    match chrono::DateTime::<chrono::Utc>::from_timestamp(secs, 0) {
        Some(dt) => dt.to_rfc3339(),
        None => String::new(),
    }
}

/// One summary line for one symbol: every signal reduced to the scalar subset
/// the tabular output carries. Built once per symbol with a non-empty series
/// and never mutated afterwards.
#[derive(Clone, Debug, PartialEq)]
pub struct OutputRow {
    pub period_start: String,
    pub symbol: String,
    pub last_price: i64,
    pub percent_change: Ratio,
    pub period_min: i64,
    pub period_max: i64,
    pub last_moving_average: Ratio,
}

/// The percent change of a series: the relative difference times one hundred,
/// as an exact rational; zero when no difference could be computed.
pub open spec fn pct_change_ok(s: Seq<i64>, pct: Ratio) -> bool {
    if s.len() == 0 {
        pct == (Ratio { num: 0, den: 1 })
    } else {
        pct.num == 100 * (s.last() - s.first()) && pct.den == (if s.first() == 0 {
            1int
        } else {
            s.first() as int
        })
    }
}

/// The last moving-average value of a series under the pipeline's window, or
/// zero when the average sequence is empty.
pub open spec fn last_sma_ok(s: Seq<i64>, avg: Ratio) -> bool {
    if s.len() >= SMA_WINDOW {
        avg.den == SMA_WINDOW && avg.num == sum_seq(
            s.subrange(s.len() - SMA_WINDOW, s.len() as int),
        )
    } else {
        avg == (Ratio { num: 0, den: 1 })
    }
}

/// What one output row says about a series: the period start rendered as RFC
/// 3339, the symbol as given, the last price, the percent change, the
/// extremes, and the last moving average, each with a zero default where a
/// signal had nothing to report.
pub open spec fn row_ok(row: OutputRow, symbol: Seq<char>, start_ts: i64, s: Seq<i64>) -> bool {
    &&& row.period_start@ == rfc3339_of(start_ts as int)
    &&& row.symbol@ == symbol
    &&& row.last_price == (if s.len() > 0 {
        s.last() as int
    } else {
        0int
    })
    &&& pct_change_ok(s, row.percent_change)
    &&& row.period_min == (if s.len() > 0 {
        seq_min(s) as int
    } else {
        0int
    })
    &&& row.period_max == (if s.len() > 0 {
        seq_max(s) as int
    } else {
        0int
    })
    &&& last_sma_ok(s, row.last_moving_average)
}

/// Runs every signal over the series and assembles one output row, replacing
/// each absent result with its zero default.
pub fn calculate_signals(symbol: String, start_ts: i64, series: &PriceSeries) -> (row: OutputRow)
    ensures
        row_ok(row, symbol@, start_ts, series@),
{
    let prices = series.values();
    let ghost s = series@;

    let signal = MaxPrice {};
    let period_max = match signal.calculate(series) {
        Some(v) => v,
        None => 0,
    };
    let signal = MinPrice {};
    let period_min = match signal.calculate(series) {
        Some(v) => v,
        None => 0,
    };
    let signal = WindowedSMA::new(SMA_WINDOW);
    let sma = match signal.calculate(series) {
        Some(v) => v,
        None => Vec::new(),
    };
    let signal = PriceDifference {};
    let rel_diff = match signal.calculate(series) {
        Some(p) => p.1,
        None => Ratio { num: 0, den: 1 },
    };

    proof {
        if s.len() > 0 {
            assert(s.last() == s[s.len() - 1]);
            assert(s.first() == s[0]);
            assert(0 <= s[0] <= MAX_PRICE_UNITS);
            assert(0 <= s[s.len() - 1] <= MAX_PRICE_UNITS);
        }
    }
    let pct_change = Ratio { num: 100 * rel_diff.num, den: rel_diff.den };
    let last_price = if prices.len() > 0 {
        prices[prices.len() - 1]
    } else {
        0
    };
    let last_sma = if sma.len() > 0 {
        sma[sma.len() - 1]
    } else {
        Ratio { num: 0, den: 1 }
    };
    proof {
        if s.len() >= SMA_WINDOW {
            assert(sma@.len() == s.len() - SMA_WINDOW + 1);
            assert(sma@[sma@.len() - 1].num == sum_seq(
                s.subrange(sma@.len() - 1, sma@.len() - 1 + SMA_WINDOW),
            ));
            assert(s.subrange(sma@.len() - 1, sma@.len() - 1 + SMA_WINDOW) =~= s.subrange(
                s.len() - SMA_WINDOW,
                s.len() as int,
            ));
        }
    }

    OutputRow {
        period_start: rfc3339_of_timestamp(start_ts),
        symbol,
        last_price,
        percent_change: pct_change,
        period_min,
        period_max,
        last_moving_average: last_sma,
    }
}

/// Why a fetch could not deliver observations. Either kind aborts the run.
#[derive(Clone, Copy, Debug, PartialEq, Eq, Structural)]
pub enum FetchError {
    /// The data-source client could not be constructed or connected.
    ProviderUnavailable,
    /// The data source answered, but the response could not be parsed into
    /// price observations.
    InvalidResponse,
}

/// What processing one symbol ends in: the run aborts, the symbol is silently
/// skipped, or one row is appended to the output.
#[derive(Clone, Debug, PartialEq)]
pub enum SymbolOutcome {
    Abort(FetchError),
    Skip,
    Row(OutputRow),
}

/// Decides one symbol of the run from what the fetch returned: a failure
/// aborts the run, an empty series skips the symbol, and anything else
/// becomes one output row computed over the chronologically ordered prices,
/// equal timestamps keeping their retrieval order.
pub fn process_symbol(symbol: String, start_ts: i64, fetched: Result<Vec<Quote>, FetchError>) -> (r:
    SymbolOutcome)
    requires
        fetched matches Ok(q) ==> q@.len() <= MAX_SERIES_LEN && (forall|i: int|
            0 <= i < q@.len() ==> quote_wf(#[trigger] q@[i])),
    ensures
        fetched matches Err(e) ==> r == SymbolOutcome::Abort(e),
        fetched matches Ok(q) ==> (q@.len() == 0 ==> r == SymbolOutcome::Skip),
        fetched matches Ok(q) ==> (q@.len() > 0 ==> (r matches SymbolOutcome::Row(row)
            && exists|sq: Seq<Quote>, prices: Seq<i64>|
            #[trigger] ordered_extract_ok(q@, sq, prices) && row_ok(
                row,
                symbol@,
                start_ts,
                prices,
            ))),
{
    match fetched {
        Err(e) => SymbolOutcome::Abort(e),
        Ok(quotes) => {
            if quotes.len() == 0 {
                return SymbolOutcome::Skip;
            }
            let ghost orig = quotes@;
            let prices = closing_prices(quotes);
            let ghost sq = choose|sq: Seq<Quote>| #[trigger] ordered_extract_ok(orig, sq, prices@);
            let series = match PriceSeries::new(prices) {
                Some(s) => s,
                None => unreached(),
            };
            let row = calculate_signals(symbol, start_ts, &series);
            SymbolOutcome::Row(row)
        },
    }
}

} // verus!
