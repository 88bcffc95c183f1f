//! The per-symbol pipeline: ordering, row assembly, and the three outcomes.

use stock_signals::orchestrator::calculate_signals;
use stock_signals::orchestrator::closing_prices;
use stock_signals::orchestrator::process_symbol;
use stock_signals::orchestrator::sort_by_timestamp;
use stock_signals::FetchError;
use stock_signals::PriceSeries;
use stock_signals::Quote;
use stock_signals::Ratio;
use stock_signals::SymbolOutcome;

// 2020-01-01 00:00:00 UTC.
const START: i64 = 1577836800;

#[test]
fn it_sorts_quotes_by_timestamp() {
    let quotes = vec![
        Quote { timestamp: 30, adjclose: 47 },
        Quote { timestamp: 10, adjclose: 20 },
        Quote { timestamp: 20, adjclose: 65 },
    ];
    let sorted = sort_by_timestamp(quotes);
    assert_eq!(
        sorted,
        vec![
            Quote { timestamp: 10, adjclose: 20 },
            Quote { timestamp: 20, adjclose: 65 },
            Quote { timestamp: 30, adjclose: 47 },
        ]
    );
}

#[test]
fn it_keeps_equal_timestamps_in_input_order() {
    let quotes = vec![
        Quote { timestamp: 10, adjclose: 1 },
        Quote { timestamp: 5, adjclose: 9 },
        Quote { timestamp: 10, adjclose: 2 },
        Quote { timestamp: 10, adjclose: 3 },
    ];
    assert_eq!(closing_prices(quotes), vec![9, 1, 2, 3]);
}

#[test]
fn it_extracts_closing_prices() {
    let quotes = vec![
        Quote { timestamp: 2, adjclose: 45 },
        Quote { timestamp: 1, adjclose: 20 },
        Quote { timestamp: 3, adjclose: 53 },
    ];
    assert_eq!(closing_prices(quotes), vec![20, 45, 53]);
    assert_eq!(closing_prices(vec![]), Vec::<i64>::new());
}

#[test]
fn it_assembles_a_row() {
    let series = PriceSeries::new(vec![20, 45, 53, 65, 47]).unwrap();
    let row = calculate_signals("AAPL".to_string(), START, &series);
    assert_eq!(row.period_start, "2020-01-01T00:00:00+00:00");
    assert_eq!(row.symbol, "AAPL");
    assert_eq!(row.last_price, 47);
    // Net change 27 over a first price of 20: 135 percent.
    assert_eq!(row.percent_change, Ratio { num: 2700, den: 20 });
    assert_eq!(row.percent_change.num as f64 / row.percent_change.den as f64, 135.0);
    assert_eq!(row.period_min, 20);
    assert_eq!(row.period_max, 65);
    assert_eq!(row.last_moving_average, Ratio { num: 165, den: 3 });
}

#[test]
fn it_defaults_absent_signals_to_zero() {
    // One observation: no window reaches length three, the difference is zero.
    let series = PriceSeries::new(vec![42]).unwrap();
    let row = calculate_signals("UBER".to_string(), START, &series);
    assert_eq!(row.last_price, 42);
    assert_eq!(row.percent_change, Ratio { num: 0, den: 42 });
    assert_eq!(row.period_min, 42);
    assert_eq!(row.period_max, 42);
    assert_eq!(row.last_moving_average, Ratio { num: 0, den: 1 });
}

#[test]
fn it_zeroes_every_column_for_an_empty_series() {
    let series = PriceSeries::new(vec![]).unwrap();
    let row = calculate_signals("GOOG".to_string(), START, &series);
    assert_eq!(row.period_start, "2020-01-01T00:00:00+00:00");
    assert_eq!(row.last_price, 0);
    assert_eq!(row.percent_change, Ratio { num: 0, den: 1 });
    assert_eq!(row.period_min, 0);
    assert_eq!(row.period_max, 0);
    assert_eq!(row.last_moving_average, Ratio { num: 0, den: 1 });
}

#[test]
fn it_sorts_nothing_into_nothing() {
    assert_eq!(sort_by_timestamp(vec![]), Vec::<Quote>::new());
}

#[test]
fn it_skips_a_symbol_with_no_data() {
    // One symbol whose fetched series is empty: no row comes out.
    let outcome = process_symbol("GOOG".to_string(), START, Ok(vec![]));
    assert_eq!(outcome, SymbolOutcome::Skip);
}

#[test]
fn it_aborts_the_run_on_fetch_failure() {
    let outcome = process_symbol(
        "MSFT".to_string(),
        START,
        Err(FetchError::ProviderUnavailable),
    );
    assert_eq!(outcome, SymbolOutcome::Abort(FetchError::ProviderUnavailable));
    let outcome = process_symbol("MSFT".to_string(), START, Err(FetchError::InvalidResponse));
    assert_eq!(outcome, SymbolOutcome::Abort(FetchError::InvalidResponse));
}

#[test]
fn it_emits_a_row_for_a_non_empty_series() {
    let quotes = vec![
        Quote { timestamp: 30, adjclose: 47 },
        Quote { timestamp: 10, adjclose: 20 },
        Quote { timestamp: 20, adjclose: 65 },
    ];
    let outcome = process_symbol("AAPL".to_string(), START, Ok(quotes));
    match outcome {
        SymbolOutcome::Row(row) => {
            assert_eq!(row.period_start, "2020-01-01T00:00:00+00:00");
            assert_eq!(row.symbol, "AAPL");
            // Prices in time order are 20, 65, 47.
            assert_eq!(row.last_price, 47);
            assert_eq!(row.percent_change, Ratio { num: 2700, den: 20 });
            assert_eq!(row.period_min, 20);
            assert_eq!(row.period_max, 65);
            assert_eq!(row.last_moving_average, Ratio { num: 132, den: 3 });
        }
        other => panic!("expected a row, got {:?}", other),
    }
}
