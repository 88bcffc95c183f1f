//! Signal behaviour over concrete series. Prices are fixed-point integers;
//! here one unit is a tenth, so 2.0 is written 20.

use stock_signals::AsyncStockSignal;
use stock_signals::MaxPrice;
use stock_signals::MinPrice;
use stock_signals::PriceDifference;
use stock_signals::PriceSeries;
use stock_signals::Ratio;
use stock_signals::WindowedSMA;

fn series(values: &[i64]) -> PriceSeries {
    PriceSeries::new(values.to_vec()).expect("series within bounds")
}

#[test]
fn test_max_price_calculate() {
    let signal = MaxPrice {};
    assert_eq!(signal.calculate(&series(&[])), None);
    assert_eq!(signal.calculate(&series(&[10])), Some(10));
    assert_eq!(signal.calculate(&series(&[10, 0])), Some(10));
    assert_eq!(
        signal.calculate(&series(&[20, 30, 50, 60, 10, 20, 100])),
        Some(100)
    );
    assert_eq!(
        signal.calculate(&series(&[0, 30, 50, 60, 10, 20, 10])),
        Some(60)
    );
}

#[test]
fn test_min_price_calculate() {
    let signal = MinPrice {};
    assert_eq!(signal.calculate(&series(&[])), None);
    assert_eq!(signal.calculate(&series(&[10])), Some(10));
    assert_eq!(signal.calculate(&series(&[10, 0])), Some(0));
    assert_eq!(
        signal.calculate(&series(&[20, 30, 50, 60, 10, 20, 100])),
        Some(10)
    );
    assert_eq!(
        signal.calculate(&series(&[0, 30, 50, 60, 10, 20, 10])),
        Some(0)
    );
}

#[test]
fn test_price_difference_calculate() {
    let signal = PriceDifference {};
    assert_eq!(signal.calculate(&series(&[])), None);
    assert_eq!(
        signal.calculate(&series(&[10])),
        Some((0, Ratio { num: 0, den: 10 }))
    );
    assert_eq!(
        signal.calculate(&series(&[10, 0])),
        Some((-10, Ratio { num: -10, den: 10 }))
    );
    // 8.0 net and 4.0 relative difference, exactly as rationals.
    let r = signal
        .calculate(&series(&[20, 30, 50, 60, 10, 20, 100]))
        .unwrap();
    assert_eq!(r.0, 80);
    assert_eq!(r.1, Ratio { num: 80, den: 20 });
    assert_eq!(r.1.num as f64 / r.1.den as f64, 4.0);
    // A first price of zero: the denominator falls back to one unit.
    assert_eq!(
        signal.calculate(&series(&[0, 30, 50, 60, 10, 20, 10])),
        Some((10, Ratio { num: 10, den: 1 }))
    );
}

#[test]
fn test_windowed_sma_calculate() {
    // 2.0, 4.5, 5.3, 6.5, 4.7 in tenths.
    let values: [i64; 5] = [20, 45, 53, 65, 47];

    let signal = WindowedSMA::new(3);
    let out = signal.calculate(&series(&values)).unwrap();
    assert_eq!(
        out,
        vec![
            Ratio { num: 118, den: 3 },
            Ratio { num: 163, den: 3 },
            Ratio { num: 165, den: 3 },
        ]
    );
    // The same means in floating point, scaled back to whole prices.
    let floats: Vec<f64> = out
        .iter()
        .map(|r| r.num as f64 / r.den as f64 / 10.0)
        .collect();
    assert!((floats[0] - 3.9333333333333336).abs() < 1e-12);
    assert!((floats[1] - 5.433333333333334).abs() < 1e-12);
    assert!((floats[2] - 5.5).abs() < 1e-12);

    let signal = WindowedSMA::new(5);
    assert_eq!(
        signal.calculate(&series(&values)).unwrap(),
        vec![Ratio { num: 230, den: 5 }]
    );

    // A window larger than the series is present but empty, not absent.
    let signal = WindowedSMA::new(10);
    assert_eq!(signal.calculate(&series(&values)), Some(vec![]));

    // An empty series or a degenerate window is absent.
    let signal = WindowedSMA::new(3);
    assert_eq!(signal.calculate(&series(&[])), None);
    let signal = WindowedSMA::new(1);
    assert_eq!(signal.calculate(&series(&values)), None);
    let signal = WindowedSMA::new(0);
    assert_eq!(signal.calculate(&series(&values)), None);
}

#[test]
fn test_signals_idempotent() {
    let values: [i64; 7] = [20, 30, 50, 60, 10, 20, 100];
    let s = series(&values);

    let signal = MaxPrice {};
    assert_eq!(signal.calculate(&s), signal.calculate(&s));
    let signal = MinPrice {};
    assert_eq!(signal.calculate(&s), signal.calculate(&s));
    let signal = PriceDifference {};
    assert_eq!(signal.calculate(&s), signal.calculate(&s));
    let signal = WindowedSMA::new(3);
    assert_eq!(signal.calculate(&s), signal.calculate(&s));
}

#[test]
fn test_series_bounds() {
    assert!(PriceSeries::new(vec![0, 5, 10]).is_some());
    // Prices are non-negative.
    assert!(PriceSeries::new(vec![5, -1]).is_none());
    // Prices fit the fixed-point bound.
    assert!(PriceSeries::new(vec![stock_signals::MAX_PRICE_UNITS + 1]).is_none());
    assert!(PriceSeries::new(vec![stock_signals::MAX_PRICE_UNITS]).is_some());

    let s = series(&[20, 45, 53]);
    assert_eq!(s.len(), 3);
    assert!(!s.is_empty());
    assert_eq!(s.values(), &vec![20, 45, 53]);
    assert!(series(&[]).is_empty());
}
