//! Descriptive signals over time-ordered series of closing prices.
//!
//! Prices are held as non-negative fixed-point integers (the caller picks the
//! scale); means and relative changes are reported as exact rationals, so
//! every computation here is exact and fully specified.

pub mod orchestrator;
pub mod series;
pub mod signals;

pub use orchestrator::FetchError;
pub use orchestrator::OutputRow;
pub use orchestrator::Quote;
pub use orchestrator::SymbolOutcome;
pub use series::MAX_PRICE_UNITS;
pub use series::MAX_SERIES_LEN;
pub use series::PriceSeries;
pub use series::Ratio;
pub use signals::AsyncStockSignal;
pub use signals::MaxPrice;
pub use signals::MinPrice;
pub use signals::PriceDifference;
pub use signals::WindowedSMA;
