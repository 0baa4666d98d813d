//! Streaming technical-analysis indicators over integer price streams:
//! an exponential moving average, a double exponential moving average built
//! from two cascaded averages, and a moving average convergence/divergence
//! oscillator built from pluggable line indicators.
//!
//! Prices are fixed-point integers in whatever unit the caller picks; every
//! smoothing step rounds toward negative infinity.
pub mod dema;
pub mod ema;
pub mod macd;
pub mod utils;
