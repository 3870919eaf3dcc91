//! Technical-analysis support: time stamps, error kinds, the time ordering
//! of a series, and the windows and checks that the indicators rest on.
pub mod error;
pub mod macd;
pub mod order;
pub mod stochastic;
pub mod time;
pub mod window;
