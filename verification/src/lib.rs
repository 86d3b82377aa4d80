//! Verified core of a graphing calculator: expression text handling,
//! sample-count limits, the saved-curve format and the curve list that the
//! user edits.

pub mod app;
pub mod math;
pub mod plot;
pub mod store;
pub mod text;
