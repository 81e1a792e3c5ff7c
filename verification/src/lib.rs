//! Tap-tempo estimation: a bounded history of tap timestamps and the tempo,
//! in beats per minute, that the taps in it imply.

pub mod estimator;
pub mod laws;
pub mod model;
pub mod timestamp;

pub use estimator::TempoEstimator;
pub use timestamp::Timestamp;
