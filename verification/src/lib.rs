//! Face-authentication core: verification state machine, matcher, record
//! store and privilege-bridge protocol for a pluggable local-authentication
//! method.
//!
//! Scores, thresholds and embedding components are fixed-point integers in
//! parts per million (ppm), so that one million stands for 1.0.

pub mod camera;
pub mod detector;
pub mod embedding;
pub mod frame;
pub mod hook;
pub mod matcher;
pub mod paths;
pub mod preview;
pub mod records;
pub mod score;
pub mod service;
pub mod similarity;
pub mod storage;
pub mod text;
pub mod wire;

pub use score::SCALE_PPM;
