//! Semi-Global Matching (SGM) over a rectified grayscale stereo pair.
//!
//! The pipeline runs in four verified stages: a census transform of each
//! image, a Hamming-distance cost volume over a range of candidate
//! disparities, an eight-direction scanline cost aggregation, and a
//! winner-take-all disparity selection. Every stage carries a contract that
//! pins its output down as a function of its inputs.

pub mod aggregate;
pub mod census;
pub mod cost;
pub mod disparity;
pub mod grid;
pub mod hamming;
pub mod indexing;
pub mod pipeline;
pub mod volumes;
