//! Landmark-hash acoustic fingerprinting: hash packing over spectral peaks,
//! an inverted index of hash postings, and a time-delta histogram matcher.

pub mod alignment;
pub mod db;
pub mod find_match;
pub mod find_peaks;
pub mod frames;
pub mod generate_fingerprints;
pub mod types;
