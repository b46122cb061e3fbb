//! Keyboard layout analysis: a fixed 3x10 key block plus a thumb key,
//! scored from corpus n-gram statistics and searched by random mutation.
//!
//! The discrete core lives here: layout text parsing and printing, the
//! per-key hand/finger model, the bigram and trigram classifier tables,
//! exact integer n-gram accumulation with precision truncation, the
//! constraint counters, and the layout mutation step.  Callers combine
//! the integer results with their own floating-point weighting.

pub mod layout;
pub mod model;
pub mod classify;
pub mod neighbor;
pub mod chars;
pub mod constraints;
pub mod scores;
pub mod parse;
pub mod db;
pub mod alphabet;
