//! Expansion of seed words into candidate-password dictionaries.
//!
//! A seed word is turned into a fixed family of forms (case forms, reversals,
//! leetspeak substitutions), each of which is combined with separator symbols,
//! numeric runs and date-like runs. Every candidate passes a byte-length window
//! before it is kept. All of it is deterministic, and the order of the
//! candidates is part of each contract.

pub mod args;
pub mod expansion;
pub mod generator;
pub mod laws;
pub mod report;
pub mod runs;
pub mod sink;
pub mod std_ext;
pub mod text;
pub mod variants;
pub mod words;
