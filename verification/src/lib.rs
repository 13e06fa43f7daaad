//! A lint framework for subtitle text blocks.
//!
//! An input file is a sequence of numbered text blocks separated by blank
//! lines.  Every block is held against a fixed, ordered catalog of
//! formatting rules (spacing, line length, punctuation, quote balance,
//! dialogue hyphens), and the outcomes are folded into a file-level verdict.

pub mod content;
pub mod lints;
pub mod message;
pub mod numeral;
pub mod rules;
pub mod text;
