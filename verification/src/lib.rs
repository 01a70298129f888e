//! Token-based detection of duplicated code fragments across source files.
//!
//! Source files are turned into token sequences; a sliding window over each
//! sequence is fingerprinted, fingerprints are matched across files of the
//! same extension, and runs of consecutive matches are merged into maximal
//! clone spans whose exact text can then be sliced back out of the sources.

pub mod detect;
pub mod fragment;
pub mod hashing;
pub mod parse;
pub mod partition;
pub mod tokenmap;
pub mod tokenstore;
