//! Exact byte-pattern search in binary data, and display of the NUL-delimited
//! strings that hold the matches, decoded from legacy Japanese encodings.

pub mod codec;
pub mod encoding;
pub mod line;
pub mod search;
pub mod span;
