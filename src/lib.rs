//! Line statistics (code, blank, comment) for source text, driven by a
//! per-language table of lexical delimiters.
pub mod error;
pub mod files;
pub mod language;
pub mod laws;
pub mod parser;
pub mod result;
pub mod scan;
pub mod text;
