//! Verified core of a word-capture and translation helper: the source and
//! mode tables, the word book, the translation fallback chain, the response
//! parsers and the small decision machines that drive capture.

pub mod types;
pub mod text;
pub mod capture;
pub mod json;
pub mod translator;
pub mod wordbook;
pub mod config;
pub mod hook;
pub mod session;
