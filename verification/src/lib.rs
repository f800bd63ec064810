//! A tiny line-oriented converter from a restricted markdown subset
//! (single-level headings and one-line paragraphs) to HTML.
//!
//! The heart of the library is the line classifier and tag-state machine in
//! [`convert`]: it decides, line by line, which HTML tags to open and close,
//! and is verified against a mathematical model of the conversion.

pub mod banner;
pub mod convert;
