//! Typographic text processing.
//!
//! This crate rewrites raw, author-typed text into typographically correct
//! output: straight quotes become directional curly quotes, ASCII
//! approximations of dashes, ellipses and guillemets become their proper
//! glyphs, and — for French-language text — the spacing around punctuation,
//! dashes, quotation marks and numbers is corrected to the locale's
//! non-breaking-space conventions.
//!
//! The transforms live in [`clean`] (generic lexical cleanup), [`escape`]
//! (output escaping for HTML and TeX targets) and [`french`] (the contextual
//! spacing engine, driven by a [`french::FrenchFormatter`] configuration).
//! Every transform is a pure function on the text's sequence of Unicode
//! scalar values; each one's result is pinned down, character for character,
//! by a specification function stated over that sequence.

pub mod clean;
pub mod common;
pub mod escape;
pub mod french;
pub mod unicode;
