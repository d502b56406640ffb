//! Reduce a font-source document to a chosen set of glyphs and their
//! transitive component dependencies, dropping everything else while keeping
//! every remaining cross-reference valid.
//!
//! The pipeline is: decide which glyphs are directly wanted (by primary
//! codepoint or by allow-list), close that set under component references,
//! prune the glyph store and the auxiliary layers and tables, and filter the
//! glyph-name-keyed metadata down to the retained names.

pub mod args;
pub mod config;
pub mod model;
pub mod pipeline;
pub mod prune;
pub mod retain;
