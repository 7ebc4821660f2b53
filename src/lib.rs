//! Parsing and rendering of Wikidot-style markup.
//!
//! The parser turns wikitext into a typed element tree, guided by a fixed
//! table of block rules; the renderer walks that tree once and produces HTML,
//! deferring footnote lists until every footnote reference has been seen.

pub mod text;
pub mod element;
pub mod rule;
pub mod parse;
pub mod render;
pub mod domain;
pub mod locality;
pub mod service;
