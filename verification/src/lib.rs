//! A verified core for an EPUB translation pipeline.
//!
//! The crate extracts chapter text from an EPUB archive model, partitions it
//! into bounded, sentence-aligned translation units, orchestrates translation
//! calls against an abstract streaming backend (with retry, cancellation and
//! completion classification), and rebuilds a new EPUB from translated
//! markdown, preserving images, cover and table-of-contents structure.

pub mod archive;
pub mod builder;
pub mod doc;
pub mod extraction;
pub mod heuristic;
pub mod numeral;
pub mod orchestrator;
pub mod page;
pub mod partition;
pub mod paths;
pub mod session;
pub mod tags;
pub mod text;
pub mod transcode;
pub mod xhtml;
pub mod xml_converter;
