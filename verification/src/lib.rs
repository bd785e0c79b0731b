//! Collage-composition engine: packs a set of images into a single
//! rectangular canvas of a chosen aspect ratio and rasterizes the result.
//!
//! The engine owns an ordered history of ingestion batches, searches for the
//! smallest canvas that both matches the requested aspect ratio and fits every
//! item (the 2-D bin packing itself is delegated to the `crunch` crate), and
//! renders the solved layout either as flat placeholder boxes or as decoded
//! image thumbnails, at an arbitrary output resolution.

pub mod compose;
pub mod loader;
pub mod pack;
pub mod packer;
pub mod utils;

