//! Reassembly of scrambled tiled images.
//!
//! A manifest names the size of an output canvas and a list of tile
//! placements; each placement copies one rectangle of a source image to a
//! position on the canvas. [`manifest`] reads the manifest, [`compositor`]
//! applies it.

pub mod compositor;
pub mod coords;
pub mod geometry;
pub mod json;
pub mod manifest;
pub mod raster;
