//! Generation of Google Maps tiles from an image.
//!
//! At zoom level `z` the map is a square of `2^z` by `2^z` tiles of 256 by 256 pixels. The image is
//! padded to a square ([`square::make_square`]), scaled to the pixels of the level, cut into tiles
//! and written as `zoom/column/row.extension` ([`plan`], [`encode`]). Where there is a GPU, the tiles
//! are rendered in batches from a mipmapped texture instead of being cut out of a scaled image
//! ([`grid::batches`], [`gpu`]).
//!
//! Opening the image, driving the GPU and writing files is left to the program around this library.
pub mod color;
pub mod decimal;
pub mod encode;
pub mod gpu;
pub mod grid;
pub mod job;
pub mod laws;
pub mod plan;
pub mod raster;
pub mod square;
