//! A tiled-map viewport engine: a layered tile grid, a clamped scrolling
//! camera, and a renderer that composites the visible tiles of the grid
//! into a pixel surface.
//!
//! All coordinates are integers. World and surface positions are measured in
//! whole pixels, time in whole milliseconds.

pub mod arith;
pub mod camera;
pub mod geometry;
pub mod image;
pub mod map;
pub mod tile_map;

pub use camera::{Camera, CameraBuilder};
pub use geometry::{Point, Rectangle};
pub use image::{Image, RenderTarget};
pub use map::{Layer, TileMap};
pub use tile_map::{Blit, TileMapRenderObject, TileWindow};
