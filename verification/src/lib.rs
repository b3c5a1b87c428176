pub mod bsp;
pub mod dungeon;
pub mod glyph;
pub mod hello_plugin;
pub mod raster;
pub mod rng;
pub mod stats;
