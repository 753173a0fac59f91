//! Text on a raster display: bitmap fonts read from their description, and their glyphs
//! drawn into a buffer of pixels.

pub mod display;
pub mod errors;
pub mod fonts;
pub mod raster;
pub mod scan;
