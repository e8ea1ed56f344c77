//! Core of a panorama ray tracer that renders the Earth's surface under
//! atmospheric refraction.
//!
//! The numerical integration of light rays is carried out by the surrounding
//! application on IEEE 754 doubles; this crate holds the parts of the engine
//! whose behaviour can be stated and proved exactly: the per-pixel trace-point
//! pipeline, the terrain tile index, the blending policy of the interpolating
//! rectilinear generator, the cache schedule of the fast generator, and the
//! configuration model.

use vstd::prelude::*;

mod config;
pub mod collision;
pub mod grid;
pub mod interp;
pub mod texture;
pub mod tile_name;
pub mod tiles;
pub mod trace;

pub use config::AtmosphereDef;
pub use config::ColorPalette;
pub use config::GeneratorDef;
pub use config::default_file;
pub use config::default_generator;
pub use config::default_height;
pub use config::default_terrain_folder;
pub use config::default_width;

verus! {

} // verus!
