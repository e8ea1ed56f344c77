//! Configuration items of the renderer: the generator choice, the colour
//! palette of the shading stage, the atmosphere definition, and the default
//! values of the output options.

use vstd::prelude::*;

verus! {

/// Which generator walks the image grid.
#[derive(Debug, Clone, Copy, PartialEq, Eq, Structural)]
pub enum GeneratorDef {
    Fast,
    InterpolatingRectilinear,
    Rectilinear,
}

/// The palette used by the shading stage of the compositor.
#[derive(Debug, Clone, Copy, PartialEq, Eq, Structural)]
pub enum ColorPalette {
    Legacy,
    Improved,
}

impl Default for ColorPalette {
    fn default() -> (r: Self)
        ensures
            r == ColorPalette::Improved,
    {
        ColorPalette::Improved
    }
}

/// How the atmosphere profile is supplied: as a path to a profile file, or as
/// an inline textual definition.
#[derive(Debug, Clone)]
pub enum AtmosphereDef {
    Path(String),
    Definition(String),
}

/// Default folder holding the terrain tiles.
pub fn default_terrain_folder() -> (r: String)
    ensures
        r@ == "./terrain"@,
{
    "./terrain".to_string()
}

/// Default output image file.
pub fn default_file() -> (r: String)
    ensures
        r@ == "./output.png"@,
{
    "./output.png".to_string()
}

/// Default output image width, in pixels.
pub fn default_width() -> (r: u16)
    ensures
        r == 640,
{
    640
}

/// Default output image height, in pixels.
pub fn default_height() -> (r: u16)
    ensures
        r == 480,
{
    480
}

/// Default generator choice.
pub fn default_generator() -> (r: GeneratorDef)
    ensures
        r == GeneratorDef::Fast,
{
    GeneratorDef::Fast
}

} // verus!
