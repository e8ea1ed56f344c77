//! Billboard textures: RGBA images of the image crate, held behind exact
//! contracts. The texels are stored row by row, four bytes per pixel; reading
//! a texel at integer coordinates returns the stored bytes unchanged. The
//! fractional blending between texels is the application's floating-point
//! work and happens outside this crate.

use vstd::prelude::*;

verus! {

/// A billboard texture. The image crate's RGBA buffer is held opaquely; what
/// this crate states about it is phrased over its dimensions and raw bytes.
#[verifier::external_body]
pub struct Texture {
    img: image::RgbaImage,
}

/// The width, in pixels, of a texture.
pub uninterp spec fn tex_width(t: Texture) -> u32;

/// The height, in pixels, of a texture.
pub uninterp spec fn tex_height(t: Texture) -> u32;

/// The raw bytes a texture holds: four channel bytes per pixel, pixels row by
/// row.
pub uninterp spec fn tex_data(t: Texture) -> Seq<u8>;

/// Relies on image::ImageBuffer::width: the width the buffer was made with.
#[verifier::external_body]
pub fn texture_width(t: &Texture) -> (w: u32)
    ensures
        w == tex_width(*t),
{
    t.img.width()
}

/// Relies on image::ImageBuffer::height: the height the buffer was made with.
#[verifier::external_body]
pub fn texture_height(t: &Texture) -> (h: u32)
    ensures
        h == tex_height(*t),
{
    t.img.height()
}

/// Relies on image::ImageBuffer::from_raw: the buffer is built over the given
/// container exactly when the container holds the image's four bytes per
/// pixel, and keeps the container's bytes as they are.
#[verifier::external_body]
pub fn texture_from_raw(width: u32, height: u32, data: Vec<u8>) -> (r: Option<Texture>)
    ensures
        match r {
            Option::Some(t) => 4 * (width as int) * (height as int) <= data@.len() && tex_width(t)
                == width && tex_height(t) == height && tex_data(t) == data@,
            Option::None => 4 * (width as int) * (height as int) > data@.len(),
        },
{
    match image::RgbaImage::from_raw(width, height, data) {
        Some(img) => Some(Texture { img }),
        None => None,
    }
}

/// Relies on image::ImageBuffer::get_pixel: within bounds it returns the four
/// stored bytes of the pixel, read at `4 * (y * width + x)` in the raw data.
#[verifier::external_body]
fn texture_pixel_channels(t: &Texture, x: u32, y: u32) -> (r: (u8, u8, u8, u8))
    requires
        x < tex_width(*t),
        y < tex_height(*t),
    ensures
        ({
            let base = 4 * ((y as int) * (tex_width(*t) as int) + (x as int));
            r == (
                tex_data(*t)[base],
                tex_data(*t)[base + 1],
                tex_data(*t)[base + 2],
                tex_data(*t)[base + 3],
            )
        }),
{
    let p = t.img.get_pixel(x, y);
    (p.0[0], p.0[1], p.0[2], p.0[3])
}

/// The texel at integer coordinates: inside the texture it is the stored
/// pixel, read back unchanged as (red, green, blue, alpha); outside it is
/// nothing.
pub fn texel(t: &Texture, x: u32, y: u32) -> (r: Option<(u8, u8, u8, u8)>)
    ensures
        match r {
            Option::Some(p) => x < tex_width(*t) && y < tex_height(*t) && ({
                let base = 4 * ((y as int) * (tex_width(*t) as int) + (x as int));
                p == (
                    tex_data(*t)[base],
                    tex_data(*t)[base + 1],
                    tex_data(*t)[base + 2],
                    tex_data(*t)[base + 3],
                )
            }),
            Option::None => x >= tex_width(*t) || y >= tex_height(*t),
        },
{
    let w = texture_width(t);
    let h = texture_height(t);
    if x < w && y < h {
        Option::Some(texture_pixel_channels(t, x, y))
    } else {
        Option::None
    }
}

} // verus!
