//! The sample pixel shader's configuration: an optional RGB888 texture with
//! its dimensions. The host's shading loop samples it per pixel.

use vstd::prelude::*;

verus! {

pub struct SimplePixelShader<'a> {
    pub texture: Option<&'a [u8]>,
    pub tex_wid: u16,
    pub tex_hei: u16,
}

impl<'a> SimplePixelShader<'a> {
    /// Starts with no texture bound: the shader then falls back to the
    /// interpolated vertex attributes.
    pub fn new() -> (r: Self)
        ensures
            r.texture is None,
            r.tex_wid == 0,
            r.tex_hei == 0,
    {
        Self { texture: None, tex_wid: 0, tex_hei: 0 }
    }
}

} // verus!
