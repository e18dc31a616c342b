//! The screen sink consumed by the renderer: pixel plotting, clear and
//! present, specified against an abstract row-major view of the color
//! surface. A sink may quantize the requested color; the `quantize` spec
//! function names the stored value for each request.

use vstd::prelude::*;

verus! {

pub trait ScreenTrait: Sized {
    /// Internal consistency of the sink (buffer sizes match the dimensions).
    spec fn wf(&self) -> bool;

    spec fn width_spec(&self) -> u16;

    spec fn height_spec(&self) -> u16;

    /// Row-major view of the color surface: entry `y * width + x` is the
    /// stored color of pixel `(x, y)`.
    spec fn pixels(&self) -> Seq<(u8, u8, u8)>;

    /// The color the sink stores when asked for `(r, g, b)`.
    spec fn quantize(r: u8, g: u8, b: u8) -> (u8, u8, u8);

    proof fn lemma_wf_pixels(&self)
        requires
            self.wf(),
        ensures
            self.pixels().len() == self.width_spec() as int * self.height_spec() as int,
    ;

    fn get_width(&self) -> (r: u16)
        ensures
            r == self.width_spec(),
    ;

    fn get_height(&self) -> (r: u16)
        ensures
            r == self.height_spec(),
    ;

    /// Stores the quantized color at `(x, y)`. The caller keeps the
    /// coordinates inside the surface.
    fn set_pixel(&mut self, x: u16, y: u16, r: u8, g: u8, b: u8)
        requires
            old(self).wf(),
            x < old(self).width_spec(),
            y < old(self).height_spec(),
        ensures
            final(self).wf(),
            final(self).width_spec() == old(self).width_spec(),
            final(self).height_spec() == old(self).height_spec(),
            final(self).pixels() == old(self).pixels().update(
                y as int * old(self).width_spec() as int + x as int,
                Self::quantize(r, g, b),
            ),
    ;

    /// Fills the whole color surface with the quantized color. The state
    /// after a clear depends only on the dimensions and the color asked for,
    /// never on what the surface held before.
    fn clear(&mut self, r: u8, g: u8, b: u8)
        requires
            old(self).wf(),
        ensures
            final(self).wf(),
            final(self).width_spec() == old(self).width_spec(),
            final(self).height_spec() == old(self).height_spec(),
            final(self).pixels() == Seq::new(
                old(self).pixels().len(),
                |i: int| Self::quantize(r, g, b),
            ),
    ;

    /// Commits the color surface to the display; the surface itself is left
    /// as it was, whether or not the commit succeeds.
    fn update_screen(&mut self) -> (res: Result<(), ()>)
        requires
            old(self).wf(),
        ensures
            final(self).wf(),
            final(self).width_spec() == old(self).width_spec(),
            final(self).height_spec() == old(self).height_spec(),
            final(self).pixels() == old(self).pixels(),
    ;
}

/// Clearing is idempotent: a surface cleared once and a surface cleared
/// twice with the same color are observationally equal, because the view
/// after a clear is a function of the dimensions and the color alone.
pub proof fn lemma_clear_idempotent<S: ScreenTrait>(
    once: S,
    twice: S,
    n: nat,
    r: u8,
    g: u8,
    b: u8,
)
    requires
        once.pixels() == Seq::new(n, |i: int| S::quantize(r, g, b)),
        twice.pixels() == Seq::new(n, |i: int| S::quantize(r, g, b)),
    ensures
        once.pixels() == twice.pixels(),
{
}

} // verus!
