//! A screen sink over a borrowed RGBA byte buffer, four bytes per pixel in
//! row-major order. The desktop host hands the filled buffer to its window
//! system after each present.

use vstd::prelude::*;
use crate::screen_trait::ScreenTrait;

verus! {

pub struct BufferScreen {
    width: u16,
    height: u16,
    color_buffer: Vec<u8>,
}

impl BufferScreen {
    /// Takes ownership of an externally provided color buffer of exactly
    /// four bytes per pixel.
    pub fn new(width: u16, height: u16, color_buffer: Vec<u8>) -> (r: Self)
        requires
            color_buffer.len() == width as int * height as int * 4,
        ensures
            r.wf(),
            r.width_spec() == width,
            r.height_spec() == height,
            r.pixels() == Seq::new(
                (width as int * height as int) as nat,
                |i: int| (color_buffer[4 * i], color_buffer[4 * i + 1], color_buffer[4 * i + 2]),
            ),
    {
        Self { width, height, color_buffer }
    }

    /// The stored color of one pixel.
    pub fn get_pixel(&self, x: u16, y: u16) -> (r: (u8, u8, u8))
        requires
            self.wf(),
            x < self.width_spec(),
            y < self.height_spec(),
        ensures
            r == self.pixels()[y as int * self.width_spec() as int + x as int],
    {
        assert((y as int * self.width as int + x as int) <= 4294901760) by (nonlinear_arith)
            requires
                (x as int) < 0x10000,
                (y as int) < 0x10000,
                0 <= (self.width as int) < 0x10000,
        ;
        let index: usize = y as usize * self.width as usize + x as usize;
        assert((index as int) * 4 + 3 < self.color_buffer.len()) by (nonlinear_arith)
            requires
                index as int == (y as int) * (self.width as int) + x as int,
                x < self.width,
                y < self.height,
                self.color_buffer.len() == (self.width as int) * (self.height as int) * 4,
        ;
        let pr = self.color_buffer[index * 4];
        let pg = self.color_buffer[index * 4 + 1];
        let pb = self.color_buffer[index * 4 + 2];
        (pr, pg, pb)
    }

    /// Gives the filled buffer back to the host (for example to upload it
    /// as a texture), consuming the screen.
    pub fn into_buffer(self) -> (r: Vec<u8>)
        requires
            self.wf(),
        ensures
            r.len() == self.width_spec() as int * self.height_spec() as int * 4,
            forall|i: int| #![auto] 0 <= i < self.pixels().len()
                ==> (r[4 * i], r[4 * i + 1], r[4 * i + 2]) == self.pixels()[i],
    {
        self.color_buffer
    }
}

impl ScreenTrait for BufferScreen {
    closed spec fn wf(&self) -> bool {
        self.color_buffer.len() == self.width as int * self.height as int * 4
    }

    closed spec fn width_spec(&self) -> u16 {
        self.width
    }

    closed spec fn height_spec(&self) -> u16 {
        self.height
    }

    closed spec fn pixels(&self) -> Seq<(u8, u8, u8)> {
        Seq::new(
            (self.width as int * self.height as int) as nat,
            |i: int| (
                self.color_buffer[4 * i],
                self.color_buffer[4 * i + 1],
                self.color_buffer[4 * i + 2],
            ),
        )
    }

    /// This sink stores the requested color exactly.
    open spec fn quantize(r: u8, g: u8, b: u8) -> (u8, u8, u8) {
        (r, g, b)
    }

    proof fn lemma_wf_pixels(&self) {
    }

    fn get_width(&self) -> (r: u16) {
        self.width
    }

    fn get_height(&self) -> (r: u16) {
        self.height
    }

    fn set_pixel(&mut self, x: u16, y: u16, r: u8, g: u8, b: u8) {
        assert((y as int * self.width as int + x as int) <= 4294901760) by (nonlinear_arith)
            requires
                (x as int) < 0x10000,
                (y as int) < 0x10000,
                0 <= (self.width as int) < 0x10000,
        ;
        let index: usize = y as usize * self.width as usize + x as usize;
        assert((index as int) < (self.width as int) * (self.height as int)) by (nonlinear_arith)
            requires
                index as int == (y as int) * (self.width as int) + x as int,
                x < self.width,
                y < self.height,
        ;
        assert((index as int) * 4 + 3 < self.color_buffer.len()) by (nonlinear_arith)
            requires
                index as int == (y as int) * (self.width as int) + x as int,
                x < self.width,
                y < self.height,
                self.color_buffer.len() == (self.width as int) * (self.height as int) * 4,
        ;
        self.color_buffer.set(index * 4, r);
        self.color_buffer.set(index * 4 + 1, g);
        self.color_buffer.set(index * 4 + 2, b);
        self.color_buffer.set(index * 4 + 3, 255);
        proof {
            let w = old(self).width as int;
            let h = old(self).height as int;
            let idx = y as int * w + x as int;
            assert forall|i: int| 0 <= i < w * h && i != idx implies
                self.pixels()[i] == old(self).pixels()[i] by {
                assert(4 * i != 4 * idx && 4 * i + 1 != 4 * idx + 1 && 4 * i + 2 != 4 * idx + 2);
            }
            assert(self.pixels() =~= old(self).pixels().update(idx, (r, g, b)));
        }
    }

    fn clear(&mut self, r: u8, g: u8, b: u8) {
        let mut index: usize = 0;
        let len = self.color_buffer.len();
        assert(len == (self.width as int * self.height as int) * 4);
        while index < len
            invariant
                self.wf(),
                self.width == old(self).width,
                self.height == old(self).height,
                len == self.color_buffer.len(),
                len % 4 == 0,
                index % 4 == 0,
                index <= len,
                forall|j: int| #![auto] 0 <= j < index ==> self.color_buffer[j] == (
                    if j % 4 == 0 { r } else if j % 4 == 1 { g } else if j % 4 == 2 { b } else { 255u8 }
                ),
            decreases len - index,
        {
            assert(index + 4 <= len);
            self.color_buffer.set(index, r);
            self.color_buffer.set(index + 1, g);
            self.color_buffer.set(index + 2, b);
            self.color_buffer.set(index + 3, 255);
            index += 4;
        }
        proof {
            let w = self.width as int;
            let h = self.height as int;
            assert forall|i: int| 0 <= i < w * h implies
                self.pixels()[i] == (r, g, b) by {
                assert(0 <= 4 * i && 4 * i + 3 < w * h * 4) by (nonlinear_arith)
                    requires 0 <= i < w * h;
                assert((4 * i) % 4 == 0 && (4 * i + 1) % 4 == 1 && (4 * i + 2) % 4 == 2);
            }
            assert(self.pixels() =~= Seq::new(
                old(self).pixels().len(),
                |i: int| (r, g, b),
            ));
        }
    }

    fn update_screen(&mut self) -> (res: Result<(), ()>) {
        Ok(())
    }
}

} // verus!
