//! The frame core of the ST7735 display driver: an RGB565 byte buffer, two
//! big-endian bytes per pixel, with an optional interlaced presentation
//! scheme that commits only every other scanline per present and alternates
//! parity. The host driver owns the SPI link and pins; this type owns the
//! bytes and decides which rows each present commits.

use vstd::prelude::*;
use crate::screen_trait::ScreenTrait;

verus! {

/// The RGB565 value stored for a requested 24-bit color.
pub open spec fn spec_pack565(r: u8, g: u8, b: u8) -> u16 {
    let rr = (r as int) * 31 / 255;
    let gg = (g as int) * 63 / 255;
    let bb = (b as int) * 31 / 255;
    (rr * 2048 + gg * 32 + bb) as u16
}

pub open spec fn spec_be_hi(c: u16) -> u8 {
    (c / 256) as u8
}

pub open spec fn spec_be_lo(c: u16) -> u8 {
    (c % 256) as u8
}

/// The rows one present commits: all of them without interlacing, otherwise
/// the even rows on even parity and the odd rows on odd parity.
pub open spec fn spec_present_rows(height: int, interlace: bool, even: bool) -> Seq<u16> {
    if !interlace {
        Seq::new(height as nat, |i: int| i as u16)
    } else {
        let start = if even { 0int } else { 1int };
        Seq::new(((height - start + 1) / 2) as nat, |i: int| (start + 2 * i) as u16)
    }
}

pub struct St7735Frame {
    width: u16,
    height: u16,
    buffer: Vec<u8>,
    interlace: bool,
    interlace_even: bool,
}

impl St7735Frame {
    /// The raw RGB565 bytes, two per pixel, row-major and big-endian.
    pub closed spec fn bytes(&self) -> Seq<u8> {
        self.buffer@
    }

    pub closed spec fn interlace_spec(&self) -> bool {
        self.interlace
    }

    pub closed spec fn parity_spec(&self) -> bool {
        self.interlace_even
    }

    /// Takes ownership of an externally provided buffer of exactly two
    /// bytes per pixel. Interlacing starts disabled, with the parity flag
    /// down, so the odd rows are scheduled first once it is switched on.
    pub fn new(width: u16, height: u16, buffer: Vec<u8>) -> (r: Self)
        requires
            buffer.len() == width as int * height as int * 2,
        ensures
            r.wf(),
            r.width_spec() == width,
            r.height_spec() == height,
            r.bytes() == buffer@,
            r.interlace_spec() == false,
            r.parity_spec() == false,
    {
        Self { width, height, buffer, interlace: false, interlace_even: false }
    }

    /// Switches interlaced presentation on or off; the host resets the
    /// display's address window when switching off.
    pub fn set_interlace(&mut self, value: bool)
        ensures
            final(self).interlace_spec() == value,
            final(self).parity_spec() == old(self).parity_spec(),
            final(self).width_spec() == old(self).width_spec(),
            final(self).height_spec() == old(self).height_spec(),
            final(self).bytes() == old(self).bytes(),
            final(self).wf() == old(self).wf(),
    {
        self.interlace = value;
    }

    /// Whether interlaced presentation is switched on.
    pub fn interlaced(&self) -> (r: bool)
        ensures
            r == self.interlace_spec(),
    {
        self.interlace
    }

    /// The byte range of one scanline: two bytes per pixel, row-major, so
    /// row `y` occupies `[y * width * 2, (y + 1) * width * 2)`. The range
    /// lies inside the buffer, ready for the host to stream out.
    pub fn row_byte_range(&self, y: u16) -> (r: (usize, usize))
        requires
            self.wf(),
            y < self.height_spec(),
        ensures
            r.0 == y as int * self.width_spec() as int * 2,
            r.1 == (y as int + 1) * self.width_spec() as int * 2,
            r.0 <= r.1 <= self.bytes().len(),
    {
        assert((y as int + 1) * (self.width as int) * 2
            <= (self.height as int) * (self.width as int) * 2) by (nonlinear_arith)
            requires
                (y as int) < (self.height as int),
                0 <= (self.width as int),
        ;
        assert((self.height as int) * (self.width as int) * 2
            == (self.width as int) * (self.height as int) * 2) by (nonlinear_arith);
        assert((y as int) * (self.width as int) * 2
            <= (y as int + 1) * (self.width as int) * 2) by (nonlinear_arith)
            requires
                0 <= (y as int),
                0 <= (self.width as int),
        ;
        let start: usize = y as usize * self.width as usize * 2;
        let end: usize = (y as usize + 1) * self.width as usize * 2;
        (start, end)
    }

    /// One stored byte, for the host to stream rows out over its link.
    pub fn byte_at(&self, index: usize) -> (r: u8)
        requires
            index < self.bytes().len(),
        ensures
            r == self.bytes()[index as int],
    {
        self.buffer[index]
    }

    /// The rows this present commits, in order. Without interlacing every
    /// row is committed and the parity is left alone; with interlacing the
    /// rows of the current parity are committed and the parity toggles, so
    /// that the next present commits exactly the remaining rows.
    pub fn present_rows(&mut self) -> (rows: Vec<u16>)
        ensures
            rows@ == spec_present_rows(
                old(self).height_spec() as int,
                old(self).interlace_spec(),
                old(self).parity_spec(),
            ),
            final(self).parity_spec() == (
                if old(self).interlace_spec() { !old(self).parity_spec() } else { old(self).parity_spec() }
            ),
            final(self).interlace_spec() == old(self).interlace_spec(),
            final(self).width_spec() == old(self).width_spec(),
            final(self).height_spec() == old(self).height_spec(),
            final(self).bytes() == old(self).bytes(),
            final(self).wf() == old(self).wf(),
    {
        let mut rows: Vec<u16> = Vec::new();
        if !self.interlace {
            let mut y: u16 = 0;
            while y < self.height
                invariant
                    y <= self.height,
                    rows@.len() == y as int,
                    forall|j: int| #![auto] 0 <= j < y as int ==> rows@[j] == j as u16,
                    self == old(self),
                decreases self.height as int - y as int,
            {
                rows.push(y);
                y += 1;
            }
            assert(rows@ =~= spec_present_rows(self.height as int, false, self.interlace_even));
        } else {
            let start: u16 = if self.interlace_even { 0 } else { 1 };
            let ghost s = start as int;
            let mut y: u32 = start as u32;
            while y < self.height as u32
                invariant
                    s == if self.interlace_even { 0int } else { 1int },
                    start as int == s,
                    y as int == s + 2 * rows@.len(),
                    y as int <= self.height as int + 1,
                    forall|j: int| #![auto] 0 <= j < rows@.len() ==> rows@[j] == (s + 2 * j) as u16,
                    self == old(self),
                decreases self.height as int + 1 - y as int,
            {
                rows.push(y as u16);
                y += 2;
            }
            proof {
                let h = self.height as int;
                assert(rows@.len() == (h - s + 1) / 2);
                assert(rows@ =~= spec_present_rows(h, true, self.interlace_even));
            }
            // Toggle the active row set for the next present.
            self.interlace_even = !self.interlace_even;
        }
        rows
    }
}

/// With interlacing, one present on even parity commits exactly the even
/// rows and one on odd parity exactly the odd rows: every row of the frame
/// is committed by exactly one of two successive presents, and none by both.
pub proof fn lemma_interlace_partition(height: u16)
    ensures
        forall|y: u16| y < height ==> (#[trigger] spec_present_rows(height as int, true, true)
            .contains(y)) == (y % 2 == 0),
        forall|y: u16| y < height ==> (#[trigger] spec_present_rows(height as int, true, false)
            .contains(y)) == (y % 2 == 1),
{
    let h = height as int;
    let evens = spec_present_rows(h, true, true);
    let odds = spec_present_rows(h, true, false);
    assert forall|y: u16| y < height implies (evens.contains(y) == (y % 2 == 0)) by {
        if y % 2 == 0 {
            let i = y as int / 2;
            assert(0 <= i < evens.len());
            assert(evens[i] == y);
        }
        if evens.contains(y) {
            let i = choose|i: int| 0 <= i < evens.len() && evens[i] == y;
            assert(y as int == 2 * i);
        }
    }
    assert forall|y: u16| y < height implies (odds.contains(y) == (y % 2 == 1)) by {
        if y % 2 == 1 {
            let i = (y as int - 1) / 2;
            assert(0 <= i < odds.len());
            assert(odds[i] == y);
        }
        if odds.contains(y) {
            let i = choose|i: int| 0 <= i < odds.len() && odds[i] == y;
            assert(y as int == 1 + 2 * i);
        }
    }
}

/// Two successive interlaced presents commit disjoint row sets whose union
/// is the whole frame, whichever parity comes first.
pub proof fn lemma_interlace_two_presents_cover(height: u16, even: bool)
    ensures
        forall|y: u16| y < height ==> (#[trigger] spec_present_rows(height as int, true, even)
            .contains(y)) != spec_present_rows(height as int, true, !even).contains(y),
{
    lemma_interlace_partition(height);
}

impl ScreenTrait for St7735Frame {
    closed spec fn wf(&self) -> bool {
        self.buffer.len() == self.width as int * self.height as int * 2
    }

    closed spec fn width_spec(&self) -> u16 {
        self.width
    }

    closed spec fn height_spec(&self) -> u16 {
        self.height
    }

    closed spec fn pixels(&self) -> Seq<(u8, u8, u8)> {
        Seq::new(
            (self.width as int * self.height as int) as nat,
            |i: int| (self.buffer[2 * i], self.buffer[2 * i + 1], 0u8),
        )
    }

    /// This sink quantizes to RGB565 and stores the two big-endian bytes;
    /// the third lane of the stored view is a constant zero pad.
    open spec fn quantize(r: u8, g: u8, b: u8) -> (u8, u8, u8) {
        (spec_be_hi(spec_pack565(r, g, b)), spec_be_lo(spec_pack565(r, g, b)), 0u8)
    }

    proof fn lemma_wf_pixels(&self) {
    }

    fn get_width(&self) -> (r: u16) {
        self.width
    }

    fn get_height(&self) -> (r: u16) {
        self.height
    }

    fn set_pixel(&mut self, x: u16, y: u16, r: u8, g: u8, b: u8) {
        assert((y as int * self.width as int + x as int) <= 4294901760) by (nonlinear_arith)
            requires
                (x as int) < 0x10000,
                (y as int) < 0x10000,
                0 <= (self.width as int) < 0x10000,
        ;
        let index: usize = y as usize * self.width as usize + x as usize;
        assert((index as int) < (self.width as int) * (self.height as int)) by (nonlinear_arith)
            requires
                index as int == (y as int) * (self.width as int) + x as int,
                x < self.width,
                y < self.height,
        ;
        assert((index as int) * 2 + 1 < self.buffer.len()) by (nonlinear_arith)
            requires
                index as int == (y as int) * (self.width as int) + x as int,
                x < self.width,
                y < self.height,
                self.buffer.len() == (self.width as int) * (self.height as int) * 2,
        ;

        let (hi, lo) = pack565(r, g, b);

        self.buffer.set(index * 2, hi);
        self.buffer.set(index * 2 + 1, lo);

        proof {
            let w = old(self).width as int;
            let h = old(self).height as int;
            let idx = y as int * w + x as int;
            assert forall|i: int| 0 <= i < w * h && i != idx implies
                self.pixels()[i] == old(self).pixels()[i] by {
                assert(2 * i != 2 * idx && 2 * i + 1 != 2 * idx + 1);
            }
            assert(self.pixels() =~= old(self).pixels().update(idx, Self::quantize(r, g, b)));
        }
    }

    #[verifier::rlimit(50)]
    fn clear(&mut self, r: u8, g: u8, b: u8) {
        let (hi, lo) = pack565(r, g, b);
        let mut index: usize = 0;
        let len = self.buffer.len();
        assert(len == (self.width as int * self.height as int) * 2);
        while index < len
            invariant
                self.wf(),
                self.width == old(self).width,
                self.height == old(self).height,
                len == self.buffer.len(),
                len % 2 == 0,
                index % 2 == 0,
                index <= len,
                hi == spec_be_hi(spec_pack565(r, g, b)),
                lo == spec_be_lo(spec_pack565(r, g, b)),
                forall|j: int| #![auto] 0 <= j < index ==> self.buffer[j] == (
                    if j % 2 == 0 { hi } else { lo }
                ),
            decreases len - index,
        {
            assert(index + 2 <= len);
            self.buffer.set(index, hi);
            self.buffer.set(index + 1, lo);
            index += 2;
        }
        proof {
            let w = self.width as int;
            let h = self.height as int;
            assert forall|i: int| 0 <= i < w * h implies
                self.pixels()[i] == Self::quantize(r, g, b) by {
                assert(0 <= 2 * i && 2 * i + 1 < w * h * 2) by (nonlinear_arith)
                    requires 0 <= i < w * h;
                assert((2 * i) % 2 == 0 && (2 * i + 1) % 2 == 1);
            }
            assert(self.pixels() =~= Seq::new(
                old(self).pixels().len(),
                |i: int| Self::quantize(r, g, b),
            ));
        }
    }

    /// Advances the presentation state; a host that owns the link calls
    /// `present_rows` instead and streams the scheduled rows itself.
    fn update_screen(&mut self) -> (res: Result<(), ()>) {
        let _rows = self.present_rows();
        Ok(())
    }
}

/// The two big-endian bytes of the RGB565 encoding of a 24-bit color.
fn pack565(r: u8, g: u8, b: u8) -> (res: (u8, u8))
    ensures
        res.0 == spec_be_hi(spec_pack565(r, g, b)),
        res.1 == spec_be_lo(spec_pack565(r, g, b)),
{
    let rq: u16 = (r as u16) * 31 / 255;
    let gq: u16 = (g as u16) * 63 / 255;
    let bq: u16 = (b as u16) * 31 / 255;

    assert(rq <= 31 && bq <= 31) by (nonlinear_arith)
        requires
            rq == (r as int) * 31 / 255,
            bq == (b as int) * 31 / 255,
            r <= 255,
            b <= 255,
    ;
    assert(gq <= 63) by (nonlinear_arith)
        requires
            gq == (g as int) * 63 / 255,
            g <= 255,
    ;

    let rm: u16 = rq & 0b0011_1111;
    let gm: u16 = gq & 0b0111_1111;
    let bm: u16 = bq & 0b0011_1111;

    assert(rm == rq) by (bit_vector)
        requires rm == rq & 0b0011_1111 && rq <= 31;
    assert(gm == gq) by (bit_vector)
        requires gm == gq & 0b0111_1111 && gq <= 63;
    assert(bm == bq) by (bit_vector)
        requires bm == bq & 0b0011_1111 && bq <= 31;

    let rs: u16 = rm << 11u16;
    let gs: u16 = gm << 5u16;
    let bs: u16 = bm << 0u16;

    assert(rs == rm * 2048) by (bit_vector)
        requires rs == rm << 11u16 && rm <= 31;
    assert(gs == gm * 32) by (bit_vector)
        requires gs == gm << 5u16 && gm <= 63;
    assert(bs == bm) by (bit_vector)
        requires bs == bm << 0u16;

    let color: u16 = rs + gs + bs;
    assert(color == spec_pack565(r, g, b));

    let hi_w: u16 = color >> 8u16;
    let lo_w: u16 = color & 0xff;
    assert(hi_w == color / 256 && hi_w <= 255) by (bit_vector)
        requires hi_w == color >> 8u16;
    assert(lo_w == color % 256 && lo_w <= 255) by (bit_vector)
        requires lo_w == color & 0xff;

    (hi_w as u8, lo_w as u8)
}

} // verus!
