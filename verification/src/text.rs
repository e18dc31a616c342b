//! Bitmap text overlay: a 5x8 glyph blitter over any screen sink, with
//! optional background fill, silent clipping at the screen edges, and
//! string layout that advances six pixels per character and nine per line.

use vstd::prelude::*;
use vstd::arithmetic::div_mod::lemma_fundamental_div_mod_converse;
use vstd::arithmetic::div_mod::lemma_multiply_divide_lt;
use vstd::arithmetic::div_mod::lemma_div_pos_is_pos;
use crate::screen_trait::ScreenTrait;

verus! {

/// True iff the glyph for `c` has its pixel set at `(col, row)`: the font
/// is a flat byte array with five column bytes per character, bit `row`
/// (least significant bit topmost) of each column byte.
pub open spec fn spec_glyph_on(font: Seq<u8>, c: char, col: int, row: int) -> bool {
    (font[(c as int) * 5 + col] >> (row as u8)) & 1 == 1
}

/// The color of the pixel at `(px, py)` after drawing `c` at `(x, y)` over
/// the surface `p`: foreground where the glyph bit is set, the background
/// (when one is given) elsewhere in the 5x8 cell, and the old color outside
/// the cell.
pub open spec fn spec_char_pixel<S: ScreenTrait>(
    p: Seq<(u8, u8, u8)>,
    w: int,
    x: int,
    y: int,
    c: char,
    font: Seq<u8>,
    fg: (u8, u8, u8),
    bg: Option<(u8, u8, u8)>,
    px: int,
    py: int,
) -> (u8, u8, u8) {
    if x <= px < x + 5 && y <= py < y + 8 {
        if spec_glyph_on(font, c, px - x, py - y) {
            S::quantize(fg.0, fg.1, fg.2)
        } else {
            match bg {
                Some(bgc) => S::quantize(bgc.0, bgc.1, bgc.2),
                None => p[py * w + px],
            }
        }
    } else {
        p[py * w + px]
    }
}

/// The whole surface after drawing one character.
pub open spec fn spec_char_render<S: ScreenTrait>(
    p: Seq<(u8, u8, u8)>,
    w: int,
    x: int,
    y: int,
    c: char,
    font: Seq<u8>,
    fg: (u8, u8, u8),
    bg: Option<(u8, u8, u8)>,
) -> Seq<(u8, u8, u8)> {
    Seq::new(p.len(), |i: int| spec_char_pixel::<S>(p, w, x, y, c, font, fg, bg, i % w, i / w))
}

/// A character drawn entirely below the surface leaves it unchanged.
pub proof fn lemma_char_render_offscreen<S: ScreenTrait>(
    p: Seq<(u8, u8, u8)>,
    w: int,
    h: int,
    x: int,
    y: int,
    c: char,
    font: Seq<u8>,
    fg: (u8, u8, u8),
    bg: Option<(u8, u8, u8)>,
)
    requires
        0 <= w,
        0 <= h <= y,
        p.len() == w * h,
    ensures
        spec_char_render::<S>(p, w, x, y, c, font, fg, bg) == p,
{
    assert forall|i: int| 0 <= i < p.len() implies
        spec_char_render::<S>(p, w, x, y, c, font, fg, bg)[i] == p[i] by {
        lemma_index_decode(w, h, i);
        assert(i / w < h <= y);
        assert(spec_char_render::<S>(p, w, x, y, c, font, fg, bg)[i]
            == p[(i / w) * w + (i % w)]);
    }
    assert(spec_char_render::<S>(p, w, x, y, c, font, fg, bg) =~= p);
}

/// Nothing outside a character's 5x8 cell changes when it is drawn: the
/// blitter clips at the screen edges and never writes a pixel that the
/// glyph does not cover.
pub proof fn lemma_char_render_outside_cell<S: ScreenTrait>(
    p: Seq<(u8, u8, u8)>,
    w: int,
    x: int,
    y: int,
    c: char,
    font: Seq<u8>,
    fg: (u8, u8, u8),
    bg: Option<(u8, u8, u8)>,
    i: int,
)
    requires
        0 < w,
        0 <= i < p.len(),
        !(x <= i % w < x + 5 && y <= i / w < y + 8),
    ensures
        spec_char_render::<S>(p, w, x, y, c, font, fg, bg)[i] == p[i],
{
    vstd::arithmetic::div_mod::lemma_fundamental_div_mod(i, w);
    vstd::arithmetic::div_mod::lemma_mod_division_less_than_divisor(i, w);
    lemma_div_pos_is_pos(i, w);
    vstd::arithmetic::mul::lemma_mul_is_commutative(i / w, w);
    assert(spec_char_render::<S>(p, w, x, y, c, font, fg, bg)[i]
        == p[(i / w) * w + (i % w)]);
}

/// Decodes a row-major pixel index into its coordinates.
proof fn lemma_index_decode(wi: int, h: int, i: int)
    requires
        0 <= wi,
        0 <= h,
        0 <= i < wi * h,
    ensures
        0 < wi,
        0 < h,
        0 <= i % wi < wi,
        0 <= i / wi < h,
        (i / wi) * wi + (i % wi) == i,
{
    assert(wi > 0 && h > 0) by (nonlinear_arith)
        requires 0 <= wi && 0 <= h && 0 <= i && i < wi * h;
    vstd::arithmetic::div_mod::lemma_fundamental_div_mod(i, wi);
    vstd::arithmetic::div_mod::lemma_mod_division_less_than_divisor(i, wi);
    lemma_div_pos_is_pos(i, wi);
    lemma_multiply_divide_lt(i, wi, h);
    vstd::arithmetic::mul::lemma_mul_is_commutative(i / wi, wi);
}

proof fn lemma_pixel_index(w: int, px: int, py: int)
    requires
        0 < w,
        0 <= px < w,
        0 <= py,
    ensures
        (py * w + px) % w == px,
        (py * w + px) / w == py,
        py * w + px >= 0,
{
    vstd::arithmetic::mul::lemma_mul_nonnegative(py, w);
    lemma_fundamental_div_mod_converse(py * w + px, w, py, px);
}

proof fn lemma_glyph_bit(byte: u8, row: u8, mask: u8)
    requires
        row < 8,
        mask == 1u8 << row,
    ensures
        (byte & mask != 0) == (((byte >> row) & 1) == 1),
{
    assert((byte & (1u8 << row) != 0) == (((byte >> row) & 1) == 1)) by (bit_vector)
        requires row < 8;
}

/// Draws one 5x8 glyph at `(x, y)`. With a background color every pixel of
/// the cell that lies on the screen is written, foreground where the glyph
/// bit is set and background elsewhere; without one only the set bits are
/// written. Pixels outside the screen are silently dropped.
pub fn draw_char<S: ScreenTrait>(
    screen: &mut S,
    x: u16,
    y: u16,
    c: char,
    font: &[u8],
    font_color: (u8, u8, u8),
    bg_color: Option<(u8, u8, u8)>,
)
    requires
        old(screen).wf(),
        (c as int) * 5 + 5 <= font@.len(),
    ensures
        final(screen).wf(),
        final(screen).width_spec() == old(screen).width_spec(),
        final(screen).height_spec() == old(screen).height_spec(),
        final(screen).pixels() == spec_char_render::<S>(
            old(screen).pixels(),
            old(screen).width_spec() as int,
            x as int,
            y as int,
            c,
            font@,
            font_color,
            bg_color,
        ),
{
    let w = screen.get_width();
    let h = screen.get_height();
    let ghost p0 = screen.pixels();
    let ghost wi = w as int;
    let ghost target = spec_char_render::<S>(p0, wi, x as int, y as int, c, font@, font_color,
        bg_color);
    proof {
        screen.lemma_wf_pixels();
        assert forall|i: int| #![auto] 0 <= i < p0.len()
            && !(x as int <= i % wi < x as int + 5 && y as int <= i / wi < y as int + 8)
            implies target[i] == p0[i] by {
            lemma_index_decode(wi, h as int, i);
            assert(target[i] == p0[(i / wi) * wi + (i % wi)]);
        }
    }

    let mut yc: u16 = 0;
    while yc < 8
        invariant
            screen.wf(),
            screen.width_spec() == w,
            screen.height_spec() == h,
            screen.pixels().len() == p0.len(),
            p0.len() == wi * (h as int),
            wi == w as int,
            yc <= 8,
            (c as int) * 5 + 5 <= font@.len(),
            target == spec_char_render::<S>(p0, wi, x as int, y as int, c, font@, font_color,
                bg_color),
            forall|i: int| #![auto] 0 <= i < p0.len()
                && !(x as int <= i % wi < x as int + 5 && y as int <= i / wi < y as int + 8)
                ==> target[i] == p0[i],
            forall|i: int| #![auto] 0 <= i < p0.len() ==> screen.pixels()[i] == (
                if i / wi < y as int + yc as int {
                    target[i]
                } else {
                    p0[i]
                }
            ),
        ensures
            yc == 8 || y as int + yc as int >= h as int,
        decreases 8 - yc as int,
    {
        if bg_color.is_some() && y as u32 + yc as u32 >= h as u32 {
            // Rows below the screen: nothing left to draw.
            break;
        }
        let mask: u8 = 1u8 << (yc as u8);
        proof {
            assert forall|i: int| #![auto] 0 <= i < p0.len()
                && i / wi == y as int + yc as int && i % wi < x as int
                implies target[i] == p0[i] by {
                lemma_index_decode(wi, h as int, i);
            }
        }
        let mut xc: u16 = 0;
        while xc < 5
            invariant
                screen.wf(),
                screen.width_spec() == w,
                screen.height_spec() == h,
                screen.pixels().len() == p0.len(),
                p0.len() == wi * (h as int),
                wi == w as int,
                yc < 8,
                xc <= 5,
                mask == 1u8 << yc,
                (c as int) * 5 + 5 <= font@.len(),
                target == spec_char_render::<S>(p0, wi, x as int, y as int, c, font@, font_color,
                    bg_color),
                forall|i: int| #![auto] 0 <= i < p0.len()
                && !(x as int <= i % wi < x as int + 5 && y as int <= i / wi < y as int + 8)
                ==> target[i] == p0[i],
                forall|i: int| #![auto] 0 <= i < p0.len() ==> screen.pixels()[i] == (
                    if i / wi < y as int + yc as int
                        || (i / wi == y as int + yc as int && i % wi < x as int + xc as int) {
                        target[i]
                    } else {
                        p0[i]
                    }
                ),
            decreases 5 - xc as int,
        {
            let on_screen = (x as u32 + xc as u32) < w as u32 && (y as u32 + yc as u32) < h as u32;
            let glyph_byte = font[(c as usize) * 5 + (xc as usize)];
            let on = glyph_byte & mask != 0;
            proof {
                lemma_glyph_bit(glyph_byte, yc as u8, mask);
            }
            let write: Option<(u8, u8, u8)> = if on {
                Some(font_color)
            } else {
                match bg_color {
                    Some(bgc) => Some(bgc),
                    None => None,
                }
            };
            let ghost before = screen.pixels();
            let ghost idx0: int = (y as int + yc as int) * wi + (x as int + xc as int);
            let ghost wrote: bool = on_screen && write.is_some();
            let ghost wv: (u8, u8, u8) = if write.is_some() { write->Some_0 } else { (0u8, 0u8, 0u8) };
            if on_screen {
                if let Some(col) = write {
                    screen.set_pixel(x + xc, y + yc, col.0, col.1, col.2);
                }
            }
            proof {
                if wrote {
                    let px = x as int + xc as int;
                    let py = y as int + yc as int;
                    lemma_pixel_index(wi, px, py);
                    assert(idx0 < wi * (h as int)) by (nonlinear_arith)
                        requires
                            idx0 == py * wi + px,
                            0 <= px < wi,
                            0 <= py < (h as int),
                    ;
                    assert(0 <= idx0 < before.len());
                }
            }
            assert(wrote ==> screen.pixels() == before.update(idx0, S::quantize(wv.0, wv.1, wv.2)));
            assert(!wrote ==> screen.pixels() == before);
            proof {
                let px = x as int + xc as int;
                let py = y as int + yc as int;
                if 0 < wi && 0 <= px < wi && 0 <= py {
                    lemma_pixel_index(wi, px, py);
                }
                assert forall|i: int| #![auto] 0 <= i < p0.len() implies screen.pixels()[i] == (
                    if i / wi < y as int + yc as int
                        || (i / wi == y as int + yc as int && i % wi < x as int + xc as int + 1) {
                        target[i]
                    } else {
                        p0[i]
                    }
                ) by {
                    lemma_index_decode(wi, h as int, i);
                    if i / wi == py && i % wi == px {
                        assert(i == py * wi + px);
                        assert(on_screen == (px < wi && py < h as int));
                        assert(target[i] == spec_char_pixel::<S>(p0, wi, x as int, y as int, c,
                            font@, font_color, bg_color, px, py));
                        assert(spec_glyph_on(font@, c, px - x as int, py - y as int) == on);
                        if on_screen {
                            match write {
                                Some(col) => {
                                    assert(screen.pixels()[i]
                                        == S::quantize(col.0, col.1, col.2));
                                },
                                None => {
                                    assert(screen.pixels()[i] == before[i]);
                                },
                            }
                        }
                    } else {
                        if wrote {
                            lemma_pixel_index(wi, px, py);
                            assert(i != idx0);
                            assert(screen.pixels()[i]
                                == before.update(idx0, S::quantize(wv.0, wv.1, wv.2))[i]);
                        }
                        assert(screen.pixels()[i] == before[i]);
                    }
                }
            }
            xc += 1;
        }
        proof {
            assert forall|i: int| #![auto] 0 <= i < p0.len() implies screen.pixels()[i] == (
                if i / wi < y as int + yc as int + 1 {
                    target[i]
                } else {
                    p0[i]
                }
            ) by {
                lemma_index_decode(wi, h as int, i);
                if i / wi == y as int + yc as int && i % wi >= x as int + 5 {
                    assert(target[i] == spec_char_pixel::<S>(p0, wi, x as int, y as int, c,
                        font@, font_color, bg_color, i % wi, i / wi));
                    assert(target[i] == p0[(i / wi) * wi + (i % wi)]);
                    assert(target[i] == p0[i]);
                }
            }
        }
        yc += 1;
    }
    proof {
        assert forall|i: int| 0 <= i < p0.len() implies screen.pixels()[i] == target[i] by {
            lemma_index_decode(wi, h as int, i);
            if i / wi >= y as int + yc as int {
                // Either the glyph rows ran out or the screen did: the
                // remaining rows lie outside the cell or outside the view.
                assert(yc == 8 || y as int + yc as int >= h as int);
                assert(i / wi >= y as int + 8);
                assert(target[i] == spec_char_pixel::<S>(p0, wi, x as int, y as int, c,
                    font@, font_color, bg_color, i % wi, i / wi));
                assert(target[i] == p0[(i / wi) * wi + (i % wi)]);
                assert(target[i] == p0[i]);
            }
        }
        assert(screen.pixels() =~= target);
    }
}


/// The line-feed cursor advance: nine pixels down, saturating at a value
/// past any possible screen height so the cursor arithmetic cannot wrap.
pub open spec fn spec_line_advance(y: int) -> int {
    if y + 9 >= 65536 {
        65536int
    } else {
        y + 9
    }
}

/// The whole surface after laying out a string: each character advances the
/// cursor six pixels, a line feed drops nine pixels and returns to the
/// starting column, and layout stops once the cursor passes the right edge.
pub open spec fn spec_string_render<S: ScreenTrait>(
    p: Seq<(u8, u8, u8)>,
    w: int,
    x: int,
    x0: int,
    y: int,
    chars: Seq<char>,
    font: Seq<u8>,
    fg: (u8, u8, u8),
    bg: Option<(u8, u8, u8)>,
) -> Seq<(u8, u8, u8)>
    decreases chars.len(),
{
    if chars.len() == 0 {
        p
    } else {
        let c = chars[0];
        if c == '\n' {
            spec_string_render::<S>(p, w, x0, x0, spec_line_advance(y), chars.skip(1), font, fg,
                bg)
        } else {
            let p2 = spec_char_render::<S>(p, w, x, y, c, font, fg, bg);
            if x + 6 >= w {
                p2
            } else {
                spec_string_render::<S>(p2, w, x + 6, x0, y, chars.skip(1), font, fg, bg)
            }
        }
    }
}

/// Text never reaches above its starting row nor left of its starting
/// column: every pixel there keeps its old color, however long the string
/// and wherever its line feeds fall.
pub proof fn lemma_string_render_untouched<S: ScreenTrait>(
    p: Seq<(u8, u8, u8)>,
    w: int,
    x: int,
    x0: int,
    y: int,
    chars: Seq<char>,
    font: Seq<u8>,
    fg: (u8, u8, u8),
    bg: Option<(u8, u8, u8)>,
    i: int,
)
    requires
        0 < w,
        0 <= i < p.len(),
        x0 <= x,
        y <= 65536,
        i % w < x0 || i / w < y,
    ensures
        spec_string_render::<S>(p, w, x, x0, y, chars, font, fg, bg)[i] == p[i],
    decreases chars.len(),
{
    if chars.len() == 0 {
    } else {
        let c = chars[0];
        if c == '\n' {
            lemma_string_render_untouched::<S>(p, w, x0, x0, spec_line_advance(y),
                chars.skip(1), font, fg, bg, i);
        } else {
            let p2 = spec_char_render::<S>(p, w, x, y, c, font, fg, bg);
            lemma_char_render_outside_cell::<S>(p, w, x, y, c, font, fg, bg, i);
            if x + 6 >= w {
            } else {
                lemma_string_render_untouched::<S>(p2, w, x + 6, x0, y, chars.skip(1), font,
                    fg, bg, i);
            }
        }
    }
}

/// A string without line feeds never writes outside its eight glyph rows:
/// every pixel above or below the band `[y, y + 8)` keeps its old color.
pub proof fn lemma_single_line_rows<S: ScreenTrait>(
    p: Seq<(u8, u8, u8)>,
    w: int,
    x: int,
    x0: int,
    y: int,
    chars: Seq<char>,
    font: Seq<u8>,
    fg: (u8, u8, u8),
    bg: Option<(u8, u8, u8)>,
    i: int,
)
    requires
        0 < w,
        0 <= i < p.len(),
        forall|j: int| 0 <= j < chars.len() ==> #[trigger] chars[j] != '\n',
        i / w < y || i / w >= y + 8,
    ensures
        spec_string_render::<S>(p, w, x, x0, y, chars, font, fg, bg)[i] == p[i],
    decreases chars.len(),
{
    if chars.len() == 0 {
    } else {
        let c = chars[0];
        let p2 = spec_char_render::<S>(p, w, x, y, c, font, fg, bg);
        lemma_char_render_outside_cell::<S>(p, w, x, y, c, font, fg, bg, i);
        if x + 6 >= w {
        } else {
            assert(forall|j: int| 0 <= j < chars.skip(1).len()
                ==> #[trigger] chars.skip(1)[j] != '\n');
            lemma_single_line_rows::<S>(p2, w, x + 6, x0, y, chars.skip(1), font, fg, bg, i);
        }
    }
}

/// Lays out a string of 5x8 glyphs starting at `(x, y)`: six pixels of
/// advance per character, a line feed returns to the starting column nine
/// pixels down, and layout stops when the cursor passes the right edge.
pub fn draw_string<S: ScreenTrait>(
    screen: &mut S,
    x: u16,
    y: u16,
    text: &str,
    font: &[u8],
    font_color: (u8, u8, u8),
    bg_color: Option<(u8, u8, u8)>,
)
    requires
        old(screen).wf(),
        forall|j: int| #![trigger text@[j]] 0 <= j < text@.len() && text@[j] != '\n'
            ==> (text@[j] as int) * 5 + 5 <= font@.len(),
    ensures
        final(screen).wf(),
        final(screen).width_spec() == old(screen).width_spec(),
        final(screen).height_spec() == old(screen).height_spec(),
        final(screen).pixels() == spec_string_render::<S>(
            old(screen).pixels(),
            old(screen).width_spec() as int,
            x as int,
            x as int,
            y as int,
            text@,
            font@,
            font_color,
            bg_color,
        ),
{
    let w = screen.get_width();
    let h = screen.get_height();
    let ghost p0 = screen.pixels();
    let ghost wi = w as int;
    let ghost final_target = spec_string_render::<S>(p0, wi, x as int, x as int, y as int,
        text@, font@, font_color, bg_color);
    proof {
        screen.lemma_wf_pixels();
    }

    proof {
        assert(text@.skip(0) =~= text@);
    }
    let n = text.unicode_len();
    let mut i: usize = 0;
    let mut xc: u32 = x as u32;
    let mut yc: u32 = y as u32;
    let mut broke = false;

    while i < n && !broke
        invariant
            screen.wf(),
            screen.width_spec() == w,
            screen.height_spec() == h,
            screen.pixels().len() == p0.len(),
            p0.len() == wi * (h as int),
            wi == w as int,
            n == text@.len(),
            i <= n,
            forall|j: int| #![trigger text@[j]] 0 <= j < text@.len() && text@[j] != '\n'
                ==> (text@[j] as int) * 5 + 5 <= font@.len(),
            yc <= 65536,
            broke || xc == x as u32 || xc < w as u32,
            final_target == spec_string_render::<S>(p0, wi, x as int, x as int, y as int,
                text@, font@, font_color, bg_color),
            if broke {
                screen.pixels() == final_target
            } else {
                spec_string_render::<S>(screen.pixels(), wi, xc as int, x as int, yc as int,
                    text@.skip(i as int), font@, font_color, bg_color) == final_target
            },
        decreases n - i,
    {
        let c = text.get_char(i);
        let ghost rem = text@.skip(i as int);
        proof {
            assert(rem.len() > 0);
            assert(rem[0] == text@[i as int]);
            assert(rem.skip(1) =~= text@.skip(i as int + 1));
        }
        if c == '\n' {
            xc = x as u32;
            if yc + 9 >= 65536 {
                yc = 65536;
            } else {
                yc = yc + 9;
            }
        } else {
            proof {
                assert((text@[i as int] as int) * 5 + 5 <= font@.len());
            }
            let ghost before = screen.pixels();
            if yc <= 0xffff {
                draw_char(screen, xc as u16, yc as u16, c, font, font_color, bg_color);
            } else {
                proof {
                    lemma_char_render_offscreen::<S>(before, wi, h as int, xc as int,
                        yc as int, c, font@, font_color, bg_color);
                }
            }
            assert(screen.pixels() == spec_char_render::<S>(before, wi, xc as int, yc as int,
                c, font@, font_color, bg_color));
            xc = xc + 6;
            if xc >= w as u32 {
                broke = true;
            }
        }
        i = i + 1;
    }
    proof {
        if !broke {
            assert(i == n);
            assert(text@.skip(n as int) =~= Seq::<char>::empty());
            assert(spec_string_render::<S>(screen.pixels(), wi, xc as int, x as int,
                yc as int, text@.skip(n as int), font@, font_color, bg_color)
                == screen.pixels());
        }
    }
}

/// Lays out the characters of `ch_array` from `start` on, with the same
/// cursor rules as string drawing.
pub fn draw_char_array<S: ScreenTrait>(
    screen: &mut S,
    x: u16,
    y: u16,
    ch_array: &[char],
    start: usize,
    font: &[u8],
    font_color: (u8, u8, u8),
    bg_color: Option<(u8, u8, u8)>,
)
    requires
        old(screen).wf(),
        start <= ch_array@.len(),
        forall|j: int| #![trigger ch_array@[j]] start <= j < ch_array@.len() && ch_array@[j] != '\n'
            ==> (ch_array@[j] as int) * 5 + 5 <= font@.len(),
    ensures
        final(screen).wf(),
        final(screen).width_spec() == old(screen).width_spec(),
        final(screen).height_spec() == old(screen).height_spec(),
        final(screen).pixels() == spec_string_render::<S>(
            old(screen).pixels(),
            old(screen).width_spec() as int,
            x as int,
            x as int,
            y as int,
            ch_array@.skip(start as int),
            font@,
            font_color,
            bg_color,
        ),
{
    let w = screen.get_width();
    let h = screen.get_height();
    let ghost p0 = screen.pixels();
    let ghost wi = w as int;
    let ghost chars0 = ch_array@.skip(start as int);
    let ghost final_target = spec_string_render::<S>(p0, wi, x as int, x as int, y as int,
        chars0, font@, font_color, bg_color);
    proof {
        screen.lemma_wf_pixels();
    }

    proof {
        assert(ch_array@.skip(start as int) == chars0);
    }
    let n = ch_array.len();
    let mut ch_index: usize = start;
    let mut xc: u32 = x as u32;
    let mut yc: u32 = y as u32;
    let mut broke = false;

    while ch_index < n && !broke
        invariant
            screen.wf(),
            screen.width_spec() == w,
            screen.height_spec() == h,
            screen.pixels().len() == p0.len(),
            p0.len() == wi * (h as int),
            wi == w as int,
            n == ch_array@.len(),
            start <= ch_index <= n,
            forall|j: int| #![trigger ch_array@[j]] start <= j < ch_array@.len() && ch_array@[j] != '\n'
                ==> (ch_array@[j] as int) * 5 + 5 <= font@.len(),
            yc <= 65536,
            broke || xc == x as u32 || xc < w as u32,
            chars0 == ch_array@.skip(start as int),
            final_target == spec_string_render::<S>(p0, wi, x as int, x as int, y as int,
                chars0, font@, font_color, bg_color),
            if broke {
                screen.pixels() == final_target
            } else {
                spec_string_render::<S>(screen.pixels(), wi, xc as int, x as int, yc as int,
                    ch_array@.skip(ch_index as int), font@, font_color, bg_color)
                    == final_target
            },
        decreases n - ch_index,
    {
        let c = ch_array[ch_index];
        let ghost rem = ch_array@.skip(ch_index as int);
        proof {
            assert(rem.len() > 0);
            assert(rem[0] == ch_array@[ch_index as int]);
            assert(rem.skip(1) =~= ch_array@.skip(ch_index as int + 1));
        }
        if c == '\n' {
            xc = x as u32;
            if yc + 9 >= 65536 {
                yc = 65536;
            } else {
                yc = yc + 9;
            }
        } else {
            proof {
                assert((ch_array@[ch_index as int] as int) * 5 + 5 <= font@.len());
            }
            let ghost before = screen.pixels();
            if yc <= 0xffff {
                draw_char(screen, xc as u16, yc as u16, c, font, font_color, bg_color);
            } else {
                proof {
                    lemma_char_render_offscreen::<S>(before, wi, h as int, xc as int,
                        yc as int, c, font@, font_color, bg_color);
                }
            }
            assert(screen.pixels() == spec_char_render::<S>(before, wi, xc as int, yc as int,
                c, font@, font_color, bg_color));
            xc = xc + 6;
            if xc >= w as u32 {
                broke = true;
            }
        }
        ch_index = ch_index + 1;
    }
    proof {
        if !broke {
            assert(ch_index == n);
            assert(ch_array@.skip(n as int) =~= Seq::<char>::empty());
        }
    }
}

} // verus!
