use ferret_rs::buffer_screen::BufferScreen;
use ferret_rs::st7735_frame::St7735Frame;
use ferret_rs::screen_trait::ScreenTrait;
use ferret_rs::text::draw_char;
use ferret_rs::text::draw_char_array;
use ferret_rs::text::draw_string;

const FG: (u8, u8, u8) = (200, 10, 10);
const BG: (u8, u8, u8) = (1, 2, 3);

/// A font whose glyph for character code 1 lights one pixel per column:
/// rows 0, 1, 2, 3 and 7.
fn test_font() -> Vec<u8> {
    let mut font = vec![0u8; 10];
    font[5] = 0b0000_0001;
    font[6] = 0b0000_0010;
    font[7] = 0b0000_0100;
    font[8] = 0b0000_1000;
    font[9] = 0b1000_0000;
    font
}

fn screen(w: u16, h: u16) -> BufferScreen {
    BufferScreen::new(w, h, vec![0u8; w as usize * h as usize * 4])
}

fn glyph_pixels() -> Vec<(u16, u16)> {
    vec![(0, 0), (1, 1), (2, 2), (3, 3), (4, 7)]
}

#[test]
fn draw_char_transparent_background() {
    let mut s = screen(8, 8);
    let font = test_font();
    draw_char(&mut s, 0, 0, '\u{1}', &font, FG, None);
    for y in 0..8u16 {
        for x in 0..8u16 {
            let expected = if glyph_pixels().contains(&(x, y)) { FG } else { (0, 0, 0) };
            assert_eq!(s.get_pixel(x, y), expected, "pixel {:?}", (x, y));
        }
    }
}

#[test]
fn draw_char_solid_background() {
    let mut s = screen(8, 8);
    let font = test_font();
    draw_char(&mut s, 1, 0, '\u{1}', &font, FG, Some(BG));
    for y in 0..8u16 {
        for x in 0..8u16 {
            let expected = if glyph_pixels().contains(&(x.wrapping_sub(1), y)) {
                FG
            } else if (1..6).contains(&x) {
                BG
            } else {
                (0, 0, 0)
            };
            assert_eq!(s.get_pixel(x, y), expected, "pixel {:?}", (x, y));
        }
    }
}

#[test]
fn draw_char_clips_at_right_edge() {
    let mut s = screen(8, 8);
    let font = test_font();
    draw_char(&mut s, 6, 0, '\u{1}', &font, FG, Some(BG));
    // Only columns 0 and 1 of the glyph fall on the screen.
    assert_eq!(s.get_pixel(6, 0), FG);
    assert_eq!(s.get_pixel(7, 1), FG);
    assert_eq!(s.get_pixel(7, 0), BG);
    // Nothing left of the glyph is touched.
    for y in 0..8u16 {
        for x in 0..6u16 {
            assert_eq!(s.get_pixel(x, y), (0, 0, 0));
        }
    }
}

#[test]
fn draw_char_clips_at_bottom_edge() {
    let mut s = screen(8, 4);
    let font = test_font();
    draw_char(&mut s, 0, 0, '\u{1}', &font, FG, Some(BG));
    assert_eq!(s.get_pixel(0, 0), FG);
    assert_eq!(s.get_pixel(3, 3), FG);
    // The row-7 pixel of the glyph lies below the screen and is dropped.
    assert_eq!(s.get_pixel(1, 0), BG);
}

#[test]
fn draw_string_advances_six_pixels() {
    let mut s = screen(16, 8);
    let font = test_font();
    draw_string(&mut s, 0, 0, "\u{1}\u{1}", &font, FG, None);
    for (x, y) in glyph_pixels() {
        assert_eq!(s.get_pixel(x, y), FG);
        assert_eq!(s.get_pixel(x + 6, y), FG);
    }
}

#[test]
fn draw_string_newline_returns_to_column() {
    let mut s = screen(16, 20);
    let font = test_font();
    draw_string(&mut s, 2, 0, "\u{1}\n\u{1}", &font, FG, None);
    for (x, y) in glyph_pixels() {
        assert_eq!(s.get_pixel(x + 2, y), FG);
        assert_eq!(s.get_pixel(x + 2, y + 9), FG);
    }
    // Nothing lands left of the starting column.
    for y in 0..20u16 {
        for x in 0..2u16 {
            assert_eq!(s.get_pixel(x, y), (0, 0, 0));
        }
    }
}

#[test]
fn draw_string_stops_past_right_edge() {
    let mut s = screen(8, 8);
    let font = test_font();
    // The second glyph is clipped and the third is never drawn.
    draw_string(&mut s, 0, 0, "\u{1}\u{1}\u{1}", &font, FG, Some(BG));
    assert_eq!(s.get_pixel(6, 0), FG);
    assert_eq!(s.get_pixel(7, 0), BG);
}

#[test]
fn draw_char_array_honors_start() {
    let mut s = screen(8, 8);
    let font = test_font();
    let chars = ['\u{1}', '\u{1}'];
    draw_char_array(&mut s, 0, 0, &chars, 1, &font, FG, None);
    // Exactly one glyph drawn, at the starting position.
    for (x, y) in glyph_pixels() {
        assert_eq!(s.get_pixel(x, y), FG);
    }
    assert_eq!(s.get_pixel(6, 0), (0, 0, 0));
}

#[test]
fn rect_from_tuple() {
    let r = ferret_rs::rect::Rect::from((9u32, 8u32, 7u32, 6u32));
    assert_eq!(r.left, 9);
    assert_eq!(r.top, 8);
    assert_eq!(r.right, 7);
    assert_eq!(r.bottom, 6);
}

#[test]
fn draw_char_on_rgb565_frame() {
    let mut f = St7735Frame::new(8, 8, vec![0u8; 8 * 8 * 2]);
    let font = test_font();
    draw_char(&mut f, 0, 0, '\u{1}', &font, (255, 0, 0), None);
    // The glyph pixel at (0, 0) is stored quantized to RGB565 red.
    assert_eq!(f.byte_at(0), 0xf8);
    assert_eq!(f.byte_at(1), 0x00);
    // A pixel the glyph does not cover keeps its bytes.
    assert_eq!(f.byte_at(2), 0x00);
    assert_eq!(f.byte_at(3), 0x00);
}
