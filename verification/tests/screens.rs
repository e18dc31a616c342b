use ferret_rs::buffer_screen::BufferScreen;
use ferret_rs::screen_trait::ScreenTrait;
use ferret_rs::st7735_frame::St7735Frame;

fn rgba_screen(w: u16, h: u16) -> BufferScreen {
    BufferScreen::new(w, h, vec![0u8; w as usize * h as usize * 4])
}

#[test]
fn buffer_screen_set_and_get() {
    let mut s = rgba_screen(4, 3);
    assert_eq!(s.get_width(), 4);
    assert_eq!(s.get_height(), 3);
    s.set_pixel(2, 1, 10, 20, 30);
    assert_eq!(s.get_pixel(2, 1), (10, 20, 30));
    assert_eq!(s.get_pixel(0, 0), (0, 0, 0));
}

#[test]
fn buffer_screen_clear_fills_everything() {
    let mut s = rgba_screen(3, 2);
    s.set_pixel(1, 1, 9, 9, 9);
    s.clear(7, 8, 9);
    for y in 0..2 {
        for x in 0..3 {
            assert_eq!(s.get_pixel(x, y), (7, 8, 9));
        }
    }
}

#[test]
fn buffer_screen_clear_is_idempotent() {
    // Clearing twice is observationally the same as clearing once.
    let mut once = rgba_screen(5, 4);
    once.set_pixel(3, 3, 1, 2, 3);
    once.clear(40, 50, 60);

    let mut twice = rgba_screen(5, 4);
    twice.clear(40, 50, 60);
    twice.clear(40, 50, 60);

    assert_eq!(once.into_buffer(), twice.into_buffer());
}

#[test]
fn buffer_screen_update_succeeds() {
    let mut s = rgba_screen(2, 2);
    assert_eq!(s.update_screen(), Ok(()));
}

#[test]
fn buffer_screen_rgba_layout() {
    let mut s = rgba_screen(2, 1);
    s.set_pixel(1, 0, 1, 2, 3);
    let bytes = s.into_buffer();
    assert_eq!(bytes, vec![0, 0, 0, 0, 1, 2, 3, 255]);
}

fn frame(w: u16, h: u16) -> St7735Frame {
    St7735Frame::new(w, h, vec![0u8; w as usize * h as usize * 2])
}

#[test]
fn st7735_packs_rgb565() {
    let mut f = frame(2, 2);
    f.set_pixel(0, 0, 255, 255, 255);
    // 31 << 11 | 63 << 5 | 31 == 0xffff, stored big endian.
    assert_eq!(f.byte_at(0), 0xff);
    assert_eq!(f.byte_at(1), 0xff);
    f.set_pixel(1, 0, 255, 0, 0);
    assert_eq!(f.byte_at(2), 0xf8);
    assert_eq!(f.byte_at(3), 0x00);
    f.set_pixel(0, 1, 0, 255, 0);
    assert_eq!(f.byte_at(4), 0x07);
    assert_eq!(f.byte_at(5), 0xe0);
    f.set_pixel(1, 1, 0, 0, 255);
    assert_eq!(f.byte_at(6), 0x00);
    assert_eq!(f.byte_at(7), 0x1f);
}

#[test]
fn st7735_quantizes_by_truncation() {
    let mut f = frame(1, 1);
    // 128 * 31 / 255 == 15 and 128 * 63 / 255 == 31.
    f.set_pixel(0, 0, 128, 128, 128);
    let color = ((15u16) << 11) | ((31u16) << 5) | 15u16;
    assert_eq!(f.byte_at(0), (color >> 8) as u8);
    assert_eq!(f.byte_at(1), (color & 0xff) as u8);
}

#[test]
fn st7735_clear_fills_all_slots() {
    let mut f = frame(3, 2);
    f.clear(255, 0, 0);
    for i in 0..6 {
        assert_eq!(f.byte_at(2 * i), 0xf8);
        assert_eq!(f.byte_at(2 * i + 1), 0x00);
    }
}

#[test]
fn present_without_interlace_commits_all_rows() {
    let mut f = frame(2, 5);
    let rows = f.present_rows();
    assert_eq!(rows, vec![0, 1, 2, 3, 4]);
    // Parity does not move while interlacing is off.
    let rows = f.present_rows();
    assert_eq!(rows, vec![0, 1, 2, 3, 4]);
}

#[test]
fn interlaced_presents_partition_the_frame() {
    let mut f = frame(2, 7);
    f.set_interlace(true);
    let first = f.present_rows();
    let second = f.present_rows();
    // Parity starts odd, so the first interlaced present commits rows
    // 1, 3, 5 and the second the even rows.
    assert_eq!(first, vec![1, 3, 5]);
    assert_eq!(second, vec![0, 2, 4, 6]);
    // Two successive presents commit disjoint row sets covering the frame.
    let mut all: Vec<u16> = first.iter().chain(second.iter()).copied().collect();
    all.sort();
    assert_eq!(all, vec![0, 1, 2, 3, 4, 5, 6]);
    // The third present starts the cycle again.
    let third = f.present_rows();
    assert_eq!(third, vec![1, 3, 5]);
}

#[test]
fn interlace_toggle_keeps_bytes() {
    let mut f = frame(2, 2);
    f.set_pixel(0, 0, 255, 255, 255);
    f.set_interlace(true);
    let _ = f.present_rows();
    assert_eq!(f.byte_at(0), 0xff);
    assert_eq!(f.byte_at(1), 0xff);
}

#[test]
fn st7735_update_screen_reports_ok() {
    let mut f = frame(2, 2);
    f.set_interlace(true);
    assert_eq!(f.update_screen(), Ok(()));
}
