use simple_graphics::display::rgb;
use simple_graphics::display::Display;
use simple_graphics::display::BLACK;
use simple_graphics::display::WHITE;
use simple_graphics::errors::Axis;
use simple_graphics::errors::DrawOutOfBoundsError;
use simple_graphics::errors::RasterError;
use simple_graphics::fonts::Font;

fn font() -> Font {
    let text = "STARTFONT 2.1\nFONT -test-\nSIZE 8 75 75\nFONTBOUNDINGBOX 8 8 0 0\nCHARS 1\n\
                STARTCHAR u0041\nENCODING 65\nSWIDTH 500 0\nDWIDTH 8 0\nBBX 8 8 0 0\nBITMAP\n\
                FF\n81\n81\n81\n81\n81\n81\nFF\nENDCHAR\n";
    Font::new(text).unwrap()
}

#[test]
fn rgb_packs_the_channels() {
    assert_eq!(rgb(0x12, 0x34, 0x56), 0x00123456);
    assert_eq!(rgb(0, 0, 0), BLACK);
    assert_eq!(rgb(255, 255, 255), WHITE);
    assert_eq!(rgb(255, 0, 0), 0x00FF0000);
    assert_eq!(rgb(0, 255, 0), 0x0000FF00);
    assert_eq!(rgb(0, 0, 1), 1);
}

#[test]
fn new_display_is_black() {
    let display = Display::new(4, 3);
    assert_eq!(display.size(), (4, 3));
    assert_eq!(display.buffer(), &[BLACK; 12][..]);
    let empty = Display::new(0, 7);
    assert_eq!(empty.size(), (0, 7));
    assert_eq!(empty.buffer().len(), 0);
}

#[test]
fn draw_pixel_writes_line_after_line() {
    let mut display = Display::new(3, 2);
    assert_eq!(display.draw_pixel(2, 1, WHITE), Ok(()));
    assert_eq!(display.draw_pixel(1, 0, 0x00ABCDEF), Ok(()));
    assert_eq!(display.buffer(), &[BLACK, 0x00ABCDEF, BLACK, BLACK, BLACK, WHITE][..]);
}

#[test]
fn draw_pixel_refuses_the_edge() {
    let mut display = Display::new(3, 2);
    assert_eq!(display.draw_pixel(3, 0, WHITE), Err(DrawOutOfBoundsError::X(3)));
    assert_eq!(display.draw_pixel(0, 2, WHITE), Err(DrawOutOfBoundsError::Y(2)));
    assert_eq!(display.draw_pixel(3, 2, WHITE), Err(DrawOutOfBoundsError::X(3)));
    assert_eq!(display.draw_pixel(2, 1, WHITE), Ok(()));
    assert_eq!(display.buffer(), &[BLACK, BLACK, BLACK, BLACK, BLACK, WHITE][..]);
}

#[test]
fn clear_fills_with_the_background() {
    let mut display = Display::new(2, 2);
    display.set_background(WHITE);
    assert_eq!(display.buffer(), &[BLACK; 4][..]);
    display.clear();
    assert_eq!(display.buffer(), &[WHITE; 4][..]);
    assert_eq!(display.draw_pixel(0, 1, 5), Ok(()));
    display.set_background(9);
    display.clear();
    assert_eq!(display.buffer(), &[9; 4][..]);
    assert_eq!(display.size(), (2, 2));
}

#[test]
fn set_buffer_replaces_the_pixels() {
    let mut display = Display::new(2, 2);
    display.set_buffer(vec![1, 2, 3, 4]);
    assert_eq!(display.buffer(), &[1, 2, 3, 4][..]);
    assert_eq!(display.draw_pixel(1, 1, 7), Ok(()));
    assert_eq!(display.buffer(), &[1, 2, 3, 7][..]);
}

#[test]
fn render_text_draws_in_black() {
    let mut display = Display::new(8, 8);
    display.set_background(WHITE);
    display.clear();
    display.set_font(font());
    assert_eq!(display.render_text("A", 0, 0), Ok(()));
    for y in 0..8 {
        for x in 0..8 {
            let border = x == 0 || x == 7 || y == 0 || y == 7;
            assert_eq!(display.buffer()[y * 8 + x], if border { BLACK } else { WHITE });
        }
    }
}

#[test]
fn render_text_reports_what_stops_it() {
    let mut display = Display::new(8, 8);
    display.set_background(WHITE);
    display.clear();
    display.set_font(font());
    assert_eq!(display.render_text("", 50, 50), Ok(()));
    assert_eq!(display.render_text("B", 0, 0), Err(RasterError::UnknownGlyph('B')));
    assert_eq!(display.buffer(), &[WHITE; 64][..]);
    assert_eq!(
        display.render_text("A", 1, 0),
        Err(RasterError::OutOfBounds { axis: Axis::X, value: 8 })
    );
    assert_eq!(
        display.render_text("A", 0, 1),
        Err(RasterError::OutOfBounds { axis: Axis::Y, value: 8 })
    );
}

#[test]
fn without_a_font_no_character_has_a_glyph() {
    let mut display = Display::new(8, 8);
    assert_eq!(display.render_text("", 0, 0), Ok(()));
    assert_eq!(display.render_text("A", 0, 0), Err(RasterError::UnknownGlyph('A')));
    assert_eq!(display.render_text("xA", 0, 0), Err(RasterError::UnknownGlyph('x')));
    assert_eq!(display.buffer(), &[BLACK; 64][..]);
}

#[test]
fn a_new_font_replaces_the_old_one() {
    let mut display = Display::new(8, 8);
    display.set_font(font());
    let other = "STARTFONT 2.1\nFONT other\nSIZE 8 75 75\nFONTBOUNDINGBOX 8 8 0 0\nCHARS 1\n\
                 STARTCHAR u0042\nENCODING 66\nSWIDTH 500 0\nDWIDTH 8 0\nBBX 8 1 0 0\nBITMAP\n\
                 80\nENDCHAR\n";
    display.set_font(Font::new(other).unwrap());
    assert_eq!(display.render_text("A", 0, 0), Err(RasterError::UnknownGlyph('A')));
    display.set_background(WHITE);
    display.clear();
    assert_eq!(display.render_text("B", 7, 7), Ok(()));
    assert_eq!(display.buffer()[7 * 8 + 7], BLACK);
    assert_eq!(display.buffer()[7 * 8 + 6], WHITE);
    assert_eq!(display.buffer().iter().filter(|pixel| **pixel == BLACK).count(), 1);
}
