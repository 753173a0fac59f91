use simple_graphics::errors::Axis;
use simple_graphics::errors::DrawOutOfBoundsError;
use simple_graphics::errors::RasterError;
use simple_graphics::fonts::Font;
use simple_graphics::raster::draw_text;
use simple_graphics::raster::set_pixel;

const INK: u32 = 0x00112233;
const PAPER: u32 = 0x00FFFFFF;

/// A font with a hollow square for `A`, a diagonal for `B` and a single corner pixel for `C`.
fn font() -> Font {
    let text = "STARTFONT 2.1\nFONT -test-\nSIZE 8 75 75\nFONTBOUNDINGBOX 8 8 0 0\nCHARS 3\n\
                STARTCHAR u0041\nENCODING 65\nSWIDTH 500 0\nDWIDTH 8 0\nBBX 8 8 0 0\nBITMAP\n\
                FF\n81\n81\n81\n81\n81\n81\nFF\nENDCHAR\n\
                STARTCHAR u0042\nENCODING 66\nSWIDTH 500 0\nDWIDTH 8 0\nBBX 8 4 0 0\nBITMAP\n\
                80\n40\n20\n10\nENDCHAR\n\
                STARTCHAR u0043\nENCODING 67\nSWIDTH 500 0\nDWIDTH 8 0\nBBX 8 3 0 0\nBITMAP\n\
                00\n00\n01\nENDCHAR\n";
    Font::new(text).unwrap()
}

fn square_rows() -> [u8; 8] {
    [0xFF, 0x81, 0x81, 0x81, 0x81, 0x81, 0x81, 0xFF]
}

#[test]
fn set_pixel_writes_one_pixel() {
    let mut buffer = vec![PAPER; 6];
    assert_eq!(set_pixel(&mut buffer, 3, 2, 2, 1, INK), Ok(()));
    assert_eq!(buffer, vec![PAPER, PAPER, PAPER, PAPER, PAPER, INK]);
    assert_eq!(set_pixel(&mut buffer, 3, 2, 0, 0, INK), Ok(()));
    assert_eq!(set_pixel(&mut buffer, 3, 2, 1, 1, 7), Ok(()));
    assert_eq!(buffer, vec![INK, PAPER, PAPER, PAPER, 7, INK]);
}

#[test]
fn set_pixel_refuses_the_column_and_the_line_at_the_edge() {
    let mut buffer = vec![PAPER; 6];
    assert_eq!(set_pixel(&mut buffer, 3, 2, 3, 0, INK), Err(DrawOutOfBoundsError::X(3)));
    assert_eq!(set_pixel(&mut buffer, 3, 2, 0, 2, INK), Err(DrawOutOfBoundsError::Y(2)));
    assert_eq!(set_pixel(&mut buffer, 3, 2, 3, 2, INK), Err(DrawOutOfBoundsError::X(3)));
    assert_eq!(set_pixel(&mut buffer, 3, 2, 40, 1, INK), Err(DrawOutOfBoundsError::X(40)));
    assert_eq!(
        set_pixel(&mut buffer, 3, 2, 1, usize::MAX, INK),
        Err(DrawOutOfBoundsError::Y(usize::MAX))
    );
    assert_eq!(buffer, vec![PAPER; 6]);
    let mut nothing: Vec<u32> = Vec::new();
    assert_eq!(set_pixel(&mut nothing, 0, 0, 0, 0, INK), Err(DrawOutOfBoundsError::X(0)));
    assert_eq!(set_pixel(&mut nothing, 5, 0, 0, 0, INK), Err(DrawOutOfBoundsError::Y(0)));
}

#[test]
fn empty_text_changes_nothing() {
    let font = font();
    let mut buffer = vec![PAPER; 64];
    assert_eq!(draw_text(&mut buffer, 8, 8, &font, "", 0, 0, INK), Ok(()));
    assert_eq!(buffer, vec![PAPER; 64]);
    assert_eq!(draw_text(&mut buffer, 8, 8, &font, "", 100, 100, INK), Ok(()));
    assert_eq!(buffer, vec![PAPER; 64]);
    let mut nothing: Vec<u32> = Vec::new();
    assert_eq!(draw_text(&mut nothing, 0, 0, &font, "", 0, 0, INK), Ok(()));
}

#[test]
fn single_glyph_fills_its_cell() {
    let font = font();
    let mut buffer: Vec<u32> = (0..64).map(|i| 0x01000000 + i).collect();
    let before = buffer.clone();
    assert_eq!(draw_text(&mut buffer, 8, 8, &font, "A", 0, 0, INK), Ok(()));
    let rows = square_rows();
    for r in 0..8 {
        for i in 0..8 {
            let set = rows[r] & (0x80 >> i) != 0;
            let pixel = buffer[r * 8 + i];
            assert_eq!(pixel == INK, set);
            if !set {
                assert_eq!(pixel, before[r * 8 + i]);
            }
        }
    }
}

#[test]
fn round_trip_draws_a_hollow_square() {
    let text = "STARTFONT 2.1\nFONT square\nSIZE 8 75 75\nFONTBOUNDINGBOX 8 8 0 0\nCHARS 1\n\
                STARTCHAR u0041\nENCODING 65\nSWIDTH 500 0\nDWIDTH 8 0\nBBX 8 8 0 0\nBITMAP\n\
                FF\n81\n81\n81\n81\n81\n81\nFF\nENDCHAR\nENDFONT\n";
    let font = Font::new(text).unwrap();
    let mut buffer = vec![PAPER; 64];
    assert_eq!(draw_text(&mut buffer, 8, 8, &font, "A", 0, 0, INK), Ok(()));
    for y in 0..8 {
        for x in 0..8 {
            let border = x == 0 || x == 7 || y == 0 || y == 7;
            assert_eq!(buffer[y * 8 + x], if border { INK } else { PAPER });
        }
    }
}

#[test]
fn each_character_advances_by_eight_pixels() {
    let font = font();
    let mut buffer = vec![PAPER; 20 * 6];
    assert_eq!(draw_text(&mut buffer, 20, 6, &font, "BB", 3, 1, INK), Ok(()));
    for y in 0..6 {
        for x in 0..20 {
            let first = y >= 1 && y <= 4 && x == 3 + (y - 1);
            let second = y >= 1 && y <= 4 && x == 3 + 8 + (y - 1);
            assert_eq!(buffer[y * 20 + x], if first || second { INK } else { PAPER });
        }
    }
}

#[test]
fn unknown_glyph_stops_the_drawing_and_keeps_what_was_drawn() {
    let font = font();
    let mut buffer = vec![PAPER; 24 * 8];
    assert_eq!(
        draw_text(&mut buffer, 24, 8, &font, "A?A", 0, 0, INK),
        Err(RasterError::UnknownGlyph('?'))
    );
    let mut only_first = vec![PAPER; 24 * 8];
    assert_eq!(draw_text(&mut only_first, 24, 8, &font, "A", 0, 0, INK), Ok(()));
    assert_eq!(buffer, only_first);
    assert_eq!(buffer[0], INK);
    assert_eq!(buffer[16], PAPER);
}

#[test]
fn unknown_glyph_at_the_start_draws_nothing() {
    let font = font();
    let mut buffer = vec![PAPER; 64];
    assert_eq!(
        draw_text(&mut buffer, 8, 8, &font, "\nA", 0, 0, INK),
        Err(RasterError::UnknownGlyph('\n'))
    );
    assert_eq!(buffer, vec![PAPER; 64]);
    assert_eq!(
        draw_text(&mut buffer, 8, 8, &font, "\u{1F600}", 0, 0, INK),
        Err(RasterError::UnknownGlyph('\u{1F600}'))
    );
}

#[test]
fn a_pixel_in_the_column_right_of_the_buffer_is_out_of_bounds() {
    let font = font();
    let mut buffer = vec![PAPER; 64];
    assert_eq!(
        draw_text(&mut buffer, 8, 8, &font, "A", 1, 0, INK),
        Err(RasterError::OutOfBounds { axis: Axis::X, value: 8 })
    );
    let mut expected = vec![PAPER; 64];
    for x in 1..8 {
        expected[x] = INK;
    }
    assert_eq!(buffer, expected);
}

#[test]
fn a_pixel_on_the_line_below_the_buffer_is_out_of_bounds() {
    let font = font();
    let mut buffer = vec![PAPER; 64];
    assert_eq!(
        draw_text(&mut buffer, 8, 8, &font, "A", 0, 1, INK),
        Err(RasterError::OutOfBounds { axis: Axis::Y, value: 8 })
    );
    let mut expected = vec![PAPER; 64];
    let rows = square_rows();
    for r in 0..7 {
        for i in 0..8 {
            if rows[r] & (0x80 >> i) != 0 {
                expected[(r + 1) * 8 + i] = INK;
            }
        }
    }
    assert_eq!(buffer, expected);
}

#[test]
fn the_last_column_and_the_last_line_are_inside() {
    let font = font();
    let mut buffer = vec![PAPER; 9 * 9];
    assert_eq!(draw_text(&mut buffer, 9, 9, &font, "A", 1, 1, INK), Ok(()));
    assert_eq!(buffer[8 * 9 + 8], INK);
    assert_eq!(buffer[0], PAPER);
}

#[test]
fn only_set_bits_must_lie_inside() {
    let font = font();
    let mut buffer = vec![PAPER; 4 * 4];
    assert_eq!(draw_text(&mut buffer, 4, 4, &font, "B", 0, 0, INK), Ok(()));
    for y in 0..4 {
        for x in 0..4 {
            assert_eq!(buffer[y * 4 + x], if x == y { INK } else { PAPER });
        }
    }
    let mut narrow = vec![PAPER; 3 * 4];
    assert_eq!(
        draw_text(&mut narrow, 3, 4, &font, "B", 0, 0, INK),
        Err(RasterError::OutOfBounds { axis: Axis::X, value: 3 })
    );
    assert_eq!(narrow[0], INK);
    assert_eq!(narrow[3 + 1], INK);
    assert_eq!(narrow[2 * 3 + 2], INK);
    assert_eq!(narrow.iter().filter(|pixel| **pixel == INK).count(), 3);
}

#[test]
fn the_column_is_reported_before_the_line() {
    let font = font();
    let mut buffer = vec![PAPER; 4];
    assert_eq!(
        draw_text(&mut buffer, 2, 2, &font, "C", 0, 0, INK),
        Err(RasterError::OutOfBounds { axis: Axis::X, value: 7 })
    );
    assert_eq!(buffer, vec![PAPER; 4]);
    let mut wide = vec![PAPER; 16];
    assert_eq!(
        draw_text(&mut wide, 8, 2, &font, "C", 0, 0, INK),
        Err(RasterError::OutOfBounds { axis: Axis::Y, value: 2 })
    );
}

#[test]
fn the_first_fault_decides_the_error() {
    let font = font();
    let mut buffer = vec![PAPER; 8 * 8];
    assert_eq!(
        draw_text(&mut buffer, 8, 8, &font, "AA?", 0, 0, INK),
        Err(RasterError::OutOfBounds { axis: Axis::X, value: 8 })
    );
    let mut other = vec![PAPER; 8 * 8];
    assert_eq!(
        draw_text(&mut other, 8, 8, &font, "A?A", 0, 0, INK),
        Err(RasterError::UnknownGlyph('?'))
    );
    assert_eq!(buffer, other);
}

#[test]
fn coordinates_beyond_the_largest_number_are_reported_as_the_largest() {
    let font = font();
    let mut buffer = vec![PAPER; 64];
    assert_eq!(
        draw_text(&mut buffer, 8, 8, &font, "A", usize::MAX, 0, INK),
        Err(RasterError::OutOfBounds { axis: Axis::X, value: usize::MAX })
    );
    assert_eq!(
        draw_text(&mut buffer, 8, 8, &font, "A", usize::MAX - 3, 0, INK),
        Err(RasterError::OutOfBounds { axis: Axis::X, value: usize::MAX - 3 })
    );
    assert_eq!(
        draw_text(&mut buffer, 8, 8, &font, "CA", usize::MAX - 3, 0, INK),
        Err(RasterError::OutOfBounds { axis: Axis::X, value: usize::MAX })
    );
    assert_eq!(
        draw_text(&mut buffer, 8, 8, &font, "C", 0, usize::MAX - 1, INK),
        Err(RasterError::OutOfBounds { axis: Axis::Y, value: usize::MAX })
    );
    assert_eq!(
        draw_text(&mut buffer, 8, 8, &font, "B", 0, usize::MAX, INK),
        Err(RasterError::OutOfBounds { axis: Axis::Y, value: usize::MAX })
    );
    assert_eq!(buffer, vec![PAPER; 64]);
}
