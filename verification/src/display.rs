//! The display: a buffer of pixels with a background colour and a font, to draw on.

use crate::errors::DrawOutOfBoundsError;
use crate::errors::RasterError;
use crate::fonts::Font;
use crate::fonts::FontView;
use crate::fonts::Glyph;
use crate::raster::draw_glyphs;
use crate::raster::pixel_check;
use crate::raster::set_pixel;
use crate::raster::Layout;
use vstd::prelude::*;

verus! {

/// A pixel value: `0x00RRGGBB`.
pub type Color = u32;

pub const BLACK: Color = 0x00000000;

pub const WHITE: Color = 0x00FFFFFF;

/// What `rgb` packs: red in bits 16 to 23, green in bits 8 to 15, blue in bits 0 to 7.
pub open spec fn rgb_spec(r: u8, g: u8, b: u8) -> u32 {
    ((r as u32) << 16) | ((g as u32) << 8) | (b as u32)
}

/// Packs three channels into one pixel value.
pub fn rgb(r: u8, g: u8, b: u8) -> (color: Color)
    ensures
        color == rgb_spec(r, g, b),
        color == r as int * 65536 + g as int * 256 + b as int,
{
    let (r, g, b) = (r as u32, g as u32, b as u32);
    assert(((r << 16) | (g << 8) | b) == r * 65536 + g * 256 + b) by (bit_vector)
        requires
            r < 256,
            g < 256,
            b < 256,
    ;
    (r << 16) | (g << 8) | b
}

/// What a `Display` holds, as plain values.
pub struct Screen {
    /// The pixels, line after line from the top, each line from the left.
    pub pixels: Seq<Color>,
    pub width: nat,
    pub height: nat,
    pub background: Color,
    pub font: Option<FontView>,
}

impl Screen {
    /// The glyphs that text is drawn with: those of the font, and none where no font is set.
    pub open spec fn glyphs(self) -> Map<int, Glyph> {
        match self.font {
            Some(font) => font.glyphs,
            None => Map::empty(),
        }
    }

    /// A text as it would be drawn on this screen.
    pub open spec fn layout(self, text: Seq<char>, start_x: nat, start_y: nat) -> Layout {
        Layout {
            width: self.width,
            height: self.height,
            glyphs: self.glyphs(),
            text,
            start_x,
            start_y,
        }
    }
}

/// A buffer of `width` by `height` pixels, with the colour that clearing gives it and the
/// font that text is drawn with.
#[derive(Debug)]
pub struct Display {
    buffer: Vec<Color>,
    width: usize,
    height: usize,
    background: Color,
    font: Option<Font>,
}

impl View for Display {
    type V = Screen;

    closed spec fn view(&self) -> Screen {
        Screen {
            pixels: self.buffer@,
            width: self.width as nat,
            height: self.height as nat,
            background: self.background,
            font: match self.font {
                Some(font) => Some(font@),
                None => None,
            },
        }
    }
}

impl Display {
    /// What every display keeps to: there is one pixel for each column of each line.
    pub closed spec fn well_formed(&self) -> bool {
        self.buffer@.len() == self.width * self.height
    }

    /// A display of the given size, all black, with a black background and no font.
    pub fn new(width: usize, height: usize) -> (display: Display)
        requires
            width * height <= usize::MAX,
        ensures
            display.well_formed(),
            display@ == (Screen {
                pixels: Seq::new((width * height) as nat, |i: int| BLACK),
                width: width as nat,
                height: height as nat,
                background: BLACK,
                font: None,
            }),
    {
        let buffer: Vec<Color> = vec![0; width * height];
        assert(buffer@ =~= Seq::new((width * height) as nat, |i: int| BLACK));
        Display { buffer, width, height, background: BLACK, font: None }
    }

    /// The pixels, line after line.
    pub fn buffer(&self) -> (pixels: &[Color])
        requires
            self.well_formed(),
        ensures
            pixels@ == self@.pixels,
            pixels@.len() == self@.width * self@.height,
    {
        self.buffer.as_slice()
    }

    /// Gives the pixel in column `x` of line `y` the colour `color`.
    pub fn draw_pixel(&mut self, x: usize, y: usize, color: Color) -> (result: Result<
        (),
        DrawOutOfBoundsError,
    >)
        requires
            old(self).well_formed(),
        ensures
            final(self).well_formed(),
            result == pixel_check(old(self)@.width as usize, old(self)@.height as usize, x, y),
            final(self)@ == match result {
                Ok(_) => Screen {
                    pixels: old(self)@.pixels.update(y * old(self)@.width + x, color),
                    ..old(self)@
                },
                Err(_) => old(self)@,
            },
    {
        set_pixel(&mut self.buffer, self.width, self.height, x, y, color)
    }

    /// Draws `text` in black with the font of the display, the first character at column
    /// `start_x` of line `start_y`. With no font set, no character has a glyph.
    pub fn render_text(&mut self, text: &str, start_x: usize, start_y: usize) -> (result: Result<
        (),
        RasterError,
    >)
        requires
            old(self).well_formed(),
        ensures
            final(self).well_formed(),
            result == old(self)@.layout(text@, start_x as nat, start_y as nat).outcome(),
            final(self)@ == (Screen {
                pixels: old(self)@.layout(text@, start_x as nat, start_y as nat).pixels_after(
                    old(self)@.pixels,
                    BLACK,
                ),
                ..old(self)@
            }),
    {
        draw_glyphs(
            &mut self.buffer,
            self.width,
            self.height,
            self.font.as_ref(),
            text,
            start_x,
            start_y,
            BLACK,
        )
    }

    /// Gives every pixel the background colour.
    pub fn clear(&mut self)
        requires
            old(self).well_formed(),
        ensures
            final(self).well_formed(),
            final(self)@ == (Screen {
                pixels: Seq::new(old(self)@.pixels.len(), |i: int| old(self)@.background),
                ..old(self)@
            }),
    {
        let mut i: usize = 0;
        while i < self.buffer.len()
            invariant
                0 <= i <= self.buffer.len(),
                self.buffer@.len() == old(self).buffer@.len(),
                self.width == old(self).width,
                self.height == old(self).height,
                self.background == old(self).background,
                self.font == old(self).font,
                forall|j: int| 0 <= j < i ==> self.buffer@[j] == self.background,
            decreases self.buffer.len() - i,
        {
            let background = self.background;
            self.buffer.set(i, background);
            i = i + 1;
        }
        assert(self.buffer@ =~= Seq::new(old(self)@.pixels.len(), |i: int| old(self)@.background));
    }

    /// Replaces the pixels by those of `buff`, which holds as many.
    pub fn set_buffer(&mut self, buff: Vec<Color>)
        requires
            old(self).well_formed(),
            buff@.len() == old(self)@.pixels.len(),
        ensures
            final(self).well_formed(),
            final(self)@ == (Screen { pixels: buff@, ..old(self)@ }),
    {
        self.buffer = buff;
    }

    /// Sets the colour that `clear` gives every pixel.
    pub fn set_background(&mut self, bg: Color)
        requires
            old(self).well_formed(),
        ensures
            final(self).well_formed(),
            final(self)@ == (Screen { background: bg, ..old(self)@ }),
    {
        self.background = bg;
    }

    /// Sets the font that text is drawn with.
    pub fn set_font(&mut self, font: Font)
        requires
            old(self).well_formed(),
        ensures
            final(self).well_formed(),
            final(self)@ == (Screen { font: Some(font@), ..old(self)@ }),
    {
        self.font = Some(font);
    }

    /// The width and the height, in pixels.
    pub fn size(&self) -> (size: (usize, usize))
        requires
            self.well_formed(),
        ensures
            size.0 == self@.width,
            size.1 == self@.height,
            self@.pixels.len() == size.0 * size.1,
    {
        (self.width, self.height)
    }
}

} // verus!
