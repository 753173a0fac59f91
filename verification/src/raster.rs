//! Drawing text: the glyphs of a font, one cell of eight pixels after the other, into a
//! buffer of pixels.

use crate::display::Color;
use crate::errors::Axis;
use crate::errors::DrawOutOfBoundsError;
use crate::errors::RasterError;
use crate::fonts::Font;
use crate::fonts::Glyph;
use crate::scan::chars_of;
use vstd::prelude::*;

verus! {

/// The width of the cell that each character of a text takes, in pixels.
pub const CELL_WIDTH: usize = 8;

/// Whether bit `b` of `row` is set, the most significant bit being bit 0.
pub open spec fn bit_is_set(row: u8, b: u8) -> bool {
    row & (0x80u8 >> b) != 0
}

/// One bit of one row of the glyph of one character of a text: character `k`, row `r` from the
/// top, bit `b` from the left.
pub struct Stroke {
    pub k: int,
    pub r: int,
    pub b: int,
}

impl Stroke {
    /// The order in which a text is drawn: character by character, row by row within a
    /// glyph, and from left to right within a row.
    pub open spec fn before(self, other: Stroke) -> bool {
        self.k < other.k || (self.k == other.k && (self.r < other.r || (self.r == other.r
            && self.b < other.b)))
    }
}

/// A coordinate as the error reports it: itself, or the largest `usize` where it is beyond.
pub open spec fn reported(coordinate: int) -> usize {
    if coordinate > usize::MAX {
        usize::MAX
    } else {
        coordinate as usize
    }
}

/// A text to draw: the size of the buffer, the glyphs at hand, the characters, and the pixel
/// at which the first cell has its top left corner.
pub struct Layout {
    pub width: nat,
    pub height: nat,
    /// The glyphs by the code point of the character that each renders.
    pub glyphs: Map<int, Glyph>,
    pub text: Seq<char>,
    pub start_x: nat,
    pub start_y: nat,
}

impl Layout {
    /// The rows of the glyph of character `k`.
    pub open spec fn rows(self, k: int) -> Seq<u8> {
        self.glyphs[self.text[k] as int].bitmap_rows
    }

    /// Whether `s` is a set bit of a glyph of the text: a pixel to draw.
    pub open spec fn inked(self, s: Stroke) -> bool {
        &&& 0 <= s.k < self.text.len()
        &&& self.glyphs.contains_key(self.text[s.k] as int)
        &&& 0 <= s.r < self.rows(s.k).len()
        &&& 0 <= s.b < 8
        &&& bit_is_set(self.rows(s.k)[s.r], s.b as u8)
    }

    /// The column of the pixel of `s`.
    pub open spec fn x(self, s: Stroke) -> int {
        self.start_x + CELL_WIDTH * s.k + s.b
    }

    /// The line of the pixel of `s`.
    pub open spec fn y(self, s: Stroke) -> int {
        self.start_y + s.r
    }

    /// Whether the pixel of `s` lies in the buffer.
    pub open spec fn inside(self, s: Stroke) -> bool {
        self.x(s) < self.width && self.y(s) < self.height
    }

    /// Whether `s` is a pixel to draw, and is pixel `j` of the buffer.
    pub open spec fn covers(self, s: Stroke, j: int) -> bool {
        self.inked(s) && self.inside(s) && self.y(s) * self.width + self.x(s) == j
    }

    /// Whether character `s.k` has no glyph, `s` being the place where drawing it would begin.
    pub open spec fn unknown_at(self, s: Stroke) -> bool {
        &&& 0 <= s.k < self.text.len()
        &&& !self.glyphs.contains_key(self.text[s.k] as int)
        &&& s.r == 0
        &&& s.b == 0
    }

    /// Whether drawing cannot go past `s`: the character has no glyph, or the pixel to draw
    /// lies outside the buffer.
    pub open spec fn faulty(self, s: Stroke) -> bool {
        self.unknown_at(s) || (self.inked(s) && !self.inside(s))
    }

    /// Whether drawing gets as far as `limit`.
    pub open spec fn clean_before(self, limit: Stroke) -> bool {
        forall|s: Stroke| s.before(limit) ==> !#[trigger] self.faulty(s)
    }

    /// Whether drawing stops at `s`.
    pub open spec fn first_fault(self, s: Stroke) -> bool {
        self.faulty(s) && self.clean_before(s)
    }

    /// Whether the whole text can be drawn.
    pub open spec fn succeeds(self) -> bool {
        forall|s: Stroke| !#[trigger] self.faulty(s)
    }

    /// The place after the last character.
    pub open spec fn end(self) -> Stroke {
        Stroke { k: self.text.len() as int, r: 0, b: 0 }
    }

    /// Where drawing stops: at the first place that it cannot go past, or after the last
    /// character.
    pub open spec fn stop(self) -> Stroke {
        if self.succeeds() {
            self.end()
        } else {
            choose|s: Stroke| self.first_fault(s)
        }
    }

    /// What is reported of a place that drawing cannot go past. Of a pixel outside the buffer
    /// in both directions the column is reported.
    pub open spec fn error_at(self, s: Stroke) -> RasterError {
        if self.unknown_at(s) {
            RasterError::UnknownGlyph(self.text[s.k])
        } else if self.x(s) >= self.width {
            RasterError::OutOfBounds { axis: Axis::X, value: reported(self.x(s)) }
        } else {
            RasterError::OutOfBounds { axis: Axis::Y, value: reported(self.y(s)) }
        }
    }

    /// What drawing the text returns.
    pub open spec fn outcome(self) -> Result<(), RasterError> {
        if self.succeeds() {
            Ok(())
        } else {
            Err(self.error_at(self.stop()))
        }
    }

    /// Whether pixel `j` has been drawn by the time drawing reaches `limit`.
    pub open spec fn painted(self, j: int, limit: Stroke) -> bool {
        exists|s: Stroke| #[trigger] self.covers(s, j) && s.before(limit)
    }

    /// The buffer when drawing has reached `limit`: what has been drawn has the colour `ink`,
    /// and every other pixel is as it was.
    pub open spec fn pixels_upto(self, pixels: Seq<Color>, ink: Color, limit: Stroke) -> Seq<
        Color,
    > {
        Seq::new(
            pixels.len(),
            |j: int|
                if self.painted(j, limit) {
                    ink
                } else {
                    pixels[j]
                },
        )
    }

    /// The buffer after drawing the text, as far as it could be drawn.
    pub open spec fn pixels_after(self, pixels: Seq<Color>, ink: Color) -> Seq<Color> {
        self.pixels_upto(pixels, ink, self.stop())
    }

    /// Drawing stops at no more than one place.
    pub proof fn lemma_first_fault_unique(self, a: Stroke, b: Stroke)
        requires
            self.first_fault(a),
            self.first_fault(b),
        ensures
            a == b,
    {
        assert(!a.before(b));
        assert(!b.before(a));
    }

    /// Where drawing stops at `s`, `s` is the stop, and its error is the outcome.
    pub proof fn lemma_stops_at(self, s: Stroke)
        requires
            self.first_fault(s),
        ensures
            self.stop() == s,
            self.outcome() == Err::<(), RasterError>(self.error_at(s)),
    {
        assert(self.faulty(s));
        let t = choose|t: Stroke| self.first_fault(t);
        self.lemma_first_fault_unique(s, t);
    }

    /// Before a place that drawing cannot go past there is a first such place, unless it is
    /// the first itself.
    pub proof fn lemma_fault_has_a_first(self, s: Stroke)
        requires
            self.faulty(s),
        ensures
            exists|t: Stroke| self.first_fault(t),
        decreases s.k, s.r, s.b,
    {
        if self.clean_before(s) {
            assert(self.first_fault(s));
        } else {
            let t = choose|t: Stroke| t.before(s) && self.faulty(t);
            self.lemma_fault_has_a_first(t);
        }
    }

    /// A text that cannot be drawn to its end stops at the first place that drawing cannot go
    /// past, and the error of that place is the outcome.
    pub proof fn lemma_stop_is_first_fault(self)
        requires
            !self.succeeds(),
        ensures
            self.first_fault(self.stop()),
            self.outcome() == Err::<(), RasterError>(self.error_at(self.stop())),
    {
        let s = choose|s: Stroke| self.faulty(s);
        self.lemma_fault_has_a_first(s);
    }

    /// Where drawing gets to the end, the text succeeds.
    pub proof fn lemma_reaches_end(self)
        requires
            self.clean_before(self.end()),
        ensures
            self.succeeds(),
            self.stop() == self.end(),
            self.outcome() == Ok::<(), RasterError>(()),
    {
        assert forall|s: Stroke| !#[trigger] self.faulty(s) by {
            if self.faulty(s) {
                assert(s.before(self.end()));
            }
        }
    }

    /// Two limits with the same places to draw and to stop at before them are the same
    /// limit to drawing.
    pub proof fn lemma_same_reach(self, a: Stroke, b: Stroke, pixels: Seq<Color>, ink: Color)
        requires
            forall|s: Stroke| #[trigger] self.faulty(s) ==> (s.before(a) <==> s.before(b)),
            forall|s: Stroke| #[trigger] self.inked(s) ==> (s.before(a) <==> s.before(b)),
        ensures
            self.clean_before(a) <==> self.clean_before(b),
            self.pixels_upto(pixels, ink, a) == self.pixels_upto(pixels, ink, b),
    {
        assert forall|j: int| self.painted(j, a) == self.painted(j, b) by {
            if self.painted(j, a) {
                let s = choose|s: Stroke| #[trigger] self.covers(s, j) && s.before(a);
                assert(self.covers(s, j) && s.before(b));
            }
            if self.painted(j, b) {
                let s = choose|s: Stroke| #[trigger] self.covers(s, j) && s.before(b);
                assert(self.covers(s, j) && s.before(a));
            }
        }
        assert(self.pixels_upto(pixels, ink, a) =~= self.pixels_upto(pixels, ink, b));
    }

    /// Going from `s` to the limit that has `s` and nothing else more before it: drawing gets
    /// there where it got to `s` and can go past it, and the pixel of `s` is drawn if `s` is
    /// one to draw.
    pub proof fn lemma_one_more(self, s: Stroke, next: Stroke, pixels: Seq<Color>, ink: Color)
        requires
            forall|t: Stroke| #[trigger]
                self.faulty(t) ==> (t.before(next) <==> t.before(s) || t == s),
            forall|t: Stroke| #[trigger]
                self.inked(t) ==> (t.before(next) <==> t.before(s) || t == s),
        ensures
            self.clean_before(next) <==> self.clean_before(s) && !self.faulty(s),
            forall|j: int| self.painted(j, next) <==> self.painted(j, s) || self.covers(s, j),
            !self.inked(s) ==> self.pixels_upto(pixels, ink, next) == self.pixels_upto(
                pixels,
                ink,
                s,
            ),
            self.inked(s) && self.inside(s) && self.y(s) * self.width + self.x(s) < pixels.len()
                ==> self.pixels_upto(pixels, ink, next) == self.pixels_upto(pixels, ink, s).update(
                self.y(s) * self.width + self.x(s),
                ink,
            ),
    {
        assert forall|j: int| self.painted(j, next) <==> self.painted(j, s) || self.covers(
            s,
            j,
        ) by {
            if self.painted(j, next) {
                let t = choose|t: Stroke| #[trigger] self.covers(t, j) && t.before(next);
                if t != s {
                    assert(self.covers(t, j) && t.before(s));
                }
            }
            if self.painted(j, s) {
                let t = choose|t: Stroke| #[trigger] self.covers(t, j) && t.before(s);
                assert(self.covers(t, j) && t.before(next));
            }
            if self.covers(s, j) {
                assert(self.covers(s, j) && s.before(next));
            }
        }
        if !self.inked(s) {
            assert(self.pixels_upto(pixels, ink, next) =~= self.pixels_upto(pixels, ink, s));
        }
        if self.inked(s) && self.inside(s) && self.y(s) * self.width + self.x(s) < pixels.len() {
            let at = self.y(s) * self.width + self.x(s);
            assert(at >= 0) by (nonlinear_arith)
                requires
                    at == self.y(s) * self.width + self.x(s),
                    self.y(s) >= 0,
                    self.x(s) >= 0,
                    self.width >= 0,
            ;
            assert(self.covers(s, at));
            assert(self.pixels_upto(pixels, ink, next) =~= self.pixels_upto(pixels, ink, s).update(
                at,
                ink,
            ));
        }
    }
}

/// Drawing an empty text succeeds and changes no pixel.
pub proof fn lemma_empty_text_draws_nothing(lay: Layout, pixels: Seq<Color>, ink: Color)
    requires
        lay.text.len() == 0,
    ensures
        lay.outcome() == Ok::<(), RasterError>(()),
        lay.pixels_after(pixels, ink) == pixels,
{
    lay.lemma_reaches_end();
    assert forall|j: int| !lay.painted(j, lay.end()) by {
        if lay.painted(j, lay.end()) {
            let s = choose|s: Stroke| #[trigger] lay.covers(s, j) && s.before(lay.end());
            assert(lay.inked(s));
        }
    }
    assert(lay.pixels_after(pixels, ink) =~= pixels);
}

/// Drawing one character that has a glyph, at the top left corner of a buffer that is as wide
/// as a cell and as high as the glyph has rows, succeeds; pixel `i` of line `r` then has the
/// colour of the ink where bit `i` of row `r` of the glyph is set, and is as it was where the
/// bit is not set. So where no pixel had the colour of the ink before, the pixels that have
/// it afterwards are those of the set bits.
pub proof fn lemma_single_glyph_fills_its_cell(lay: Layout, pixels: Seq<Color>, ink: Color)
    requires
        lay.text.len() == 1,
        lay.glyphs.contains_key(lay.text[0] as int),
        lay.start_x == 0,
        lay.start_y == 0,
        lay.width == 8,
        lay.height == lay.rows(0).len(),
        pixels.len() == lay.width * lay.height,
    ensures
        lay.outcome() == Ok::<(), RasterError>(()),
        lay.pixels_after(pixels, ink).len() == pixels.len(),
        forall|r: int, i: int|
            #![trigger lay.rows(0)[r], pixels[r * 8 + i]]
            0 <= r < lay.height && 0 <= i < 8 ==> lay.pixels_after(pixels, ink)[r * 8 + i] == (
            if bit_is_set(lay.rows(0)[r], i as u8) {
                ink
            } else {
                pixels[r * 8 + i]
            }),
        (forall|j: int| 0 <= j < pixels.len() ==> pixels[j] != ink) ==> forall|r: int, i: int|
            #![trigger lay.rows(0)[r], pixels[r * 8 + i]]
            0 <= r < lay.height && 0 <= i < 8 ==> (bit_is_set(lay.rows(0)[r], i as u8)
                <==> lay.pixels_after(pixels, ink)[r * 8 + i] == ink),
{
    assert forall|s: Stroke| !#[trigger] lay.faulty(s) by {
        if lay.inked(s) {
            assert(s.k == 0);
        }
    }
    lay.lemma_reaches_end();
    assert forall|r: int, i: int|
        #![trigger lay.rows(0)[r], pixels[r * 8 + i]]
        0 <= r < lay.height && 0 <= i < 8 implies lay.pixels_after(pixels, ink)[r * 8 + i] == (
    if bit_is_set(lay.rows(0)[r], i as u8) {
        ink
    } else {
        pixels[r * 8 + i]
    }) by {
        let j = r * 8 + i;
        let here = Stroke { k: 0, r, b: i };
        if bit_is_set(lay.rows(0)[r], i as u8) {
            assert(lay.covers(here, j) && here.before(lay.end()));
        }
        if lay.painted(j, lay.end()) {
            let s = choose|s: Stroke| #[trigger] lay.covers(s, j) && s.before(lay.end());
            assert(lay.inked(s));
            assert(s.r == r && s.b == i);
            assert(s == here);
        }
    }
}

/// Where a character of the text has no glyph and the characters before it can all be drawn,
/// drawing returns `UnknownGlyph` with that character, and leaves the buffer as drawing the
/// characters before it leaves it.
pub proof fn lemma_unknown_glyph_keeps_what_was_drawn(
    lay: Layout,
    k: int,
    pixels: Seq<Color>,
    ink: Color,
)
    requires
        0 <= k < lay.text.len(),
        !lay.glyphs.contains_key(lay.text[k] as int),
        (Layout { text: lay.text.take(k), ..lay }).succeeds(),
    ensures
        lay.outcome() == Err::<(), RasterError>(RasterError::UnknownGlyph(lay.text[k])),
        lay.pixels_after(pixels, ink) == (Layout { text: lay.text.take(k), ..lay }).pixels_after(
            pixels,
            ink,
        ),
{
    let head = Layout { text: lay.text.take(k), ..lay };
    let here = Stroke { k, r: 0, b: 0 };
    assert forall|s: Stroke| s.before(here) implies !#[trigger] lay.faulty(s) by {
        if lay.faulty(s) {
            assert(head.text[s.k] == lay.text[s.k]);
            assert(head.faulty(s));
        }
    }
    lay.lemma_stops_at(here);
    assert(head.stop() == head.end());
    assert(head.end() == here);
    assert forall|j: int| lay.painted(j, here) == head.painted(j, here) by {
        if lay.painted(j, here) {
            let s = choose|s: Stroke| #[trigger] lay.covers(s, j) && s.before(here);
            assert(head.text[s.k] == lay.text[s.k]);
            assert(head.covers(s, j) && s.before(here));
        }
        if head.painted(j, here) {
            let s = choose|s: Stroke| #[trigger] head.covers(s, j) && s.before(here);
            assert(head.text[s.k] == lay.text[s.k]);
            assert(lay.covers(s, j) && s.before(here));
        }
    }
    assert(lay.pixels_after(pixels, ink) =~= head.pixels_after(pixels, ink));
}

/// A text with a pixel to draw in the column just right of the buffer, or on the line just
/// below it, cannot be drawn to its end.
pub proof fn lemma_pixel_on_the_edge_fails(lay: Layout, s: Stroke)
    requires
        lay.inked(s),
        lay.x(s) == lay.width || lay.y(s) == lay.height,
    ensures
        lay.outcome() is Err,
{
    assert(lay.faulty(s));
}

/// Whether a pixel lies in a buffer of the given size, and the error where it does not. The
/// column is looked at first.
pub open spec fn pixel_check(width: usize, height: usize, x: usize, y: usize) -> Result<
    (),
    DrawOutOfBoundsError,
> {
    if x >= width {
        Err(DrawOutOfBoundsError::X(x))
    } else if y >= height {
        Err(DrawOutOfBoundsError::Y(y))
    } else {
        Ok(())
    }
}

/// Gives the pixel in column `x` of line `y` the colour `color`. The buffer holds its lines
/// one after the other, each `width` pixels long. A pixel outside the buffer is not written.
pub fn set_pixel(
    buffer: &mut Vec<Color>,
    width: usize,
    height: usize,
    x: usize,
    y: usize,
    color: Color,
) -> (result: Result<(), DrawOutOfBoundsError>)
    requires
        old(buffer)@.len() == width * height,
    ensures
        result == pixel_check(width, height, x, y),
        result is Ok ==> y * width + x < old(buffer)@.len(),
        final(buffer)@ == match result {
            Ok(_) => old(buffer)@.update(y * width + x, color),
            Err(_) => old(buffer)@,
        },
{
    if x >= width {
        return Err(DrawOutOfBoundsError::X(x));
    }
    if y >= height {
        return Err(DrawOutOfBoundsError::Y(y));
    }
    assert(0 <= y * width <= y * width + x < width * height) by (nonlinear_arith)
        requires
            0 <= x < width,
            0 <= y < height,
    ;
    assert(buffer@.len() == buffer.len());
    let index = y * width + x;
    buffer.set(index, color);
    Ok(())
}

/// A coordinate that has been computed with a check for overflow stands for `actual`.
pub open spec fn stands_for(computed: Option<usize>, actual: int) -> bool {
    match computed {
        Some(v) => v == actual,
        None => actual > usize::MAX,
    }
}

/// Writes the pixel at a column and a line of which either may lie beyond the largest `usize`.
fn plot(
    buffer: &mut Vec<Color>,
    width: usize,
    height: usize,
    x: Option<usize>,
    y: Option<usize>,
    color: Color,
    Ghost(column): Ghost<int>,
    Ghost(line): Ghost<int>,
) -> (result: Result<(), RasterError>)
    requires
        old(buffer)@.len() == width * height,
        stands_for(x, column),
        stands_for(y, line),
        0 <= column,
        0 <= line,
    ensures
        match result {
            Ok(_) => column < width && line < height && line * width + column < old(
                buffer,
            )@.len() && final(buffer)@ == old(buffer)@.update(line * width + column, color),
            Err(e) => final(buffer)@ == old(buffer)@ && if column >= width {
                e == (RasterError::OutOfBounds { axis: Axis::X, value: reported(column) })
            } else {
                line >= height && e == (RasterError::OutOfBounds {
                    axis: Axis::Y,
                    value: reported(line),
                })
            },
        },
{
    match x {
        None => Err(RasterError::OutOfBounds { axis: Axis::X, value: usize::MAX }),
        Some(x) => match y {
            Some(y) => match set_pixel(buffer, width, height, x, y, color) {
                Ok(_) => Ok(()),
                Err(e) => Err(RasterError::from(e)),
            },
            None => if x >= width {
                Err(RasterError::OutOfBounds { axis: Axis::X, value: x })
            } else {
                Err(RasterError::OutOfBounds { axis: Axis::Y, value: usize::MAX })
            },
        },
    }
}

/// The glyphs at hand when drawing with a font, or with none.
pub open spec fn glyphs_of(table: Option<&Font>) -> Map<int, Glyph> {
    match table {
        Some(font) => font@.glyphs,
        None => Map::empty(),
    }
}

/// Draws `text` with the glyphs of `table`, or with none at all.
pub(crate) fn draw_glyphs(
    buffer: &mut Vec<Color>,
    buffer_width: usize,
    buffer_height: usize,
    table: Option<&Font>,
    text: &str,
    start_x: usize,
    start_y: usize,
    ink_color: Color,
) -> (result: Result<(), RasterError>)
    requires
        old(buffer)@.len() == buffer_width * buffer_height,
    ensures
        result == (Layout {
            width: buffer_width as nat,
            height: buffer_height as nat,
            glyphs: glyphs_of(table),
            text: text@,
            start_x: start_x as nat,
            start_y: start_y as nat,
        }).outcome(),
        final(buffer)@ == (Layout {
            width: buffer_width as nat,
            height: buffer_height as nat,
            glyphs: glyphs_of(table),
            text: text@,
            start_x: start_x as nat,
            start_y: start_y as nat,
        }).pixels_after(old(buffer)@, ink_color),
{
    let ghost lay = Layout {
        width: buffer_width as nat,
        height: buffer_height as nat,
        glyphs: glyphs_of(table),
        text: text@,
        start_x: start_x as nat,
        start_y: start_y as nat,
    };
    let ghost pixels = buffer@;
    let chars = chars_of(text);
    let mut cell_x: Option<usize> = Some(start_x);
    let mut k: usize = 0;
    proof {
        assert(lay.pixels_upto(pixels, ink_color, Stroke { k: 0, r: 0, b: 0 }) =~= pixels) by {
            assert forall|j: int| !lay.painted(j, Stroke { k: 0, r: 0, b: 0 }) by {
                if lay.painted(j, Stroke { k: 0, r: 0, b: 0 }) {
                    let s = choose|s: Stroke| #[trigger]
                        lay.covers(s, j) && s.before(Stroke { k: 0, r: 0, b: 0 });
                    assert(lay.inked(s));
                }
            }
        }
    }
    while k < chars.len()
        invariant
            0 <= k <= chars.len(),
            chars@ == text@,
            lay == (Layout {
                width: buffer_width as nat,
                height: buffer_height as nat,
                glyphs: glyphs_of(table),
                text: text@,
                start_x: start_x as nat,
                start_y: start_y as nat,
            }),
            buffer@.len() == buffer_width * buffer_height,
            pixels == old(buffer)@,
            buffer@.len() == pixels.len(),
            stands_for(cell_x, start_x + CELL_WIDTH * k),
            lay.clean_before(Stroke { k: k as int, r: 0, b: 0 }),
            buffer@ == lay.pixels_upto(pixels, ink_color, Stroke { k: k as int, r: 0, b: 0 }),
        decreases chars.len() - k,
    {
        let c = chars[k];
        let found = match table {
            Some(font) => font.get_character(c),
            None => Err(RasterError::UnknownGlyph(c)),
        };
        let rows = match found {
            Ok(character) => character.get_bytes(),
            Err(e) => {
                proof {
                    lay.lemma_stops_at(Stroke { k: k as int, r: 0, b: 0 });
                }
                return Err(e);
            },
        };
        let mut r: usize = 0;
        while r < rows.len()
            invariant
                0 <= k < chars.len(),
                0 <= r <= rows.len(),
                chars@ == text@,
                lay == (Layout {
                    width: buffer_width as nat,
                    height: buffer_height as nat,
                    glyphs: glyphs_of(table),
                    text: text@,
                    start_x: start_x as nat,
                    start_y: start_y as nat,
                }),
                lay.glyphs.contains_key(text@[k as int] as int),
                rows@ == lay.rows(k as int),
                buffer@.len() == buffer_width * buffer_height,
                pixels == old(buffer)@,
                buffer@.len() == pixels.len(),
                stands_for(cell_x, start_x + CELL_WIDTH * k),
                lay.clean_before(Stroke { k: k as int, r: r as int, b: 0 }),
                buffer@ == lay.pixels_upto(
                    pixels,
                    ink_color,
                    Stroke { k: k as int, r: r as int, b: 0 },
                ),
            decreases rows.len() - r,
        {
            let row = rows[r];
            let y = start_y.checked_add(r);
            let mut b: u8 = 0;
            while b < 8
                invariant
                    0 <= k < chars.len(),
                    0 <= r < rows.len(),
                    0 <= b <= 8,
                    chars@ == text@,
                    lay == (Layout {
                        width: buffer_width as nat,
                        height: buffer_height as nat,
                        glyphs: glyphs_of(table),
                        text: text@,
                        start_x: start_x as nat,
                        start_y: start_y as nat,
                    }),
                    lay.glyphs.contains_key(text@[k as int] as int),
                    rows@ == lay.rows(k as int),
                    row == rows@[r as int],
                    buffer@.len() == buffer_width * buffer_height,
                    pixels == old(buffer)@,
                    buffer@.len() == pixels.len(),
                    stands_for(cell_x, start_x + CELL_WIDTH * k),
                    stands_for(y, start_y + r),
                    lay.clean_before(Stroke { k: k as int, r: r as int, b: b as int }),
                    buffer@ == lay.pixels_upto(
                        pixels,
                        ink_color,
                        Stroke { k: k as int, r: r as int, b: b as int },
                    ),
                decreases 8 - b,
            {
                let ghost s = Stroke { k: k as int, r: r as int, b: b as int };
                let ghost next = Stroke { k: k as int, r: r as int, b: b + 1 };
                proof {
                    lay.lemma_one_more(s, next, pixels, ink_color);
                }
                if row & (0x80u8 >> b) != 0 {
                    let x = match cell_x {
                        Some(left) => left.checked_add(b as usize),
                        None => None,
                    };
                    assert(lay.inked(s));
                    match plot(
                        buffer,
                        buffer_width,
                        buffer_height,
                        x,
                        y,
                        ink_color,
                        Ghost(lay.x(s)),
                        Ghost(lay.y(s)),
                    ) {
                        Ok(_) => {},
                        Err(e) => {
                            proof {
                                lay.lemma_stops_at(s);
                            }
                            return Err(e);
                        },
                    }
                }
                b = b + 1;
            }
            proof {
                lay.lemma_same_reach(
                    Stroke { k: k as int, r: r as int, b: 8 },
                    Stroke { k: k as int, r: r + 1, b: 0 },
                    pixels,
                    ink_color,
                );
            }
            r = r + 1;
        }
        proof {
            lay.lemma_same_reach(
                Stroke { k: k as int, r: rows@.len() as int, b: 0 },
                Stroke { k: k + 1, r: 0, b: 0 },
                pixels,
                ink_color,
            );
        }
        cell_x =
        match cell_x {
            Some(left) => left.checked_add(CELL_WIDTH),
            None => None,
        };
        k = k + 1;
    }
    proof {
        lay.lemma_reaches_end();
    }
    Ok(())
}

/// Draws `text` into `buffer` with the glyphs of `table`, in the colour `ink_color`. The first
/// character has the top left corner of its cell at column `start_x` of line `start_y`, and
/// each further character stands eight pixels to the right of the one before. Drawing stops
/// at the first character that has no glyph and at the first pixel that lies outside the
/// buffer; what has been drawn by then stays.
pub fn draw_text(
    buffer: &mut Vec<Color>,
    buffer_width: usize,
    buffer_height: usize,
    table: &Font,
    text: &str,
    start_x: usize,
    start_y: usize,
    ink_color: Color,
) -> (result: Result<(), RasterError>)
    requires
        old(buffer)@.len() == buffer_width * buffer_height,
    ensures
        result == (Layout {
            width: buffer_width as nat,
            height: buffer_height as nat,
            glyphs: table@.glyphs,
            text: text@,
            start_x: start_x as nat,
            start_y: start_y as nat,
        }).outcome(),
        final(buffer)@ == (Layout {
            width: buffer_width as nat,
            height: buffer_height as nat,
            glyphs: table@.glyphs,
            text: text@,
            start_x: start_x as nat,
            start_y: start_y as nat,
        }).pixels_after(old(buffer)@, ink_color),
{
    draw_glyphs(
        buffer,
        buffer_width,
        buffer_height,
        Some(table),
        text,
        start_x,
        start_y,
        ink_color,
    )
}

} // verus!
