//! Bitmap fonts: the glyph table and the loader that reads one from its description.

use crate::errors::FontLoadError;
use crate::errors::Malformation;
use crate::errors::RasterError;
use crate::scan::after_first;
use crate::scan::chars_of;
use crate::scan::digit_of;
use crate::scan::digits_value;
use crate::scan::digits_within;
use crate::scan::first_index;
use crate::scan::hex_byte_of;
use crate::scan::is_hex_digit;
use crate::scan::is_word;
use crate::scan::isize_of;
use crate::scan::line_ranges;
use crate::scan::read_hex_byte;
use crate::scan::lines_of;
use crate::scan::split;
use crate::scan::pieces;
use crate::scan::push_char;
use crate::scan::ranges_within;
use crate::scan::read_digits;
use crate::scan::read_isize;
use crate::scan::read_usize;
use crate::scan::split_ranges;
use crate::scan::usize_of;
use crate::scan::lemma_digits_value_grows;
use std::collections::HashMap;
use vstd::prelude::*;
use vstd::slice::slice_subrange;

verus! {

pub type Vec2 = (isize, isize);

pub type Vec3 = (isize, isize, isize);

pub type Vec4 = (isize, isize, isize, isize);

/// The hexadecimal digits of a token, in order, everything else left out.
pub open spec fn hex_digits_in(token: Seq<char>) -> Seq<char> {
    token.filter(|c: char| is_hex_digit(c))
}

/// The character that a glyph's name stands for: the hexadecimal digits of the name are read
/// as one number, and that number is the code point. A name without such digits, or with a
/// number above 255, stands for the character with code point 0.
pub open spec fn code_point_of(token: Seq<char>) -> char {
    let digits = hex_digits_in(token);
    if digits.len() > 0 && digits_value(digits, 16) <= 255 {
        digits_value(digits, 16) as u8 as char
    } else {
        '\0'
    }
}

/// Decodes a glyph's name, given as its characters.
pub fn decode_code_point(token: &[char]) -> (c: char)
    ensures
        c == code_point_of(token@),
{
    let mut total: u32 = 0;
    let mut seen: bool = false;
    let mut i: usize = 0;
    assert(token@.take(0) =~= Seq::<char>::empty());
    while i < token.len()
        invariant
            0 <= i <= token.len(),
            seen == (hex_digits_in(token@.take(i as int)).len() > 0),
            total <= 256,
            total <= 255 ==> total == digits_value(hex_digits_in(token@.take(i as int)), 16),
            total == 256 ==> digits_value(hex_digits_in(token@.take(i as int)), 16) > 255,
        decreases token.len() - i,
    {
        let d = digit_of(token[i]);
        proof {
            let c = token@[i as int];
            let before = hex_digits_in(token@.take(i as int));
            assert(token@.take(i + 1).drop_last() =~= token@.take(i as int));
            assert(token@.take(i + 1).last() == c);
            reveal(Seq::filter);
            assert(hex_digits_in(token@.take(i + 1)) == if is_hex_digit(c) {
                before.push(c)
            } else {
                before
            });
            assert(before.push(c).drop_last() =~= before);
            assert(before.push(c).last() == c);
            lemma_digits_value_grows(before, 16, 0);
        }
        if d < 16 {
            seen = true;
            let wide: u32 = total * 16 + d;
            total = if wide > 255 {
                256
            } else {
                wide
            };
        }
        i = i + 1;
    }
    assert(token@.take(i as int) =~= token@);
    if seen && total <= 255 {
        total as u8 as char
    } else {
        '\0'
    }
}

/// Decodes a glyph's name such as `u0041` or `41` into the character it stands for.
pub fn unicode_to_char(unicode: &str) -> (c: char)
    ensures
        c == code_point_of(unicode@),
{
    let chars = chars_of(unicode);
    decode_code_point(chars.as_slice())
}

/// What a `Character` holds, as plain values.
pub struct Glyph {
    /// The code point of the character that the glyph renders.
    pub code_point: u32,
    /// The glyph's number in the font's own encoding; negative where it has none.
    pub encoding: isize,
    /// The advance in font units.
    pub scalable_width: Vec2,
    /// The advance in pixels.
    pub device_width: Vec2,
    /// Width, height, x offset and y offset of the glyph within its cell, in pixels.
    pub bounding_box: Vec4,
    /// One byte for each scanline, top to bottom; the most significant bit is the leftmost
    /// pixel.
    pub bitmap_rows: Seq<u8>,
}

/// The bitmap and the metrics of one character.
#[derive(Debug, PartialEq, Eq)]
pub struct Character {
    name: char,
    encoding: isize,
    s_width: Vec2,
    d_width: Vec2,
    bbx: Vec4,
    bytes: Vec<u8>,
}

impl View for Character {
    type V = Glyph;

    closed spec fn view(&self) -> Glyph {
        Glyph {
            code_point: self.name as u32,
            encoding: self.encoding,
            scalable_width: self.s_width,
            device_width: self.d_width,
            bounding_box: self.bbx,
            bitmap_rows: self.bytes@,
        }
    }
}

impl Clone for Character {
    fn clone(&self) -> (copy: Self)
        ensures
            copy@ == self@,
    {
        let bytes = self.bytes.clone();
        assert(bytes@ =~= self.bytes@);
        Character {
            name: self.name,
            encoding: self.encoding,
            s_width: self.s_width,
            d_width: self.d_width,
            bbx: self.bbx,
            bytes,
        }
    }
}

impl Character {
    /// The rows of the bitmap, top to bottom.
    pub fn get_bytes(&self) -> (rows: &[u8])
        ensures
            rows@ == self@.bitmap_rows,
    {
        self.bytes.as_slice()
    }

    /// The advance in pixels.
    pub fn d_width(&self) -> (width: Vec2)
        ensures
            width == self@.device_width,
    {
        self.d_width
    }

    /// The advance in font units.
    pub fn s_width(&self) -> (width: Vec2)
        ensures
            width == self@.scalable_width,
    {
        self.s_width
    }

    /// The character that the glyph renders.
    pub fn name(&self) -> (c: char)
        ensures
            c as u32 == self@.code_point,
    {
        self.name
    }

    /// The glyph's number in the font's own encoding.
    pub fn encoding(&self) -> (code: isize)
        ensures
            code == self@.encoding,
    {
        self.encoding
    }

    /// Width, height, x offset and y offset of the glyph within its cell.
    pub fn bbx(&self) -> (bounds: Vec4)
        ensures
            bounds == self@.bounding_box,
    {
        self.bbx
    }
}

/// A named number that a font declares of itself.
#[derive(Debug, Clone, Copy, PartialEq, Eq, Structural)]
pub enum FontProperties {
    FontAscent(usize),
    FontDescent(usize),
}

/// The version of the description format as a decimal number: `integral`, then a point, then
/// `fraction` written with `fraction_digits` digits.
#[derive(Debug, Clone, Copy, PartialEq, Eq, Structural)]
pub struct Version {
    pub integral: u64,
    pub fraction: u64,
    pub fraction_digits: usize,
}

/// What a `Font` holds, as plain values.
pub struct FontView {
    pub version: Version,
    pub description: Seq<char>,
    pub size: Vec3,
    pub bounding_box: Vec4,
    pub properties: Seq<FontProperties>,
    pub char_count: usize,
    /// The glyphs by the code point of the character that each renders.
    pub glyphs: Map<int, Glyph>,
}

/// The glyph table by code point, given the table as it is kept.
pub open spec fn glyphs_by_code(table: Map<u32, Character>) -> Map<int, Glyph> {
    Map::new(
        |code: int| 0 <= code <= u32::MAX && table.contains_key(code as u32),
        |code: int| table[code as u32]@,
    )
}

/// A bitmap font: a table of glyphs by character, and what the font says of itself.
#[derive(Debug)]
pub struct Font {
    version: Version,
    description: String,
    size: Vec3,
    bounding_box: Vec4,
    properties: Vec<FontProperties>,
    char_count: usize,
    characters: HashMap<u32, Character>,
}

impl View for Font {
    type V = FontView;

    closed spec fn view(&self) -> FontView {
        FontView {
            version: self.version,
            description: self.description@,
            size: self.size,
            bounding_box: self.bounding_box,
            properties: self.properties@,
            char_count: self.char_count,
            glyphs: glyphs_by_code(self.characters@),
        }
    }
}

impl Clone for Font {
    fn clone(&self) -> (copy: Self)
        ensures
            copy@ == self@,
    {
        let properties = self.properties.clone();
        assert(properties@ =~= self.properties@);
        Font {
            version: self.version,
            description: self.description.clone(),
            size: self.size,
            bounding_box: self.bounding_box,
            properties,
            char_count: self.char_count,
            characters: self.characters.clone(),
        }
    }
}

/// The loader between two lines: what it has read of the font, and of the character whose
/// record is open.
pub struct Loading {
    /// Whether the lines that no directive claims are rows of a bitmap.
    pub reading_bitmap: bool,
    pub version: Option<Version>,
    pub description: Option<Seq<char>>,
    pub size: Option<Vec3>,
    pub bounding_box: Option<Vec4>,
    pub properties: Seq<FontProperties>,
    pub char_count: Option<usize>,
    /// The characters whose records have been closed, by code point.
    pub glyphs: Map<int, Glyph>,
    pub name: Option<char>,
    pub encoding: Option<isize>,
    pub s_width: Option<Vec2>,
    pub d_width: Option<Vec2>,
    pub bbx: Option<Vec4>,
    pub rows: Seq<u8>,
}

impl Loading {
    /// The loader before the first line.
    pub open spec fn start() -> Loading {
        Loading {
            reading_bitmap: false,
            version: None,
            description: None,
            size: None,
            bounding_box: None,
            properties: Seq::empty(),
            char_count: None,
            glyphs: Map::empty(),
            name: None,
            encoding: None,
            s_width: None,
            d_width: None,
            bbx: None,
            rows: Seq::empty(),
        }
    }
}

/// The decimal number that `s` writes: digits, a point, digits, where either run of digits may
/// be empty but not both, and the point may be left out with the digits after it.
pub open spec fn version_of(s: Seq<char>) -> Option<Version> {
    let point = first_index(s, '.');
    let whole = s.take(point);
    let part = match after_first(s, '.') {
        Some(rest) => rest,
        None => Seq::empty(),
    };
    if whole.len() + part.len() > 0 {
        let limit = u64::MAX as int;
        match (digits_within(whole, 10, limit), digits_within(part, 10, limit)) {
            (Some(integral), Some(fraction)) => Some(
                Version {
                    integral: integral as u64,
                    fraction: fraction as u64,
                    fraction_digits: part.len() as usize,
                },
            ),
            _ => None,
        }
    } else {
        None
    }
}

/// Field `n` of a line as a signed number.
pub open spec fn isize_at(fields: Seq<Seq<char>>, n: int) -> Result<isize, Malformation> {
    if n < fields.len() {
        match isize_of(fields[n]) {
            Some(v) => Ok(v),
            None => Err(Malformation::InvalidNumber),
        }
    } else {
        Err(Malformation::MissingField)
    }
}

/// Field `n` of a line as an unsigned number.
pub open spec fn usize_at(fields: Seq<Seq<char>>, n: int) -> Result<usize, Malformation> {
    if n < fields.len() {
        match usize_of(fields[n]) {
            Some(v) => Ok(v),
            None => Err(Malformation::InvalidNumber),
        }
    } else {
        Err(Malformation::MissingField)
    }
}

/// Field `n` of a line as a version number.
pub open spec fn version_at(fields: Seq<Seq<char>>, n: int) -> Result<Version, Malformation> {
    if n < fields.len() {
        match version_of(fields[n]) {
            Some(v) => Ok(v),
            None => Err(Malformation::InvalidNumber),
        }
    } else {
        Err(Malformation::MissingField)
    }
}

/// Fields 1 and 2 of a line as signed numbers. The first field that is missing or no number
/// decides the error.
pub open spec fn pair_at(fields: Seq<Seq<char>>) -> Result<Vec2, Malformation> {
    match isize_at(fields, 1) {
        Ok(a) => match isize_at(fields, 2) {
            Ok(b) => Ok((a, b)),
            Err(e) => Err(e),
        },
        Err(e) => Err(e),
    }
}

/// Fields 1 to 3 of a line as signed numbers.
pub open spec fn triple_at(fields: Seq<Seq<char>>) -> Result<Vec3, Malformation> {
    match pair_at(fields) {
        Ok(ab) => match isize_at(fields, 3) {
            Ok(c) => Ok((ab.0, ab.1, c)),
            Err(e) => Err(e),
        },
        Err(e) => Err(e),
    }
}

/// Fields 1 to 4 of a line as signed numbers.
pub open spec fn quad_at(fields: Seq<Seq<char>>) -> Result<Vec4, Malformation> {
    match triple_at(fields) {
        Ok(abc) => match isize_at(fields, 4) {
            Ok(d) => Ok((abc.0, abc.1, abc.2, d)),
            Err(e) => Err(e),
        },
        Err(e) => Err(e),
    }
}

impl Loading {
    /// The loader after `ENDCHAR`: the open record joins the table under its character, in place
    /// of an earlier glyph for the same character, and a new record is begun. A record that lacks
    /// its name, its encoding, a width or its bounding box is refused.
    pub open spec fn close(self) -> Result<Loading, Malformation> {
        match (self.name, self.encoding, self.s_width, self.d_width, self.bbx) {
            (Some(name), Some(encoding), Some(s_width), Some(d_width), Some(bbx)) => Ok(
                Loading {
                    reading_bitmap: false,
                    glyphs: self.glyphs.insert(
                        name as int,
                        Glyph {
                            code_point: name as u32,
                            encoding,
                            scalable_width: s_width,
                            device_width: d_width,
                            bounding_box: bbx,
                            bitmap_rows: self.rows,
                        },
                    ),
                    name: None,
                    encoding: None,
                    s_width: None,
                    d_width: None,
                    bbx: None,
                    rows: Seq::empty(),
                    ..self
                },
            ),
            _ => Err(Malformation::IncompleteCharacter),
        }
    }
}

impl Loading {
    /// The loader after one more line. The first field of the line names the directive; a line
    /// that names none is a row of the bitmap while one is being read, and is passed over
    /// otherwise.
    pub open spec fn step(self, line: Seq<char>) -> Result<Loading, Malformation> {
        let fields = split(line, ' ');
        let key = fields[0];
        if key == "STARTFONT"@ {
            match version_at(fields, 1) {
                Ok(v) => Ok(Loading { version: Some(v), ..self }),
                Err(e) => Err(e),
            }
        } else if key == "FONT"@ {
            match after_first(line, ' ') {
                Some(rest) => Ok(Loading { description: Some(rest), ..self }),
                None => Err(Malformation::MissingField),
            }
        } else if key == "SIZE"@ {
            match triple_at(fields) {
                Ok(v) => Ok(Loading { size: Some(v), ..self }),
                Err(e) => Err(e),
            }
        } else if key == "FONTBOUNDINGBOX"@ {
            match quad_at(fields) {
                Ok(v) => Ok(Loading { bounding_box: Some(v), ..self }),
                Err(e) => Err(e),
            }
        } else if key == "FONT_ASCENT"@ {
            match usize_at(fields, 1) {
                Ok(v) => Ok(
                    Loading {
                        properties: self.properties.push(FontProperties::FontAscent(v)),
                        ..self
                    },
                ),
                Err(e) => Err(e),
            }
        } else if key == "FONT_DESCENT"@ {
            match usize_at(fields, 1) {
                Ok(v) => Ok(
                    Loading {
                        properties: self.properties.push(FontProperties::FontDescent(v)),
                        ..self
                    },
                ),
                Err(e) => Err(e),
            }
        } else if key == "CHARS"@ {
            match usize_at(fields, 1) {
                Ok(v) => Ok(Loading { char_count: Some(v), ..self }),
                Err(e) => Err(e),
            }
        } else if key == "STARTCHAR"@ {
            if fields.len() > 1 {
                Ok(Loading { name: Some(code_point_of(fields[1])), ..self })
            } else {
                Err(Malformation::MissingField)
            }
        } else if key == "ENCODING"@ {
            match isize_at(fields, 1) {
                Ok(v) => Ok(Loading { encoding: Some(v), ..self }),
                Err(e) => Err(e),
            }
        } else if key == "SWIDTH"@ {
            match pair_at(fields) {
                Ok(v) => Ok(Loading { s_width: Some(v), ..self }),
                Err(e) => Err(e),
            }
        } else if key == "DWIDTH"@ {
            match pair_at(fields) {
                Ok(v) => Ok(Loading { d_width: Some(v), ..self }),
                Err(e) => Err(e),
            }
        } else if key == "BBX"@ {
            match quad_at(fields) {
                Ok(v) => Ok(Loading { bbx: Some(v), ..self }),
                Err(e) => Err(e),
            }
        } else if key == "BITMAP"@ {
            Ok(Loading { reading_bitmap: true, ..self })
        } else if key == "ENDCHAR"@ {
            self.close()
        } else if self.reading_bitmap {
            match hex_byte_of(line) {
                Some(row) => Ok(Loading { rows: self.rows.push(row), ..self }),
                None => Err(Malformation::InvalidNumber),
            }
        } else {
            Ok(self)
        }
    }
}

/// The loader after the first `n` lines, or the error of the first line that is malformed.
pub open spec fn run(lines: Seq<Seq<char>>, n: nat) -> Result<Loading, FontLoadError>
    decreases n,
{
    if n == 0 {
        Ok(Loading::start())
    } else {
        match run(lines, (n - 1) as nat) {
            Ok(st) => match st.step(lines[n - 1]) {
                Ok(next) => Ok(next),
                Err(reason) => Err(
                    FontLoadError::MalformedRecord { line_number: n as usize, reason },
                ),
            },
            Err(e) => Err(e),
        }
    }
}

impl Loading {
    /// The font that the loader has read, once the description has said the version, the
    /// description, the size, the bounding box and the number of characters.
    pub open spec fn finish(self) -> Option<FontView> {
        match (self.version, self.description, self.size, self.bounding_box, self.char_count) {
            (Some(version), Some(description), Some(size), Some(bounding_box), Some(char_count)) =>
            Some(
                FontView {
                    version,
                    description,
                    size,
                    bounding_box,
                    properties: self.properties,
                    char_count,
                    glyphs: self.glyphs,
                },
            ),
            _ => None,
        }
    }
}

/// The font that a description gives. A malformed line is reported with its number; a
/// description that ends without a directive that every font carries is reported with the
/// number of its lines.
pub open spec fn parse_font(text: Seq<char>) -> Result<FontView, FontLoadError> {
    let lines = lines_of(text);
    match run(lines, lines.len()) {
        Ok(st) => match st.finish() {
            Some(font) => Ok(font),
            None => Err(
                FontLoadError::MalformedRecord {
                    line_number: lines.len() as usize,
                    reason: Malformation::MissingDirective,
                },
            ),
        },
        Err(e) => Err(e),
    }
}

/// Once a line is malformed, reading further lines changes nothing.
pub proof fn lemma_run_stays_failed(lines: Seq<Seq<char>>, n: nat, m: nat)
    requires
        n <= m,
        run(lines, n) is Err,
    ensures
        run(lines, m) == run(lines, n),
    decreases m,
{
    if n < m {
        lemma_run_stays_failed(lines, n, (m - 1) as nat);
    }
}

/// Whether a glyph has as many rows as its bounding box is high.
pub open spec fn rows_match_height(glyph: Glyph) -> bool {
    glyph.bitmap_rows.len() == glyph.bounding_box.1
}

/// Whether `line`, where it closes a character, finds as many rows read as the bounding box
/// of that character is high.
pub open spec fn closes_at_declared_height(st: Loading, line: Seq<char>) -> bool {
    split(line, ' ')[0] == "ENDCHAR"@ ==> match st.bbx {
        Some(bbx) => st.rows.len() == bbx.1,
        None => true,
    }
}

/// Whether each character of a description has as many rows of bitmap as its `BBX` line
/// declares: what the format asks of a description, and the loader does not enforce.
pub open spec fn heights_as_declared(text: Seq<char>) -> bool {
    let lines = lines_of(text);
    forall|n: int|
        0 <= n < lines.len() ==> match #[trigger] run(lines, n as nat) {
            Ok(st) => closes_at_declared_height(st, lines[n]),
            Err(_) => true,
        }
}

/// Whether `line` closes the character that is open in `st`, and `next` has its glyph with
/// the rows and the bounding box read, beside the glyphs of `st`.
spec fn adds_closed_character(st: Loading, line: Seq<char>, next: Loading) -> bool {
    &&& split(line, ' ')[0] == "ENDCHAR"@
    &&& st.name matches Some(name)
    &&& st.bbx matches Some(bbx)
    &&& next.glyphs.contains_key(name as int)
    &&& next.glyphs[name as int].bitmap_rows == st.rows
    &&& next.glyphs[name as int].bounding_box == bbx
    &&& next.glyphs == st.glyphs.insert(name as int, next.glyphs[name as int])
}

/// A line leaves the table as it is, or closes a character and adds its glyph.
proof fn lemma_step_adds_at_most_one(st: Loading, line: Seq<char>)
    ensures
        match st.step(line) {
            Ok(next) => next.glyphs == st.glyphs || adds_closed_character(st, line, next),
            Err(_) => true,
        },
{
    if let Ok(next) = st.step(line) {
        if next.glyphs != st.glyphs {
            assert(st.close() == Ok::<Loading, Malformation>(next));
        }
    }
}

/// While each character closes at its declared height, each glyph in the loader's table has
/// as many rows as its bounding box is high.
proof fn lemma_table_keeps_heights(text: Seq<char>, n: nat)
    requires
        heights_as_declared(text),
        n <= lines_of(text).len(),
    ensures
        match run(lines_of(text), n) {
            Ok(st) => forall|code: int| #[trigger]
                st.glyphs.contains_key(code) ==> rows_match_height(st.glyphs[code]),
            Err(_) => true,
        },
    decreases n,
{
    if n > 0 {
        let lines = lines_of(text);
        lemma_table_keeps_heights(text, (n - 1) as nat);
        if let Ok(st) = run(lines, (n - 1) as nat) {
            assert(closes_at_declared_height(st, lines[n - 1]));
            lemma_step_adds_at_most_one(st, lines[n - 1]);
        }
    }
}

/// In a font loaded from a description whose characters each have as many rows of bitmap as
/// their `BBX` line declares, every glyph has as many rows as its bounding box is high.
pub proof fn lemma_loaded_glyphs_have_declared_height(text: Seq<char>, c: char)
    requires
        heights_as_declared(text),
        parse_font(text) is Ok,
        parse_font(text)->Ok_0.glyphs.contains_key(c as int),
    ensures
        rows_match_height(parse_font(text)->Ok_0.glyphs[c as int]),
{
    lemma_table_keeps_heights(text, lines_of(text).len());
}

/// Decoding is a function of the token: the same token stands for the same character each
/// time it is decoded. What is no hexadecimal digit has no part in it, so decoding what is
/// left of a token without such characters gives the character of the token.
pub proof fn lemma_decoding_is_deterministic(first: Seq<char>, second: Seq<char>)
    requires
        first == second,
    ensures
        code_point_of(first) == code_point_of(second),
        code_point_of(hex_digits_in(first)) == code_point_of(first),
{
    lemma_hex_digits_are_kept(first);
}

/// Leaving out what is no hexadecimal digit changes nothing in what is left of a token.
pub proof fn lemma_hex_digits_are_kept(token: Seq<char>)
    ensures
        hex_digits_in(hex_digits_in(token)) == hex_digits_in(token),
    decreases token.len(),
{
    reveal(Seq::filter);
    if token.len() > 0 {
        let head = hex_digits_in(token.drop_last());
        lemma_hex_digits_are_kept(token.drop_last());
        if is_hex_digit(token.last()) {
            assert(head.push(token.last()).drop_last() =~= head);
        }
    }
}

/// The code point of `c`: the key of its glyph in the table. It is a scalar value, as that of
/// every character is: at most `0x10FFFF`, and no surrogate.
fn code_point(c: char) -> (code: u32)
    ensures
        code == c as u32,
        code as int == c as int,
        0 <= c as int <= 0xD7FF || 0xE000 <= c as int <= 0x10FFFF,
{
    c as u32
}

/// The characters `chars` as a string.
fn string_of(chars: &[char]) -> (text: String)
    ensures
        text@ == chars@,
{
    let mut text = String::new();
    let mut i: usize = 0;
    while i < chars.len()
        invariant
            0 <= i <= chars.len(),
            text@ == chars@.take(i as int),
        decreases chars.len() - i,
    {
        push_char(&mut text, chars[i]);
        i = i + 1;
        assert(chars@.take(i as int) =~= chars@.take(i - 1).push(chars@[i - 1]));
    }
    assert(chars@.take(i as int) =~= chars@);
    text
}

/// Reads a version number.
fn read_version(s: &[char]) -> (version: Option<Version>)
    ensures
        version == version_of(s@),
{
    let cut = split_ranges(s, '.');
    let point = cut[0].1;
    assert(point <= s.len()) by {
        assert(cut@[0].0 <= cut@[0].1 <= s@.len());
    }
    let whole = slice_subrange(s, 0, point);
    let part = if point < s.len() {
        slice_subrange(s, point + 1, s.len())
    } else {
        slice_subrange(s, 0, 0)
    };
    proof {
        assert(whole@ =~= s@.take(point as int));
        if point < s.len() {
            assert(part@ =~= s@.skip(point + 1));
        } else {
            assert(part@ =~= Seq::<char>::empty());
        }
    }
    if whole.len() == 0 && part.len() == 0 {
        return None;
    }
    match read_digits(whole, 10, u64::MAX) {
        Some(integral) => match read_digits(part, 10, u64::MAX) {
            Some(fraction) => Some(Version { integral, fraction, fraction_digits: part.len() }),
            None => None,
        },
        None => None,
    }
}

/// Field `n` of a line that has been cut into fields, where it has that many.
fn field_at<'a>(line: &'a [char], ranges: &Vec<(usize, usize)>, n: usize) -> (field: Option<
    &'a [char],
>)
    requires
        ranges_within(ranges@, line@.len()),
    ensures
        match field {
            Some(f) => n < ranges@.len() && f@ == pieces(line@, ranges@)[n as int],
            None => n >= ranges@.len(),
        },
{
    if n < ranges.len() {
        let (from, to) = ranges[n];
        assert(ranges@[n as int].0 <= ranges@[n as int].1 <= line@.len());
        Some(slice_subrange(line, from, to))
    } else {
        None
    }
}

fn read_isize_at(line: &[char], ranges: &Vec<(usize, usize)>, n: usize) -> (value: Result<
    isize,
    Malformation,
>)
    requires
        ranges_within(ranges@, line@.len()),
    ensures
        value == isize_at(pieces(line@, ranges@), n as int),
{
    match field_at(line, ranges, n) {
        Some(field) => match read_isize(field) {
            Some(v) => Ok(v),
            None => Err(Malformation::InvalidNumber),
        },
        None => Err(Malformation::MissingField),
    }
}

fn read_usize_at(line: &[char], ranges: &Vec<(usize, usize)>, n: usize) -> (value: Result<
    usize,
    Malformation,
>)
    requires
        ranges_within(ranges@, line@.len()),
    ensures
        value == usize_at(pieces(line@, ranges@), n as int),
{
    match field_at(line, ranges, n) {
        Some(field) => match read_usize(field) {
            Some(v) => Ok(v),
            None => Err(Malformation::InvalidNumber),
        },
        None => Err(Malformation::MissingField),
    }
}

fn read_version_at(line: &[char], ranges: &Vec<(usize, usize)>, n: usize) -> (value: Result<
    Version,
    Malformation,
>)
    requires
        ranges_within(ranges@, line@.len()),
    ensures
        value == version_at(pieces(line@, ranges@), n as int),
{
    match field_at(line, ranges, n) {
        Some(field) => match read_version(field) {
            Some(v) => Ok(v),
            None => Err(Malformation::InvalidNumber),
        },
        None => Err(Malformation::MissingField),
    }
}

fn read_pair(line: &[char], ranges: &Vec<(usize, usize)>) -> (value: Result<Vec2, Malformation>)
    requires
        ranges_within(ranges@, line@.len()),
    ensures
        value == pair_at(pieces(line@, ranges@)),
{
    let a = read_isize_at(line, ranges, 1)?;
    let b = read_isize_at(line, ranges, 2)?;
    Ok((a, b))
}

fn read_triple(line: &[char], ranges: &Vec<(usize, usize)>) -> (value: Result<Vec3, Malformation>)
    requires
        ranges_within(ranges@, line@.len()),
    ensures
        value == triple_at(pieces(line@, ranges@)),
{
    let (a, b) = read_pair(line, ranges)?;
    let c = read_isize_at(line, ranges, 3)?;
    Ok((a, b, c))
}

fn read_quad(line: &[char], ranges: &Vec<(usize, usize)>) -> (value: Result<Vec4, Malformation>)
    requires
        ranges_within(ranges@, line@.len()),
    ensures
        value == quad_at(pieces(line@, ranges@)),
{
    let (a, b, c) = read_triple(line, ranges)?;
    let d = read_isize_at(line, ranges, 4)?;
    Ok((a, b, c, d))
}

/// The loader at work: `Loading` in the types that hold it.
struct Loader {
    reading_bitmap: bool,
    version: Option<Version>,
    description: Option<String>,
    size: Option<Vec3>,
    bounding_box: Option<Vec4>,
    properties: Vec<FontProperties>,
    char_count: Option<usize>,
    characters: HashMap<u32, Character>,
    char_name: Option<char>,
    char_encoding: Option<isize>,
    char_swidth: Option<Vec2>,
    char_dwidth: Option<Vec2>,
    char_bbx: Option<Vec4>,
    char_bytes: Vec<u8>,
}

impl View for Loader {
    type V = Loading;

    closed spec fn view(&self) -> Loading {
        Loading {
            reading_bitmap: self.reading_bitmap,
            version: self.version,
            description: match self.description {
                Some(text) => Some(text@),
                None => None,
            },
            size: self.size,
            bounding_box: self.bounding_box,
            properties: self.properties@,
            char_count: self.char_count,
            glyphs: glyphs_by_code(self.characters@),
            name: self.char_name,
            encoding: self.char_encoding,
            s_width: self.char_swidth,
            d_width: self.char_dwidth,
            bbx: self.char_bbx,
            rows: self.char_bytes@,
        }
    }
}

impl Loader {
    fn start() -> (loader: Loader)
        ensures
            loader@ == Loading::start(),
    {
        let loader = Loader {
            reading_bitmap: false,
            version: None,
            description: None,
            size: None,
            bounding_box: None,
            properties: Vec::new(),
            char_count: None,
            characters: HashMap::new(),
            char_name: None,
            char_encoding: None,
            char_swidth: None,
            char_dwidth: None,
            char_bbx: None,
            char_bytes: Vec::new(),
        };
        assert(loader@.glyphs =~= Map::<int, Glyph>::empty());
        loader
    }

    /// Closes the open record.
    fn close(self) -> (result: Result<Loader, Malformation>)
        ensures
            match result {
                Ok(next) => self@.close() == Ok::<Loading, Malformation>(next@),
                Err(e) => self@.close() == Err::<Loading, Malformation>(e),
            },
    {
        let ghost before = self@;
        let mut next = self;
        let widths = (next.char_swidth, next.char_dwidth);
        match (next.char_name, next.char_encoding, widths, next.char_bbx) {
            (Some(name), Some(encoding), (Some(s_width), Some(d_width)), Some(bbx)) => {
                let mut bytes: Vec<u8> = Vec::new();
                std::mem::swap(&mut bytes, &mut next.char_bytes);
                let c = Character { name, encoding, s_width, d_width, bbx, bytes };
                let ghost table = next.characters@;
                let key = code_point(name);
                next.characters.insert(key, c);
                next.reading_bitmap = false;
                next.char_name = None;
                next.char_encoding = None;
                next.char_swidth = None;
                next.char_dwidth = None;
                next.char_bbx = None;
                proof {
                    assert(glyphs_by_code(table) == before.glyphs);
                    assert(next.characters@ == table.insert(key, c));
                    assert(glyphs_by_code(table.insert(key, c)) =~= glyphs_by_code(table).insert(
                        name as int,
                        c@,
                    ));
                }
                Ok(next)
            },
            _ => Err(Malformation::IncompleteCharacter),
        }
    }

    /// Takes in one line.
    fn feed(self, line: &[char]) -> (result: Result<Loader, Malformation>)
        ensures
            match result {
                Ok(next) => self@.step(line@) == Ok::<Loading, Malformation>(next@),
                Err(e) => self@.step(line@) == Err::<Loading, Malformation>(e),
            },
    {
        let fields = split_ranges(line, ' ');
        let key = slice_subrange(line, 0, fields[0].1);
        assert(key@ == split(line@, ' ')[0]) by {
            assert(fields@[0].0 <= fields@[0].1 <= line@.len());
            assert(pieces(line@, fields@)[0] == key@);
        }
        let mut next = self;
        if is_word(key, "STARTFONT") {
            next.version = Some(read_version_at(line, &fields, 1)?);
        } else if is_word(key, "FONT") {
            if fields[0].1 < line.len() {
                let rest = slice_subrange(line, fields[0].1 + 1, line.len());
                assert(rest@ =~= line@.skip(fields@[0].1 + 1));
                next.description = Some(string_of(rest));
            } else {
                return Err(Malformation::MissingField);
            }
        } else if is_word(key, "SIZE") {
            next.size = Some(read_triple(line, &fields)?);
        } else if is_word(key, "FONTBOUNDINGBOX") {
            next.bounding_box = Some(read_quad(line, &fields)?);
        } else if is_word(key, "FONT_ASCENT") {
            let v = read_usize_at(line, &fields, 1)?;
            next.properties.push(FontProperties::FontAscent(v));
        } else if is_word(key, "FONT_DESCENT") {
            let v = read_usize_at(line, &fields, 1)?;
            next.properties.push(FontProperties::FontDescent(v));
        } else if is_word(key, "CHARS") {
            next.char_count = Some(read_usize_at(line, &fields, 1)?);
        } else if is_word(key, "STARTCHAR") {
            match field_at(line, &fields, 1) {
                Some(name) => {
                    next.char_name = Some(decode_code_point(name));
                },
                None => {
                    return Err(Malformation::MissingField);
                },
            }
        } else if is_word(key, "ENCODING") {
            next.char_encoding = Some(read_isize_at(line, &fields, 1)?);
        } else if is_word(key, "SWIDTH") {
            next.char_swidth = Some(read_pair(line, &fields)?);
        } else if is_word(key, "DWIDTH") {
            next.char_dwidth = Some(read_pair(line, &fields)?);
        } else if is_word(key, "BBX") {
            next.char_bbx = Some(read_quad(line, &fields)?);
        } else if is_word(key, "BITMAP") {
            next.reading_bitmap = true;
        } else if is_word(key, "ENDCHAR") {
            return next.close();
        } else if next.reading_bitmap {
            match read_hex_byte(line) {
                Some(row) => {
                    next.char_bytes.push(row);
                },
                None => {
                    return Err(Malformation::InvalidNumber);
                },
            }
        }
        Ok(next)
    }

    /// Makes the font of what has been read of a description of `lines` lines.
    fn finish(self, lines: usize) -> (result: Result<Font, FontLoadError>)
        ensures
            match result {
                Ok(font) => self@.finish() == Some(font@),
                Err(e) => self@.finish() is None && e == (FontLoadError::MalformedRecord {
                    line_number: lines,
                    reason: Malformation::MissingDirective,
                }),
            },
    {
        match (self.version, self.description, self.size, self.bounding_box, self.char_count) {
            (Some(version), Some(description), Some(size), Some(bounding_box), Some(char_count)) =>
            Ok(
                Font {
                    version,
                    description,
                    size,
                    bounding_box,
                    properties: self.properties,
                    char_count,
                    characters: self.characters,
                },
            ),
            _ => Err(
                FontLoadError::MalformedRecord {
                    line_number: lines,
                    reason: Malformation::MissingDirective,
                },
            ),
        }
    }
}

impl Font {
    /// Reads a font from the text of its description.
    pub fn new(source: &str) -> (result: Result<Font, FontLoadError>)
        ensures
            match result {
                Ok(font) => parse_font(source@) == Ok::<FontView, FontLoadError>(font@),
                Err(e) => parse_font(source@) == Err::<FontView, FontLoadError>(e),
            },
    {
        let text = chars_of(source);
        let lines = line_ranges(text.as_slice());
        let mut loader = Loader::start();
        let mut n: usize = 0;
        while n < lines.len()
            invariant
                0 <= n <= lines.len(),
                text@ == source@,
                ranges_within(lines@, text@.len()),
                pieces(text@, lines@) == lines_of(source@),
                run(lines_of(source@), n as nat) == Ok::<Loading, FontLoadError>(loader@),
            decreases lines.len() - n,
        {
            let (from, to) = lines[n];
            assert(lines@[n as int].0 <= lines@[n as int].1 <= text@.len());
            let line = slice_subrange(text.as_slice(), from, to);
            assert(line@ == lines_of(source@)[n as int]) by {
                assert(pieces(text@, lines@)[n as int] == line@);
            }
            match loader.feed(line) {
                Ok(next) => {
                    loader = next;
                },
                Err(reason) => {
                    proof {
                        lemma_run_stays_failed(
                            lines_of(source@),
                            (n + 1) as nat,
                            lines_of(source@).len(),
                        );
                    }
                    return Err(FontLoadError::MalformedRecord { line_number: n + 1, reason });
                },
            }
            n = n + 1;
        }
        loader.finish(lines.len())
    }

    /// The bounding box that the font declares for all of its glyphs.
    pub fn bounding_box(&self) -> (bounds: Vec4)
        ensures
            bounds == self@.bounding_box,
    {
        self.bounding_box
    }

    /// The version of the format that the description is written in.
    pub fn version(&self) -> (version: Version)
        ensures
            version == self@.version,
    {
        self.version
    }

    /// What the font says it is.
    pub fn description(&self) -> (text: &str)
        ensures
            text@ == self@.description,
    {
        self.description.as_str()
    }

    /// The three numbers of the `SIZE` line.
    pub fn size(&self) -> (size: Vec3)
        ensures
            size == self@.size,
    {
        self.size
    }

    /// The named numbers that the font declares, in the order of the description.
    pub fn properties(&self) -> (properties: &[FontProperties])
        ensures
            properties@ == self@.properties,
    {
        self.properties.as_slice()
    }

    /// The number of characters that the description says it holds.
    pub fn char_count(&self) -> (count: usize)
        ensures
            count == self@.char_count,
    {
        self.char_count
    }

    /// The glyph for `c`, or `UnknownGlyph` where the font has none.
    pub fn get_character(&self, c: char) -> (found: Result<&Character, RasterError>)
        ensures
            match found {
                Ok(character) => self@.glyphs.contains_key(c as int) && self@.glyphs[c as int]
                    == character@,
                Err(e) => !self@.glyphs.contains_key(c as int) && e == RasterError::UnknownGlyph(c),
            },
    {
        match self.characters.get(&code_point(c)) {
            Some(character) => Ok(character),
            None => Err(RasterError::UnknownGlyph(c)),
        }
    }
}

} // verus!
