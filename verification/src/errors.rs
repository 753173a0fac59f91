//! What drawing and font loading report when they fail.

use crate::scan::push_decimal;
use crate::scan::decimal_digits;
use vstd::prelude::*;
use vstd::string::StringExecFns;

verus! {

/// A pixel write that fell outside the display, with the coordinate that was out of range.
#[derive(Debug, Clone, Copy, PartialEq, Eq, Structural)]
pub enum DrawOutOfBoundsError {
    X(usize),
    Y(usize),
}

impl DrawOutOfBoundsError {
    /// The text of the message.
    pub open spec fn message(self) -> Seq<char> {
        match self {
            DrawOutOfBoundsError::X(val) => "Tried drawing out of bound at x = "@ + decimal_digits(
                val as nat,
            ),
            DrawOutOfBoundsError::Y(val) => "Tried drawing out of bound at y = "@ + decimal_digits(
                val as nat,
            ),
        }
    }

    /// The error as a message for a person.
    pub fn to_string(&self) -> (text: String)
        ensures
            text@ == self.message(),
    {
        match self {
            DrawOutOfBoundsError::X(val) => {
                let mut text = String::from_str("Tried drawing out of bound at x = ");
                push_decimal(&mut text, *val);
                text
            },
            DrawOutOfBoundsError::Y(val) => {
                let mut text = String::from_str("Tried drawing out of bound at y = ");
                push_decimal(&mut text, *val);
                text
            },
        }
    }
}

/// The error of a pixel write as the error of the drawing that made the write.
pub open spec fn wrap_pixel_error(e: DrawOutOfBoundsError) -> RasterError {
    match e {
        DrawOutOfBoundsError::X(value) => RasterError::OutOfBounds { axis: Axis::X, value },
        DrawOutOfBoundsError::Y(value) => RasterError::OutOfBounds { axis: Axis::Y, value },
    }
}

/// One of the two directions of a pixel buffer.
#[derive(Debug, Clone, Copy, PartialEq, Eq, Structural)]
pub enum Axis {
    X,
    Y,
}

/// Why a text could not be drawn to its end.
#[derive(Debug, Clone, Copy, PartialEq, Eq, Structural)]
pub enum RasterError {
    /// A set bit of a glyph lies outside the buffer: on which axis, and at which coordinate.
    OutOfBounds { axis: Axis, value: usize },
    /// The font has no glyph for this character.
    UnknownGlyph(char),
}

impl From<DrawOutOfBoundsError> for RasterError {
    fn from(e: DrawOutOfBoundsError) -> (wrapped: RasterError)
        ensures
            wrapped == wrap_pixel_error(e),
    {
        match e {
            DrawOutOfBoundsError::X(value) => RasterError::OutOfBounds { axis: Axis::X, value },
            DrawOutOfBoundsError::Y(value) => RasterError::OutOfBounds { axis: Axis::Y, value },
        }
    }
}

impl vstd::std_specs::convert::FromSpecImpl<DrawOutOfBoundsError> for RasterError {
    open spec fn obeys_from_spec() -> bool {
        true
    }

    open spec fn from_spec(e: DrawOutOfBoundsError) -> RasterError {
        wrap_pixel_error(e)
    }
}

/// What is wrong with a line of a font description.
#[derive(Debug, Clone, Copy, PartialEq, Eq, Structural)]
pub enum Malformation {
    /// The directive is not followed by all of its fields.
    MissingField,
    /// A field that should be a number is not one, or is too large.
    InvalidNumber,
    /// `ENDCHAR` closes a character that lacks its name, encoding, widths or bounding box.
    IncompleteCharacter,
    /// The description ends without one of the directives that every font carries.
    MissingDirective,
}

/// Why a font could not be loaded.
#[derive(Debug, Clone, Copy, PartialEq, Eq, Structural)]
pub enum FontLoadError {
    /// The description could not be read.
    Io,
    /// The description is malformed at this line, counted from 1.
    MalformedRecord { line_number: usize, reason: Malformation },
}

} // verus!
