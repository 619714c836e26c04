//! Pairs of dimensions, and their text form `<width>x<height>`.

use core::num::ParseIntError;
use vstd::prelude::*;
use vstd::string::{to_string_from_display_ensures, StrSliceExecFns, StringExecFns};

verus! {

#[verifier::external_type_specification]
#[verifier::external_body]
pub struct ExParseIntError(ParseIntError);

/// A width and a height, in this order.
#[derive(Debug, PartialEq, Eq, Clone, Copy)]
pub struct Size<T>(pub T, pub T);

/// Why a text is not the text form of a [`Size`].
#[derive(Debug, PartialEq, Eq, Clone)]
pub enum SizeError<ParseErr> {
    /// The text, which holds no `x` between a width and a height.
    MissingSeparator(String),
    /// Why the width, or else the height, is not a number.
    DimensionParseError(ParseErr),
}

/// The number that a text of decimal digits writes.
pub open spec fn decimal_value(digits: Seq<char>) -> nat
    decreases digits.len(),
{
    if digits.len() == 0 {
        0
    } else {
        10 * decimal_value(digits.drop_last()) + (digits.last() as u32 - '0' as u32) as nat
    }
}

/// The digits of a number text: all of it but a plus sign at its front.
pub open spec fn digits_of(text: Seq<char>) -> Seq<char> {
    if text.len() > 0 && text[0] == '+' {
        text.drop_first()
    } else {
        text
    }
}

/// Whether a text writes a number: decimal digits, at least one, after at most one plus sign.
pub open spec fn is_number(text: Seq<char>) -> bool {
    &&& digits_of(text).len() > 0
    &&& forall|i: int| 0 <= i < digits_of(text).len() ==> '0' <= #[trigger] digits_of(text)[i] <= '9'
}

/// The dimension that a text writes, where it writes one: a number that fits in 32 bits.
pub open spec fn dimension_of(text: Seq<char>) -> Option<u32> {
    if is_number(text) && decimal_value(digits_of(text)) <= u32::MAX {
        Some(decimal_value(digits_of(text)) as u32)
    } else {
        None
    }
}

/// The error with which `str::parse` turns down a text that writes no dimension.
pub uninterp spec fn dimension_error(text: Seq<char>) -> ParseIntError;

/// `str::parse::<u32>`: the number that `text` writes in decimal digits, after at most one
/// plus sign; an error where `text` is empty, holds anything else, or writes a number that
/// does not fit in 32 bits.
#[verifier::external_body]
fn parse_dimension(text: &str) -> (parsed: Result<u32, ParseIntError>)
    ensures
        match parsed {
            Ok(dimension) => dimension_of(text@) == Some(dimension),
            Err(error) => dimension_of(text@) is None && error == dimension_error(text@),
        },
{
    text.parse::<u32>()
}

/// The place of the first `x` in a text, or the length of the text where it holds none.
pub open spec fn separator_position(text: Seq<char>) -> int
    decreases text.len(),
{
    if text.len() == 0 || text[0] == 'x' {
        0
    } else {
        1 + separator_position(text.drop_first())
    }
}

/// The place `i` is that of the first `x` of a text where `i` holds an `x`, or is the end of
/// the text, and no place before `i` holds one.
pub proof fn lemma_separator_found(text: Seq<char>, i: int)
    requires
        0 <= i <= text.len(),
        i < text.len() ==> text[i] == 'x',
        forall|k: int| 0 <= k < i ==> text[k] != 'x',
    ensures
        separator_position(text) == i,
    decreases text.len(),
{
    if text.len() > 0 && text[0] != 'x' {
        let rest = text.drop_first();
        assert forall|k: int| 0 <= k < i - 1 implies rest[k] != 'x' by {
            assert(rest[k] == text[k + 1]);
        }
        lemma_separator_found(rest, i - 1);
    }
}

/// The text before the first `x` of a text: its width.
pub open spec fn width_text(text: Seq<char>) -> Seq<char> {
    text.subrange(0, separator_position(text))
}

/// The text after the first `x` of a text that holds one: its height.
pub open spec fn height_text(text: Seq<char>) -> Seq<char> {
    text.subrange(separator_position(text) + 1, text.len() as int)
}

impl Size<u32> {
    /// Reads a size from its text form: a width, an `x`, a height.
    ///
    /// The first `x` in the text separates the two. A text without `x` is turned down; so is
    /// one whose width is no dimension, with the error of the width, and one whose width is a
    /// dimension and whose height is none, with the error of the height.
    pub fn from_str(string: &str) -> (size: Result<Self, SizeError<ParseIntError>>)
        ensures
            match size {
                Ok(size) => {
                    &&& separator_position(string@) < string@.len()
                    &&& dimension_of(width_text(string@)) == Some(size.0)
                    &&& dimension_of(height_text(string@)) == Some(size.1)
                },
                Err(SizeError::MissingSeparator(text)) => {
                    &&& separator_position(string@) == string@.len()
                    &&& forall|i: int| 0 <= i < string@.len() ==> string@[i] != 'x'
                    &&& text@ == string@
                },
                Err(SizeError::DimensionParseError(error)) => {
                    &&& separator_position(string@) < string@.len()
                    &&& if dimension_of(width_text(string@)) is None {
                        error == dimension_error(width_text(string@))
                    } else {
                        &&& dimension_of(height_text(string@)) is None
                        &&& error == dimension_error(height_text(string@))
                    }
                },
            },
    {
        // Find the separator.
        let length: usize = string.unicode_len();
        let mut separator_pos: usize = 0;
        while separator_pos < length && string.get_char(separator_pos) != 'x'
            invariant
                length == string@.len(),
                separator_pos <= length,
                forall|k: int| 0 <= k < separator_pos ==> string@[k] != 'x',
            decreases length - separator_pos,
        {
            separator_pos = separator_pos + 1;
        }
        proof {
            lemma_separator_found(string@, separator_pos as int);
        }
        if separator_pos == length {
            return Err(SizeError::MissingSeparator(string.to_owned()));
        }
        // Parse the width and height.

        let width: u32 = match parse_dimension(string.substring_char(0, separator_pos)) {
            Ok(width) => width,
            Err(error) => {
                return Err(SizeError::DimensionParseError(error));
            },
        };
        let height: u32 = match parse_dimension(
            string.substring_char(separator_pos + 1, length),
        ) {
            Ok(height) => height,
            Err(error) => {
                return Err(SizeError::DimensionParseError(error));
            },
        };
        Ok(Size(width, height))
    }
}

impl SizeError<ParseIntError> {
    /// The message of the error, for a reader.
    ///
    /// For a text without separator, the message names the text. For a dimension that is no
    /// number, it is the message of the error that turned the dimension down.
    pub fn message(&self) -> (text: String)
        ensures
            match self {
                SizeError::MissingSeparator(string) => text@
                    == "invalid size: no 'x' separator found in "@ + string@,
                SizeError::DimensionParseError(error) => to_string_from_display_ensures::<
                    ParseIntError,
                >(error, text),
            },
    {
        match self {
            SizeError::MissingSeparator(string) => String::from_str(
                "invalid size: no 'x' separator found in ",
            ).concat(string.as_str()),
            SizeError::DimensionParseError(error) => error.to_string(),
        }
    }
}

impl<ParseErr> SizeError<ParseErr> {
    /// The error that lies behind this one: that of the dimension, where a dimension was
    /// turned down.
    pub fn source(&self) -> (cause: Option<&ParseErr>)
        ensures
            match self {
                SizeError::MissingSeparator(_) => cause is None,
                SizeError::DimensionParseError(error) => cause == Some(error),
            },
    {
        match self {
            SizeError::MissingSeparator(_) => None,
            SizeError::DimensionParseError(error) => Some(error),
        }
    }
}

} // verus!
