//! Command-line options as plain values, and the check of the color option.

use vstd::prelude::*;
use vstd::string::StrSliceExecFns;
use crate::chess_structs::Color;

verus! {

/// What an option expected, and what it got.
pub struct ExpectedActual {
    pub expected: String,
    pub actual: String,
}

pub enum ArgError {
    /// A required option is missing.
    Required(String),
    /// An option has a value outside its expected form.
    Invalid(String, ExpectedActual),
}

/// The engine's options: the color it plays and an optional position file.
pub struct FryArgs {
    pub color: Color,
    pub load_file: Option<String>,
}

/// The color an option value names: `w` for White, `b` for Black.
pub open spec fn color_of_option(s: Seq<char>) -> Option<Color> {
    if s == seq!['w'] {
        Some(Color::White)
    } else if s == seq!['b'] {
        Some(Color::Black)
    } else {
        None
    }
}

/// Reads the value of the color option. Any value other than `w` or `b` is an
/// `Invalid` error that carries the value.
pub fn parse_color(value: &str) -> (r: Result<Color, ArgError>)
    ensures
        color_of_option(value@) matches Some(c) ==> r matches Ok(c2) && c2 == c,
        color_of_option(value@).is_none() ==> (r matches Err(ArgError::Invalid(_, ea))
            && ea.actual@ == value@),
{
    if value.unicode_len() == 1 {
        let c = value.get_char(0);
        if c == 'w' {
            assert(value@ =~= seq!['w']);
            return Ok(Color::White);
        } else if c == 'b' {
            assert(value@ =~= seq!['b']);
            return Ok(Color::Black);
        }
        assert(value@ != seq!['w'] && value@ != seq!['b']) by {
            assert(value@[0] == c);
        }
    }
    Err(
        ArgError::Invalid(
            "Invalid value for color.".to_owned(),
            ExpectedActual { expected: "'w' or 'b'".to_owned(), actual: value.to_owned() },
        ),
    )
}

} // verus!
