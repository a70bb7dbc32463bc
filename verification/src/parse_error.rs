//! Parse errors and their source locations.

use vstd::prelude::*;

use core::ops::Range;

use crate::token::Token;

verus! {

/// A character span in the source text.
#[derive(Debug, Clone, Copy, PartialEq, Eq, Structural)]
pub struct CodeArea(pub usize, pub usize);

impl CodeArea {
    pub fn from_span(range: Range<usize>) -> (r: Self)
        ensures
            r.0 == range.start,
            r.1 == range.end,
    {
        CodeArea(range.start, range.end)
    }
}

#[derive(Debug, Clone)]
pub enum ParsingError {
    CustomError { text: String, area: CodeArea },
    SyntaxError { expected: String, found: Token, area: CodeArea },
    UnexpectedEndOfFile { area: CodeArea },
}

/// The mathematical reading of a parse error.
pub enum AErr {
    Custom(Seq<char>, (nat, nat)),
    Syntax(Seq<char>, Token, (nat, nat)),
    Eof((nat, nat)),
}

pub open spec fn err_abs(e: ParsingError) -> AErr {
    match e {
        ParsingError::CustomError { text, area } => AErr::Custom(
            text@,
            (area.0 as nat, area.1 as nat),
        ),
        ParsingError::SyntaxError { expected, found, area } => AErr::Syntax(
            expected@,
            found,
            (area.0 as nat, area.1 as nat),
        ),
        ParsingError::UnexpectedEndOfFile { area } => AErr::Eof((area.0 as nat, area.1 as nat)),
    }
}

pub type ParseResult<T> = Result<T, ParsingError>;

} // verus!
