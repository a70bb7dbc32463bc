//! The token alphabet of the language.

use vstd::prelude::*;

verus! {

#[derive(Clone, Copy, Debug, PartialEq, Eq, Structural)]
pub enum Token {
    /// `|<`
    Load,
    /// `<=`
    Assign,
    /// `=>`
    Overwrite,
    /// `<=>`
    Swap,

    /// `&`
    And,
    /// `|`
    Or,
    /// `>-<`
    Xor,
    /// `+`
    Plus,
    /// `-`
    Minus,
    /// `*`
    Asterisk,
    /// `%`
    Percent,
    /// `^`
    Circumflex,
    /// `><`
    Unequal,
    /// `=`
    Equal,
    /// `<`
    LessThan,
    /// `=<`
    LessThanOrEqual,
    /// `>`
    GreaterThan,
    /// `>=`
    GreaterThanOrEqual,

    /// `?`
    Truthy,
    /// `!`
    Falsy,
    /// `$`
    Exists,
    /// `\u{00B0}` (degree sign)
    Empty,

    /// `{`
    CurlyBracketOpen,
    /// `}`
    CurlyBracketClose,
    /// `[`
    SquareBracketOpen,
    /// `]`
    SquareBracketClose,

    /// `@`
    At,
    /// `\`
    Backslash,
    /// `~`
    Tilde,

    /// `\u{00A7}` (section sign): one extra dereference
    Reader,

    /// `[a-zA-Z_][a-zA-Z0-9_]*`
    Symbol,

    /// `null`
    Null,
    /// `true`
    True,
    /// `false`
    False,
    /// `\u{00B5}` (micro sign): the time-now literal
    Mu,
    /// `/.../`
    StringLiteral,
    /// `[0-9]+`
    IntegerLiteral,
    /// `[0-9]+.[0-9]+`
    FloatLiteral,
}

} // verus!
