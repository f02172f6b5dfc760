//! The error kinds that tokenization and parsing report.
//!
//! Every fallible operation of this crate returns one of these kinds instead
//! of panicking: malformed input is an ordinary error value, never a fault.

use vstd::prelude::*;

verus! {

/// One kind of failure of tokenization or parsing.
#[derive(Debug, Clone, Copy, PartialEq, Eq, Structural)]
pub enum ParseError {
    /// A numeric literal holds more than one decimal point.
    MalformedNumber,
    /// A token that cannot start an expression stood where an expression was expected.
    UnexpectedToken,
    /// A parenthesized expression is not closed by `)`.
    UnmatchedParenthesis,
    /// A call-argument list held a token that is neither `,` nor `)`.
    ExpectedArgumentSeparatorOrClose,
    /// A prototype is missing its name, a parenthesis, or holds a non-identifier parameter.
    MalformedPrototype,
    /// A symbol stood where an operator was expected but names no operator.
    UnknownOperator,
    /// The input nests deeper than the parser's recursion bound.
    NestingTooDeep,
}

} // verus!
