//! A parser combinator library with a small arithmetic language built on it.
//!
//! Every parser carries its meaning as a function from characters to a result,
//! and its `parse` is verified to compute exactly that meaning. The toy language
//! (numbers, variables, `+ - * /`, parentheses, assignments) is parsed by
//! recursive parsers whose grammar is written out as spec functions, and its
//! evaluator is verified against a spec of evaluation.
//!
//! `seq` and `map` are reached by their paths, `combinators::seq` and
//! `combinators::map`.
pub mod combinators;
pub mod evaluation;
pub mod parser;
pub mod text;
pub mod toy_language;

pub use combinators::{
    alphanumeric, between, char, choice, digit, letter, many, many1, number, optional, satisfy,
    skip_whitespace, string, whitespace, AlphanumericChar, Between, Char, Choice, Digit,
    DigitsToNumber, Discard, Letter, Many, Many1, Mapped, Number, Optional, Satisfy, Sequence,
    SkipWhitespace, Str, WhitespaceChar,
};
pub use evaluation::{evaluate, evaluate_checked, parse_and_evaluate, parse_and_evaluate_checked, Context};
pub use parser::{parse_error, CharPredicate, Input, Mapper, ParseError, ParseResult, Parser};
pub use text::{Alphabetic, Alphanumeric, AsciiDigit, Whitespace};
pub use toy_language::{
    assignment, expression, factor, identifier, primary, statement, term, Assignment, BinOp, Expr,
    Factor, Identifier, JoinChars, Primary, Statement, Term,
};
