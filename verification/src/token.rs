//! Token categories and classified spans emitted by the tokenizer.

use vstd::prelude::*;

verus! {

/// Whether a comment runs to the end of its line or is a (possibly nested)
/// block delimited by `/*` and `*/`.
#[derive(Clone, Copy, Debug, PartialEq, Eq, Structural)]
pub enum CommentKind {
    Line,
    Block,
}

/// The closed set of semantic categories a lexeme can be classified into.
#[derive(Clone, Copy, Debug, PartialEq, Eq, Structural)]
pub enum TokenCategory {
    Keyword,
    Identifier,
    StringLiteral,
    RawStringLiteral,
    ByteStringLiteral,
    NumericLiteral,
    CharLiteral,
    Comment(CommentKind),
    Attribute,
    Lifetime,
    MacroInvocation,
    Operator,
    Punctuation,
    Whitespace,
    Unknown,
}

/// A classified lexeme: a category together with the half-open byte range
/// `[start, end)` it occupies in the input. `unterminated` marks a construct
/// (string, char, raw string, block comment, attribute) that was still open
/// at end of input; such a lexeme spans to the end of the input.
#[derive(Clone, Copy, Debug, PartialEq, Eq, Structural)]
pub struct Token {
    pub category: TokenCategory,
    pub start: usize,
    pub end: usize,
    pub unterminated: bool,
}

} // verus!
