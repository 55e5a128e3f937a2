//! Lexical diagnostics.
//!
//! Diagnostics are purely additive: the scanner records them as it goes
//! and never stops on one. Each carries the line/column at the time the
//! problem was detected and the full source line as context.

use vstd::prelude::*;

verus! {

/// The kinds of lexical problems the scanner can report.
#[derive(Debug, Clone, PartialEq)]
pub enum LexErrorType {
    UnexpectedCharacter(char),
    UnterminatedString,
    InvalidEscapeSequence(char),
    InvalidEscape(char),
    MalformedNumber,
    TooManyDecimalPoints,
    TrailingDecimalPoint,
    EmptyCharLiteral,
    UnterminatedChar,
    TooManyChars,
}

/// One recorded diagnostic: what went wrong, where, and the source line it
/// happened on.
#[derive(Debug, Clone, PartialEq)]
pub struct LexError {
    pub error_type: LexErrorType,
    pub line: usize,
    pub column: usize,
    pub snippet: String,
}

/// The model of a `LexError`. `LexErrorType` carries only plain values, so
/// the model reuses it directly.
pub ghost struct LexErrorModel {
    pub error_type: LexErrorType,
    pub line: nat,
    pub column: nat,
    pub snippet: Seq<char>,
}

impl View for LexError {
    type V = LexErrorModel;

    open spec fn view(&self) -> LexErrorModel {
        LexErrorModel {
            error_type: self.error_type,
            line: self.line as nat,
            column: self.column as nat,
            snippet: self.snippet@,
        }
    }
}

impl DeepView for LexError {
    type V = LexErrorModel;

    open spec fn deep_view(&self) -> LexErrorModel {
        self@
    }
}

} // verus!
