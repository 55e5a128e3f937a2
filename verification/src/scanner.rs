//! The executable scanner, verified against the model in `scan_model`.
//!
//! The scanner owns a cursor over the characters of the source, the
//! current position, the current mode, and the diagnostics collected so
//! far. `scan_tokens` drives one mode function per iteration until the
//! characters are exhausted, then appends the terminal `Eof` token.

use vstd::prelude::*;
use vstd::string::StrSliceExecFns;

use crate::char_classes::{
    is_alphabetic_char, is_alphanumeric_char, is_digit_char, is_whitespace_char,
};
use crate::lex_errors::{LexError, LexErrorType};
use crate::position::Position;
use crate::scan_model::{
    block_end, char_value, col_at, dot_count, eof_model, err_at, ident_end, keyword_kind,
    lemma_ident_end_bounds, lemma_number_end_bounds, lemma_pos_bounds, lemma_step_bounds,
    lemma_ws_end_bounds, line_at, line_end, line_start, next_newline, number_end, number_errs,
    run, scan_spec, skip_to_quote, snippet_line, step_char, step_normal, step_of, step_string,
    str_scan, str_terminated, two_char_op, ws_end, ModeModel, StModel, StepRes,
};
use crate::tokens::{Token, TokenType};

verus! {

broadcast use crate::char_classes::lemma_seq_char_typed;

/// The scanner's current sub-grammar: normal code, inside a string or
/// character literal, or inside a comment.
pub enum ScannerMode {
    Normal,
    StringLiteral,
    CharLiteral,
    BlockComment,
    LineComment,
}

/// A mode-based scanner over one source text. All state is owned by the
/// one scan invocation; nothing survives it but the returned tokens and
/// the recorded diagnostics.
pub struct Scanner<'a> {
    /// The characters of the source, in order.
    pub chars: Vec<char>,
    /// How many characters have been consumed.
    pub index: usize,
    /// Where the token currently being scanned started.
    pub tok_start: usize,
    /// The position after the consumed characters.
    pub position: Position,
    /// The diagnostics recorded so far, in order.
    pub errors: Vec<LexError>,
    /// The current mode.
    pub mode: ScannerMode,
    /// The original source text, kept for diagnostic snippets.
    pub source: &'a str,
}

impl<'a> Scanner<'a> {
    /// The source as a character sequence.
    pub open spec fn src(&self) -> Seq<char> {
        self.chars@
    }

    /// The machine state this scanner is in.
    pub open spec fn st(&self) -> StModel {
        StModel {
            i: self.index as int,
            mode: match self.mode {
                ScannerMode::Normal => ModeModel::Normal,
                ScannerMode::StringLiteral => ModeModel::StringLit { start: self.tok_start as int },
                ScannerMode::CharLiteral => ModeModel::CharLit { start: self.tok_start as int },
                ScannerMode::BlockComment => ModeModel::BlockComment,
                ScannerMode::LineComment => ModeModel::LineComment,
            },
        }
    }

    /// Well-formedness: the cursor is inside the text, the token start is
    /// behind the cursor, and the position is the one determined by the
    /// consumed prefix.
    pub open spec fn wf(&self) -> bool {
        &&& self.source@ == self.chars@
        &&& self.index <= self.chars.len()
        &&& self.tok_start <= self.index
        &&& self.chars.len() < usize::MAX
        &&& self.position.line == line_at(self.src(), self.index as int)
        &&& self.position.column == col_at(self.src(), self.index as int)
    }

    /// Everything but the cursor, the token start and the mode is kept.
    pub open spec fn same_text_and_errors(&self, other: &Scanner<'a>) -> bool {
        &&& self.chars@ == other.chars@
        &&& self.source == other.source
        &&& self.errors@ == other.errors@
        &&& self.errors.deep_view() == other.errors.deep_view()
    }

    /// A fresh scanner over `source`, in normal mode at line 1, column 1.
    ///
    /// The source must be non-empty: empty input is a precondition
    /// violation, not a recoverable error.
    pub fn new(source: &'a str) -> (sc: Scanner<'a>)
        requires
            source@.len() > 0,
            source@.len() < usize::MAX,
        ensures
            sc.wf(),
            sc.src() == source@,
            sc.source == source,
            sc.index == 0,
            sc.tok_start == 0,
            sc.errors@ == Seq::<LexError>::empty(),
            sc.st() == (StModel { i: 0, mode: ModeModel::Normal }),
    {
        let n = source.unicode_len();
        let mut chars: Vec<char> = Vec::new();
        let mut i: usize = 0;
        while i < n
            invariant
                i <= n,
                n == source@.len(),
                chars@ =~= source@.subrange(0, i as int),
            decreases n - i,
        {
            chars.push(source.get_char(i));
            i = i + 1;
            proof {
                assert(chars@ =~= source@.subrange(0, i as int));
            }
        }
        proof {
            assert(chars@ =~= source@);
        }
        Scanner {
            chars,
            index: 0,
            tok_start: 0,
            position: Position::new(),
            errors: Vec::new(),
            mode: ScannerMode::Normal,
            source,
        }
    }

    /// Switch the mode; nothing else changes.
    pub(crate) fn set_scanner_mode(&mut self, mode: ScannerMode)
        ensures
            *final(self) == (Scanner { mode, ..*old(self) }),
    {
        self.mode = mode;
    }

    /// The next character, if any, without consuming it.
    pub(crate) fn peek(&self) -> (r: Option<char>)
        ensures
            self.index < self.chars.len() ==> r == Some(self.chars@[self.index as int]),
            self.index >= self.chars.len() ==> r is None,
    {
        if self.index < self.chars.len() {
            Some(self.chars[self.index])
        } else {
            None
        }
    }

    /// Whether the character cursor is exhausted.
    pub(crate) fn is_at_end(&self) -> (r: bool)
        ensures
            r == (self.index == self.chars.len()),
    {
        self.index == self.chars.len()
    }

    /// Consume one character, keeping the position in step with the
    /// consumed prefix.
    pub(crate) fn advance(&mut self) -> (r: Option<char>)
        requires
            old(self).wf(),
        ensures
            final(self).wf(),
            old(self).index < old(self).chars.len() ==> {
                &&& r == Some(old(self).chars@[old(self).index as int])
                &&& final(self).index == old(self).index + 1
            },
            old(self).index == old(self).chars.len() ==> r is None && final(self).index == old(
                self,
            ).index,
            final(self).same_text_and_errors(old(self)),
            final(self).mode == old(self).mode,
            final(self).tok_start == old(self).tok_start,
    {
        if self.index < self.chars.len() {
            let c = self.chars[self.index];
            proof {
                lemma_pos_bounds(self.src(), self.index as int);
            }
            self.index = self.index + 1;
            if c == '\n' {
                self.position.increment_line();
                self.position.increment_column();
            } else {
                self.position.increment_column();
            }
            Some(c)
        } else {
            None
        }
    }

    /// Begin a new token at the cursor.
    pub(crate) fn start_token(&mut self)
        ensures
            *final(self) == (Scanner { tok_start: old(self).index, ..*old(self) }),
    {
        self.tok_start = self.index;
    }

    /// The text consumed for the current token.
    pub(crate) fn lexeme_string(&self) -> (r: String)
        requires
            self.wf(),
        ensures
            r@ == self.src().subrange(self.tok_start as int, self.index as int),
    {
        self.source.substring_char(self.tok_start, self.index).to_owned()
    }

    /// Finish the current token: its lexeme is the text consumed since
    /// `start_token`, its position the one after that text.
    pub(crate) fn end_token(&mut self, token_type: TokenType) -> (t: Token)
        requires
            old(self).wf(),
        ensures
            *final(self) == *old(self),
            t@ == (tok_at_model(old(self).src(), token_type@, old(self).tok_start as int, old(
                self,
            ).index as int)),
    {
        Token {
            token_type,
            lexeme: self.lexeme_string(),
            line: self.position.line,
            column: self.position.column,
        }
    }

    /// The first newline index at or after `a`, or the length.
    fn find_newline(&self, a: usize) -> (b: usize)
        requires
            self.wf(),
            a <= self.chars.len(),
        ensures
            b as int == next_newline(self.src(), a as int),
            a <= b <= self.chars.len(),
    {
        let mut b = a;
        while b < self.chars.len() && self.chars[b] != '\n'
            invariant
                self.wf(),
                a <= b <= self.chars.len(),
                next_newline(self.src(), a as int) == next_newline(self.src(), b as int),
            decreases self.chars.len() - b,
        {
            b = b + 1;
        }
        b
    }

    /// The full text of the 1-based source line `line`, as diagnostic
    /// context.
    fn snippet_for_line(&self, line: usize) -> (r: String)
        requires
            self.wf(),
            1 <= line,
        ensures
            r@ == snippet_line(self.src(), line as nat),
    {
        let ghost s = self.src();
        let mut a: usize = 0;
        let mut k: usize = 1;
        while k < line
            invariant
                self.wf(),
                s == self.src(),
                1 <= k <= line,
                a <= self.chars.len(),
                a as int == line_start(s, k as nat),
            decreases line - k,
        {
            let b = self.find_newline(a);
            if b == self.chars.len() {
                proof {
                    assert(line_start(s, (k + 1) as nat) == s.len() + 1);
                    lemma_line_start_stuck(s, (k + 1) as nat, line as nat);
                }
                return String::new();
            }
            a = b + 1;
            k = k + 1;
        }
        let b = self.find_newline(a);
        let b2 = if b > a && self.chars[b - 1] == '\r' {
            b - 1
        } else {
            b
        };
        self.source.substring_char(a, b2).to_owned()
    }

    /// Record a diagnostic at the current position, with the current
    /// source line as context. Diagnostics never stop the scan.
    pub(crate) fn record_error(&mut self, error_type: LexErrorType)
        requires
            old(self).wf(),
        ensures
            final(self).wf(),
            final(self).errors.deep_view() == old(self).errors.deep_view() + seq![
                err_at(old(self).src(), error_type, old(self).index as int),
            ],
            final(self).chars@ == old(self).chars@,
            final(self).source == old(self).source,
            final(self).index == old(self).index,
            final(self).tok_start == old(self).tok_start,
            final(self).mode == old(self).mode,
            final(self).position == old(self).position,
    {
        proof {
            lemma_pos_bounds(self.src(), self.index as int);
        }
        let line = self.position.line;
        let column = self.position.column;
        let snippet = self.snippet_for_line(line);
        self.errors.push(LexError { error_type, line, column, snippet });
        proof {
            assert(final(self).errors.deep_view() =~= old(self).errors.deep_view() + seq![
                err_at(old(self).src(), error_type, old(self).index as int),
            ]);
        }
    }

    /// Consume the whitespace run at the cursor.
    pub(crate) fn skip_whitespace(&mut self)
        requires
            old(self).wf(),
        ensures
            final(self).wf(),
            final(self).index as int == ws_end(old(self).src(), old(self).index as int),
            final(self).same_text_and_errors(old(self)),
            final(self).mode == old(self).mode,
            final(self).tok_start == old(self).tok_start,
    {
        loop
            invariant
                self.wf(),
                self.same_text_and_errors(old(self)),
                self.mode == old(self).mode,
                self.tok_start == old(self).tok_start,
                old(self).index <= self.index,
                ws_end(self.src(), old(self).index as int) == ws_end(self.src(), self.index as int),
            ensures
                self.index as int == ws_end(old(self).src(), old(self).index as int),
            decreases self.chars.len() - self.index,
        {
            match self.peek() {
                Some(c) => {
                    if is_whitespace_char(c) {
                        self.advance();
                    } else {
                        break ;
                    }
                },
                None => {
                    break ;
                },
            }
        }
    }

    /// Consume the maximal identifier run (letters, digits, underscore)
    /// at the cursor.
    pub(crate) fn scan_identifier(&mut self)
        requires
            old(self).wf(),
        ensures
            final(self).wf(),
            final(self).index as int == ident_end(old(self).src(), old(self).index as int),
            final(self).same_text_and_errors(old(self)),
            final(self).mode == old(self).mode,
            final(self).tok_start == old(self).tok_start,
    {
        loop
            invariant
                self.wf(),
                self.same_text_and_errors(old(self)),
                self.mode == old(self).mode,
                self.tok_start == old(self).tok_start,
                old(self).index <= self.index,
                ident_end(self.src(), old(self).index as int) == ident_end(
                    self.src(),
                    self.index as int,
                ),
            ensures
                self.index as int == ident_end(old(self).src(), old(self).index as int),
            decreases self.chars.len() - self.index,
        {
            match self.peek() {
                Some(c) => {
                    if is_alphanumeric_char(c) || c == '_' {
                        self.advance();
                    } else {
                        break ;
                    }
                },
                None => {
                    break ;
                },
            }
        }
    }

    /// Consume the maximal run of digits and decimal points at the
    /// cursor, then record `TooManyDecimalPoints` if the lexeme holds more
    /// than one point and `TrailingDecimalPoint` if it ends in one. The
    /// malformed lexeme is still a number token; lexing never blocks on a
    /// numeric-format error.
    pub(crate) fn scan_number(&mut self)
        requires
            old(self).wf(),
            old(self).tok_start < old(self).index,
        ensures
            final(self).wf(),
            final(self).index as int == number_end(old(self).src(), old(self).index as int),
            final(self).chars@ == old(self).chars@,
            final(self).source == old(self).source,
            final(self).mode == old(self).mode,
            final(self).tok_start == old(self).tok_start,
            final(self).errors.deep_view() == old(self).errors.deep_view() + number_errs(
                old(self).src(),
                old(self).tok_start as int,
                number_end(old(self).src(), old(self).index as int),
            ),
    {
        loop
            invariant
                self.wf(),
                self.same_text_and_errors(old(self)),
                self.mode == old(self).mode,
                self.tok_start == old(self).tok_start,
                old(self).index <= self.index,
                number_end(self.src(), old(self).index as int) == number_end(
                    self.src(),
                    self.index as int,
                ),
            ensures
                self.index as int == number_end(old(self).src(), old(self).index as int),
            decreases self.chars.len() - self.index,
        {
            match self.peek() {
                Some(c) => {
                    if is_digit_char(c) || c == '.' {
                        self.advance();
                    } else {
                        break ;
                    }
                },
                None => {
                    break ;
                },
            }
        }
        let ghost s = self.src();
        let ghost k = self.index as int;
        let mut dots: usize = 0;
        let mut p = self.tok_start;
        while p < self.index
            invariant
                self.wf(),
                s == self.src(),
                k == self.index as int,
                self.tok_start <= p <= self.index,
                dots <= p - self.tok_start,
                dots as nat == dot_count(s.subrange(self.tok_start as int, p as int)),
            decreases self.index - p,
        {
            proof {
                assert(s.subrange(self.tok_start as int, p + 1).drop_last() =~= s.subrange(
                    self.tok_start as int,
                    p as int,
                ));
            }
            if self.chars[p] == '.' {
                dots = dots + 1;
            }
            p = p + 1;
        }
        if dots > 1 {
            self.record_error(LexErrorType::TooManyDecimalPoints);
        } else if self.chars[self.index - 1] == '.' {
            self.record_error(LexErrorType::TrailingDecimalPoint);
        } else {
            proof {
                assert(self.errors.deep_view() =~= self.errors.deep_view() + Seq::<
                    crate::lex_errors::LexErrorModel,
                >::empty());
            }
        }
    }

    /// Resolve the current lexeme against the keyword table, defaulting
    /// to an identifier that carries its text.
    pub(crate) fn identify_keyword(&self) -> (tt: TokenType)
        requires
            self.wf(),
        ensures
            tt@ == keyword_kind(self.src().subrange(self.tok_start as int, self.index as int)),
    {
        let ghost lex = self.src().subrange(self.tok_start as int, self.index as int);
        let t0 = self.tok_start;
        let len = self.index - t0;
        if len == 3 && self.chars[t0] == 'l' && self.chars[t0 + 1] == 'e' && self.chars[t0 + 2]
            == 't' {
            proof {
                assert(lex =~= seq!['l', 'e', 't']);
            }
            TokenType::Let
        } else if len == 2 && self.chars[t0] == 'i' && self.chars[t0 + 1] == 'f' {
            proof {
                assert(lex =~= seq!['i', 'f']);
            }
            TokenType::If
        } else if len == 3 && self.chars[t0] == 'f' && self.chars[t0 + 1] == 'o' && self.chars[t0
            + 2] == 'r' {
            proof {
                assert(lex =~= seq!['f', 'o', 'r']);
            }
            TokenType::For
        } else if len == 5 && self.chars[t0] == 'w' && self.chars[t0 + 1] == 'h' && self.chars[t0
            + 2] == 'i' && self.chars[t0 + 3] == 'l' && self.chars[t0 + 4] == 'e' {
            proof {
                assert(lex =~= seq!['w', 'h', 'i', 'l', 'e']);
            }
            TokenType::While
        } else if len == 2 && self.chars[t0] == 'f' && self.chars[t0 + 1] == 'n' {
            proof {
                assert(lex =~= seq!['f', 'n']);
            }
            TokenType::Function
        } else {
            TokenType::Identifier(self.lexeme_string())
        }
    }

    /// Resolve a one-character-lookahead operator: if the next character
    /// is `next`, consume it and finish with `double`, else finish with
    /// `single`.
    pub(crate) fn match_operator(&mut self, next: char, double: TokenType, single: TokenType) -> (t:
        Token)
        requires
            old(self).wf(),
            old(self).index == old(self).tok_start + 1,
        ensures
            final(self).wf(),
            ({
                let step = two_char_op(
                    old(self).src(),
                    old(self).tok_start as int,
                    next,
                    double@,
                    single@,
                );
                &&& final(self).index as int == step.i2
                &&& step.token == Some(t@)
            }),
            final(self).same_text_and_errors(old(self)),
            final(self).mode == old(self).mode,
            final(self).tok_start == old(self).tok_start,
    {
        match self.peek() {
            Some(c) => {
                if c == next {
                    self.advance();
                    self.end_token(double)
                } else {
                    self.end_token(single)
                }
            },
            None => self.end_token(single),
        }
    }

    /// One iteration in normal mode: skip whitespace, then scan one token
    /// or switch mode, exactly as `step_normal` describes. An
    /// unrecognized character records a diagnostic, produces no token,
    /// and scanning continues with the next character.
    #[verifier::rlimit(60)]
    pub(crate) fn scan_normal_mode(&mut self) -> (r: Option<Token>)
        requires
            old(self).wf(),
            old(self).mode is Normal,
        ensures
            final(self).wf(),
            step_applied(
                *old(self),
                *final(self),
                r,
                step_normal(old(self).src(), old(self).index as int),
            ),
    {
        proof {
            lemma_ws_end_bounds(self.src(), self.index as int);
        }
        self.skip_whitespace();
        if self.is_at_end() {
            proof {
                assert(self.errors.deep_view() =~= old(self).errors.deep_view() + step_normal(
                    old(self).src(),
                    old(self).index as int,
                ).errs);
            }
            return None;
        }
        self.start_token();
        let ghost s = self.src();
        let ghost j = self.index as int;
        let c = self.peek().unwrap();
        if c == '\'' {
            self.set_scanner_mode(ScannerMode::CharLiteral);
            proof {
                assert(self.errors.deep_view() =~= old(self).errors.deep_view() + step_normal(
                    old(self).src(),
                    old(self).index as int,
                ).errs);
            }
            return None;
        }
        self.advance();
        if c == '"' {
            self.set_scanner_mode(ScannerMode::StringLiteral);
            proof {
                assert(self.errors.deep_view() =~= old(self).errors.deep_view() + step_normal(
                    old(self).src(),
                    old(self).index as int,
                ).errs);
            }
            return None;
        }
        if is_alphabetic_char(c) {
            proof {
                lemma_ident_end_bounds(s, j + 1);
            }
            self.scan_identifier();
            let tt = self.identify_keyword();
            let t = self.end_token(tt);
            proof {
                assert(self.errors.deep_view() =~= old(self).errors.deep_view() + step_normal(
                    old(self).src(),
                    old(self).index as int,
                ).errs);
            }
            return Some(t);
        }
        if is_digit_char(c) {
            proof {
                lemma_number_end_bounds(s, j + 1);
            }
            self.scan_number();
            let text = self.lexeme_string();
            let t = self.end_token(TokenType::Number(text));
            return Some(t);
        }
        proof {
            assert(old(self).errors.deep_view() + Seq::<crate::lex_errors::LexErrorModel>::empty()
                =~= old(self).errors.deep_view());
        }
        let r = match c {
            '+' => {
                let t = self.end_token(TokenType::Plus);
                proof {
                    assert(self.errors.deep_view() == old(self).errors.deep_view() + step_normal(
                        s,
                        old(self).index as int,
                    ).errs);
                }
                Some(t)
            },
            '-' => {
                let t = self.end_token(TokenType::Minus);
                proof {
                    assert(self.errors.deep_view() == old(self).errors.deep_view() + step_normal(
                        s,
                        old(self).index as int,
                    ).errs);
                }
                Some(t)
            },
            '*' => {
                let t = self.end_token(TokenType::Multiply);
                proof {
                    assert(self.errors.deep_view() == old(self).errors.deep_view() + step_normal(
                        s,
                        old(self).index as int,
                    ).errs);
                }
                Some(t)
            },
            '%' => {
                let t = self.end_token(TokenType::Modulo);
                proof {
                    assert(self.errors.deep_view() == old(self).errors.deep_view() + step_normal(
                        s,
                        old(self).index as int,
                    ).errs);
                }
                Some(t)
            },
            ';' => {
                let t = self.end_token(TokenType::SemiColon);
                proof {
                    assert(self.errors.deep_view() == old(self).errors.deep_view() + step_normal(
                        s,
                        old(self).index as int,
                    ).errs);
                }
                Some(t)
            },
            ',' => {
                let t = self.end_token(TokenType::Comma);
                proof {
                    assert(self.errors.deep_view() == old(self).errors.deep_view() + step_normal(
                        s,
                        old(self).index as int,
                    ).errs);
                }
                Some(t)
            },
            '{' => {
                let t = self.end_token(TokenType::CurlyOpen);
                proof {
                    assert(self.errors.deep_view() == old(self).errors.deep_view() + step_normal(
                        s,
                        old(self).index as int,
                    ).errs);
                }
                Some(t)
            },
            '}' => {
                let t = self.end_token(TokenType::CurlyClose);
                proof {
                    assert(self.errors.deep_view() == old(self).errors.deep_view() + step_normal(
                        s,
                        old(self).index as int,
                    ).errs);
                }
                Some(t)
            },
            '[' => {
                let t = self.end_token(TokenType::BracketOpen);
                proof {
                    assert(self.errors.deep_view() == old(self).errors.deep_view() + step_normal(
                        s,
                        old(self).index as int,
                    ).errs);
                }
                Some(t)
            },
            ']' => {
                let t = self.end_token(TokenType::BracketClose);
                proof {
                    assert(self.errors.deep_view() == old(self).errors.deep_view() + step_normal(
                        s,
                        old(self).index as int,
                    ).errs);
                }
                Some(t)
            },
            '(' => {
                let t = self.end_token(TokenType::ParenthesesOpen);
                proof {
                    assert(self.errors.deep_view() == old(self).errors.deep_view() + step_normal(
                        s,
                        old(self).index as int,
                    ).errs);
                }
                Some(t)
            },
            ')' => {
                let t = self.end_token(TokenType::ParenthesesClose);
                proof {
                    assert(self.errors.deep_view() == old(self).errors.deep_view() + step_normal(
                        s,
                        old(self).index as int,
                    ).errs);
                }
                Some(t)
            },
            '.' => {
                let t = self.match_operator('.', TokenType::Range, TokenType::Dot);
                proof {
                    assert(self.errors.deep_view() == old(self).errors.deep_view() + step_normal(
                        s,
                        old(self).index as int,
                    ).errs);
                }
                Some(t)
            },
            '=' => {
                let t = self.match_operator('=', TokenType::EqualsEquals, TokenType::Equals);
                proof {
                    assert(self.errors.deep_view() == old(self).errors.deep_view() + step_normal(
                        s,
                        old(self).index as int,
                    ).errs);
                }
                Some(t)
            },
            '!' => {
                let t = self.match_operator('=', TokenType::BangEquals, TokenType::Bang);
                proof {
                    assert(self.errors.deep_view() == old(self).errors.deep_view() + step_normal(
                        s,
                        old(self).index as int,
                    ).errs);
                }
                Some(t)
            },
            '>' => {
                let t = self.match_operator('=', TokenType::GreaterThanOrEqual, TokenType::GreaterThan);
                proof {
                    assert(self.errors.deep_view() == old(self).errors.deep_view() + step_normal(
                        s,
                        old(self).index as int,
                    ).errs);
                }
                Some(t)
            },
            '<' => {
                let t = self.match_operator('=', TokenType::LessThanOrEqual, TokenType::LessThan);
                proof {
                    assert(self.errors.deep_view() == old(self).errors.deep_view() + step_normal(
                        s,
                        old(self).index as int,
                    ).errs);
                }
                Some(t)
            },
            '/' => {
                match self.peek() {
                    Some(nc) => {
                        if nc == '*' {
                            self.advance();
                            self.set_scanner_mode(ScannerMode::BlockComment);
                            proof {
                    assert(self.errors.deep_view() == old(self).errors.deep_view() + step_normal(
                        s,
                        old(self).index as int,
                    ).errs);
                }
                            None
                        } else if nc == '/' {
                            self.advance();
                            self.set_scanner_mode(ScannerMode::LineComment);
                            proof {
                    assert(self.errors.deep_view() == old(self).errors.deep_view() + step_normal(
                        s,
                        old(self).index as int,
                    ).errs);
                }
                            None
                        } else {
                            let t = self.end_token(TokenType::Divide);
                            proof {
                    assert(self.errors.deep_view() == old(self).errors.deep_view() + step_normal(
                        s,
                        old(self).index as int,
                    ).errs);
                }
                            Some(t)
                        }
                    },
                    None => {
                        let t = self.end_token(TokenType::Divide);
                        proof {
                    assert(self.errors.deep_view() == old(self).errors.deep_view() + step_normal(
                        s,
                        old(self).index as int,
                    ).errs);
                }
                        Some(t)
                    },
                }
            },
            _ => {
                self.record_error(LexErrorType::UnexpectedCharacter(c));
                proof {
                    assert(self.errors.deep_view() == old(self).errors.deep_view() + step_normal(
                        s,
                        old(self).index as int,
                    ).errs);
                }
                None
            },
        };
        r
    }

    /// One iteration in string-literal mode, entered with the opening
    /// quote already consumed: accumulate the decoded value until an
    /// unescaped closing quote or the end of input, record any escape
    /// diagnostics and exactly one `UnterminatedString` if the input runs
    /// out first, and always emit the string token.
    #[verifier::rlimit(60)]
    pub(crate) fn scan_string_literal(&mut self) -> (r: Option<Token>)
        requires
            old(self).wf(),
        ensures
            final(self).wf(),
            step_applied(
                *old(self),
                *final(self),
                r,
                step_string(
                    old(self).src(),
                    old(self).index as int,
                    old(self).tok_start as int,
                ),
            ),
    {
        let ghost s = self.src();
        let ghost i0 = self.index as int;
        let ghost pre_errs = self.errors.deep_view();
        let mut value = String::new();
        let mut terminated = false;
        proof {
            assert(value@ + str_scan(s, i0).value =~= str_scan(s, i0).value);
            assert(pre_errs + str_scan(s, i0).errs =~= self.errors.deep_view() + str_scan(
                s,
                i0,
            ).errs);
        }
        loop
            invariant_except_break
                self.wf(),
                s == self.src(),
                self.chars@ == old(self).chars@,
                self.source == old(self).source,
                self.mode == old(self).mode,
                self.tok_start == old(self).tok_start,
                i0 <= self.index as int <= s.len(),
                0 <= i0,
                !terminated,
                str_scan(s, i0).end == str_scan(s, self.index as int).end,
                str_scan(s, i0).value == value@ + str_scan(s, self.index as int).value,
                pre_errs + str_scan(s, i0).errs == self.errors.deep_view() + str_scan(
                    s,
                    self.index as int,
                ).errs,
                str_terminated(s, i0) == str_terminated(s, self.index as int),
            ensures
                self.wf(),
                s == self.src(),
                self.chars@ == old(self).chars@,
                self.source == old(self).source,
                self.mode == old(self).mode,
                self.tok_start == old(self).tok_start,
                self.index as int == str_scan(s, i0).end,
                value@ == str_scan(s, i0).value,
                terminated == str_terminated(s, i0),
                terminated ==> self.errors.deep_view() == pre_errs + str_scan(s, i0).errs,
                !terminated ==> self.errors.deep_view() + seq![
                    err_at(s, LexErrorType::UnterminatedString, s.len() as int),
                ] == pre_errs + str_scan(s, i0).errs,
            decreases s.len() - self.index,
        {
            let ghost pre_i = self.index as int;
            let ghost pre_deep = self.errors.deep_view();
            let copt = self.advance();
            match copt {
                None => {
                    proof {
                        assert(self.errors.deep_view() + seq![
                            err_at(s, LexErrorType::UnterminatedString, s.len() as int),
                        ] =~= pre_errs + str_scan(s, i0).errs);
                    }
                    break ;
                },
                Some(c) => {
                    if c == '"' {
                        terminated = true;
                        proof {
                            assert(value@ + Seq::<char>::empty() =~= value@);
                            assert(self.errors.deep_view() + Seq::<
                                crate::lex_errors::LexErrorModel,
                            >::empty() =~= self.errors.deep_view());
                        }
                        break ;
                    } else if c == '\\' {
                        let eopt = self.advance();
                        match eopt {
                            Some(escaped) => {
                                let ghost pre_val = value@;
                                match escaped {
                                    'n' => {
                                        value.append("\n");
                                        proof {
                                            reveal_strlit("\n");
                                            assert(value@ =~= pre_val + seq![
                                                crate::scan_model::escape_char(escaped),
                                            ]);
                                        }
                                    },
                                    't' => {
                                        value.append("\t");
                                        proof {
                                            reveal_strlit("\t");
                                            assert(value@ =~= pre_val + seq![
                                                crate::scan_model::escape_char(escaped),
                                            ]);
                                        }
                                    },
                                    '"' => {
                                        value.append("\"");
                                        proof {
                                            reveal_strlit("\"");
                                            assert(value@ =~= pre_val + seq![
                                                crate::scan_model::escape_char(escaped),
                                            ]);
                                        }
                                    },
                                    '\\' => {
                                        value.append("\\");
                                        proof {
                                            reveal_strlit("\\");
                                            assert(value@ =~= pre_val + seq![
                                                crate::scan_model::escape_char(escaped),
                                            ]);
                                        }
                                    },
                                    _ => {
                                        self.record_error(LexErrorType::InvalidEscape(escaped));
                                        let piece = self.source.substring_char(
                                            self.index - 1,
                                            self.index,
                                        );
                                        value.append(piece);
                                        proof {
                                            assert(value@ =~= pre_val + seq![
                                                crate::scan_model::escape_char(escaped),
                                            ]);
                                        }
                                    },
                                }
                                proof {
                                    let rest = str_scan(s, self.index as int);
                                    assert(str_scan(s, pre_i).value == seq![
                                        crate::scan_model::escape_char(escaped),
                                    ] + rest.value);
                                    assert(str_scan(s, i0).value =~= value@ + rest.value);
                                    assert(pre_errs + str_scan(s, i0).errs =~= self
                                        .errors
                                        .deep_view() + rest.errs);
                                }
                            },
                            None => {
                                // the post-loop check records the one
                                // UnterminatedString for the whole literal
                                proof {
                                    assert(value@ + str_scan(s, pre_i).value =~= value@);
                                    assert(self.errors.deep_view() + seq![
                                        err_at(s, LexErrorType::UnterminatedString, s.len() as int),
                                    ] =~= pre_errs + str_scan(s, i0).errs);
                                }
                                break ;
                            },
                        }
                    } else {
                        let ghost pre_val = value@;
                        let piece = self.source.substring_char(self.index - 1, self.index);
                        value.append(piece);
                        proof {
                            let rest = str_scan(s, self.index as int);
                            assert(str_scan(s, pre_i).value == seq![c] + rest.value);
                            assert(value@ =~= pre_val + seq![c]);
                            assert(str_scan(s, i0).value =~= value@ + rest.value);
                        }
                    }
                },
            }
        }
        if !terminated {
            self.record_error(LexErrorType::UnterminatedString);
        }
        self.set_scanner_mode(ScannerMode::Normal);
        let t = self.end_token(TokenType::String(value));
        proof {
            if terminated {
                assert(self.errors.deep_view() == pre_errs + str_scan(s, i0).errs);
            } else {
                crate::scan_model::lemma_str_scan_unterminated(s, i0);
                assert(self.errors.deep_view() =~= pre_errs + str_scan(s, i0).errs);
            }
        }
        Some(t)
    }

    /// One iteration in character-literal mode, entered at the opening
    /// quote itself: consume it, one (possibly escaped) character, and the
    /// closing quote. `''` records `EmptyCharLiteral` with a null sentinel
    /// value; extra characters record `TooManyChars` and resynchronize
    /// past the next quote; running out of input records
    /// `UnterminatedChar`.
    pub fn scan_char_literal(&mut self) -> (r: Option<Token>)
        requires
            old(self).wf(),
        ensures
            final(self).wf(),
            step_applied(
                *old(self),
                *final(self),
                r,
                step_char(old(self).src(), old(self).index as int, old(self).tok_start as int),
            ),
    {
        let ghost s = self.src();
        let ghost i0 = self.index as int;
        let ghost pre_errs = self.errors.deep_view();
        self.advance();
        let vopt = self.advance();
        let value: char;
        match vopt {
            None => {
                self.record_error(LexErrorType::UnterminatedChar);
                self.set_scanner_mode(ScannerMode::Normal);
                proof {
                    assert(self.errors.deep_view() =~= pre_errs + step_char(
                        s,
                        i0,
                        old(self).tok_start as int,
                    ).errs);
                }
                return None;
            },
            Some(v) => {
                if v == '\'' {
                    self.record_error(LexErrorType::EmptyCharLiteral);
                    value = '\0';
                } else if v == '\\' {
                    let eopt = self.advance();
                    match eopt {
                        Some(e) => {
                            match e {
                                'n' => {
                                    value = '\n';
                                },
                                't' => {
                                    value = '\t';
                                },
                                '\\' => {
                                    value = '\\';
                                },
                                '\'' => {
                                    value = '\'';
                                },
                                _ => {
                                    self.record_error(LexErrorType::InvalidEscape(e));
                                    value = e;
                                },
                            }
                        },
                        None => {
                            // the closing-quote check records the one
                            // UnterminatedChar for the whole literal
                            value = '\0';
                        },
                    }
                } else {
                    value = v;
                }
            },
        }
        let ghost cv = char_value(s, i0 + 1);
        proof {
            assert(value == cv.value);
            assert(self.index as int == cv.vi);
            assert(self.errors.deep_view() =~= pre_errs + cv.errs);
        }
        let copt = self.advance();
        match copt {
            Some(cq) => {
                if cq != '\'' {
                    self.record_error(LexErrorType::TooManyChars);
                    let ghost k0 = self.index as int;
                    loop
                        invariant_except_break
                            self.wf(),
                            s == self.src(),
                            self.chars@ == old(self).chars@,
                            self.source == old(self).source,
                            self.errors.deep_view() == pre_errs + cv.errs + seq![
                                err_at(s, LexErrorType::TooManyChars, cv.vi + 1),
                            ],
                            self.mode == old(self).mode,
                            self.tok_start == old(self).tok_start,
                            0 <= k0 <= self.index as int <= s.len(),
                            skip_to_quote(s, k0) == skip_to_quote(s, self.index as int),
                        ensures
                            self.wf(),
                            s == self.src(),
                            self.chars@ == old(self).chars@,
                            self.source == old(self).source,
                            self.errors.deep_view() == pre_errs + cv.errs + seq![
                                err_at(s, LexErrorType::TooManyChars, cv.vi + 1),
                            ],
                            self.mode == old(self).mode,
                            self.tok_start == old(self).tok_start,
                            self.index as int == skip_to_quote(s, k0),
                        decreases s.len() - self.index,
                    {
                        let sk = self.advance();
                        match sk {
                            None => {
                                break ;
                            },
                            Some(sc) => {
                                if sc == '\'' {
                                    break ;
                                }
                            },
                        }
                    }
                }
            },
            None => {
                self.record_error(LexErrorType::UnterminatedChar);
            },
        }
        self.set_scanner_mode(ScannerMode::Normal);
        let t = self.end_token(TokenType::Char(value));
        proof {
            let step = step_char(s, i0, old(self).tok_start as int);
            assert(self.index as int == step.i2);
            assert(self.errors.deep_view() =~= pre_errs + step.errs);
        }
        Some(t)
    }

    /// One iteration in block-comment mode: consume up to and including
    /// the closing `*/` (or the rest of the input) and return to normal
    /// mode. No token is emitted.
    pub(crate) fn scan_block_comment(&mut self) -> (r: Option<Token>)
        requires
            old(self).wf(),
        ensures
            final(self).wf(),
            step_applied(
                *old(self),
                *final(self),
                r,
                crate::scan_model::step_block(old(self).src(), old(self).index as int),
            ),
    {
        let ghost s = self.src();
        let ghost i0 = self.index as int;
        loop
            invariant_except_break
                self.wf(),
                s == self.src(),
                self.same_text_and_errors(old(self)),
                self.mode == old(self).mode,
                self.tok_start == old(self).tok_start,
                i0 <= self.index as int <= s.len(),
                0 <= i0,
                block_end(s, i0) == block_end(s, self.index as int),
            ensures
                self.wf(),
                s == self.src(),
                self.same_text_and_errors(old(self)),
                self.mode == old(self).mode,
                self.tok_start == old(self).tok_start,
                self.index as int == block_end(s, i0),
            decreases s.len() - self.index,
        {
            let copt = self.advance();
            match copt {
                None => {
                    break ;
                },
                Some(cc) => {
                    if cc == '*' {
                        match self.peek() {
                            Some(nc) => {
                                if nc == '/' {
                                    self.advance();
                                    break ;
                                }
                            },
                            None => {},
                        }
                    }
                },
            }
        }
        self.set_scanner_mode(ScannerMode::Normal);
        proof {
            assert(self.errors.deep_view() =~= old(self).errors.deep_view() + Seq::<
                crate::lex_errors::LexErrorModel,
            >::empty());
        }
        None
    }

    /// One iteration in line-comment mode: consume up to and including the
    /// next newline (or the rest of the input) and return to normal mode.
    /// No token is emitted.
    pub(crate) fn scan_line_comment(&mut self) -> (r: Option<Token>)
        requires
            old(self).wf(),
        ensures
            final(self).wf(),
            step_applied(
                *old(self),
                *final(self),
                r,
                crate::scan_model::step_line(old(self).src(), old(self).index as int),
            ),
    {
        let ghost s = self.src();
        let ghost i0 = self.index as int;
        loop
            invariant_except_break
                self.wf(),
                s == self.src(),
                self.same_text_and_errors(old(self)),
                self.mode == old(self).mode,
                self.tok_start == old(self).tok_start,
                i0 <= self.index as int <= s.len(),
                0 <= i0,
                line_end(s, i0) == line_end(s, self.index as int),
            ensures
                self.wf(),
                s == self.src(),
                self.same_text_and_errors(old(self)),
                self.mode == old(self).mode,
                self.tok_start == old(self).tok_start,
                self.index as int == line_end(s, i0),
            decreases s.len() - self.index,
        {
            let copt = self.advance();
            match copt {
                None => {
                    break ;
                },
                Some(cc) => {
                    if cc == '\n' {
                        break ;
                    }
                },
            }
        }
        self.set_scanner_mode(ScannerMode::Normal);
        proof {
            assert(self.errors.deep_view() =~= old(self).errors.deep_view() + Seq::<
                crate::lex_errors::LexErrorModel,
            >::empty());
        }
        None
    }

    /// Drive the mode state machine until the characters are exhausted,
    /// then append the terminal `Eof` token. The tokens come back in
    /// order; the diagnostics accumulate on the scanner, also in order.
    pub fn scan_tokens(&mut self) -> (tokens: Vec<Token>)
        requires
            old(self).wf(),
        ensures
            final(self).wf(),
            final(self).chars@ == old(self).chars@,
            final(self).source == old(self).source,
            tokens.deep_view() == run(old(self).src(), old(self).st()).tokens + seq![
                eof_model(old(self).src()),
            ],
            final(self).errors.deep_view() == old(self).errors.deep_view() + run(
                old(self).src(),
                old(self).st(),
            ).errors,
    {
        let mut tokens: Vec<Token> = Vec::new();
        let ghost s = self.src();
        let ghost st0 = self.st();
        proof {
            assert(run(s, st0).tokens =~= tokens.deep_view() + run(s, self.st()).tokens);
            assert(old(self).errors.deep_view() + run(s, st0).errors =~= self.errors.deep_view()
                + run(s, self.st()).errors);
        }
        while !self.is_at_end()
            invariant
                self.wf(),
                s == self.src(),
                self.chars@ == old(self).chars@,
                self.source == old(self).source,
                run(s, st0).tokens == tokens.deep_view() + run(s, self.st()).tokens,
                old(self).errors.deep_view() + run(s, st0).errors == self.errors.deep_view() + run(
                    s,
                    self.st(),
                ).errors,
            decreases
                    s.len() - self.index,
                    crate::scan_model::mode_rank(self.st().mode),
        {
            let ghost pre = *self;
            let ghost pre_toks = tokens.deep_view();
            proof {
                lemma_step_bounds(s, pre.st());
            }
            let t_opt = match self.mode {
                ScannerMode::Normal => self.scan_normal_mode(),
                ScannerMode::StringLiteral => self.scan_string_literal(),
                ScannerMode::CharLiteral => self.scan_char_literal(),
                ScannerMode::BlockComment => self.scan_block_comment(),
                ScannerMode::LineComment => self.scan_line_comment(),
            };
            proof {
                assert(step_applied(pre, *self, t_opt, step_of(s, pre.st())));
            }
            match t_opt {
                Some(t) => {
                    tokens.push(t);
                },
                None => {},
            }
            proof {
                let step = step_of(s, pre.st());
                let rest = run(s, StModel { i: step.i2, mode: step.mode });
                assert(self.st() == (StModel { i: step.i2, mode: step.mode }));
                assert(run(s, pre.st()).tokens == (match step.token {
                    Some(t) => seq![t],
                    None => Seq::<crate::tokens::TokenModel>::empty(),
                }) + rest.tokens);
                match step.token {
                    Some(tm) => {
                        assert(tokens.deep_view() =~= pre_toks + seq![tm]);
                    },
                    None => {
                        assert(tokens.deep_view() =~= pre_toks + Seq::<
                            crate::tokens::TokenModel,
                        >::empty());
                    },
                }
                assert(run(s, st0).tokens =~= tokens.deep_view() + run(s, self.st()).tokens);
                assert(old(self).errors.deep_view() + run(s, st0).errors =~= self
                    .errors
                    .deep_view() + run(s, self.st()).errors);
            }
        }
        proof {
            assert(run(s, self.st()).tokens =~= Seq::<crate::tokens::TokenModel>::empty());
            assert(run(s, self.st()).errors =~= Seq::<crate::lex_errors::LexErrorModel>::empty());
            assert(run(s, st0).tokens =~= tokens.deep_view());
            assert(old(self).errors.deep_view() + run(s, st0).errors =~= self.errors.deep_view());
        }
        let ghost pre_toks = tokens.deep_view();
        let eof = Token {
            token_type: TokenType::Eof,
            lexeme: String::new(),
            line: self.position.line,
            column: self.position.column,
        };
        tokens.push(eof);
        proof {
            assert(tokens.deep_view() =~= pre_toks + seq![eof_model(s)]);
        }
        tokens
    }
}

/// Scan a whole source text from scratch: the tokens in order, terminated
/// by `Eof`, and the diagnostics in order.
pub fn scan(source: &str) -> (r: (Vec<Token>, Vec<LexError>))
    requires
        source@.len() > 0,
        source@.len() < usize::MAX,
    ensures
        r.0.deep_view() == scan_spec(source@).tokens,
        r.1.deep_view() == scan_spec(source@).errors,
{
    let mut scanner = Scanner::new(source);
    let tokens = scanner.scan_tokens();
    proof {
        assert(scanner.errors.deep_view() =~= scan_spec(source@).errors);
    }
    let errors = scanner.errors;
    (tokens, errors)
}

/// One mode function performed the given step: the cursor, mode, token
/// and diagnostics all moved as the model says, and the text is kept.
pub open spec fn step_applied<'a>(
    pre: Scanner<'a>,
    post: Scanner<'a>,
    r: Option<Token>,
    step: StepRes,
) -> bool {
    &&& post.chars@ == pre.chars@
    &&& post.source == pre.source
    &&& post.index as int == step.i2
    &&& post.st().mode == step.mode
    &&& post.errors.deep_view() == pre.errors.deep_view() + step.errs
    &&& (match (r, step.token) {
        (Some(t), Some(m)) => t@ == m,
        (None, None) => true,
        _ => false,
    })
}

/// The model of the token `end_token` builds (kept here so the method's
/// contract can name it without repeating the fields).
pub open spec fn tok_at_model(
    s: Seq<char>,
    kind: crate::tokens::TokenKind,
    start: int,
    end: int,
) -> crate::tokens::TokenModel {
    crate::scan_model::tok_at(s, kind, start, end)
}

/// Once a line start lies past the end of the text, so do all later ones.
pub proof fn lemma_line_start_stuck(s: Seq<char>, k: nat, m: nat)
    requires
        line_start(s, k) > s.len(),
        k <= m,
    ensures
        line_start(s, m) > s.len(),
    decreases m - k,
{
    if k < m {
        lemma_line_start_stuck(s, (k + 1) as nat, m);
    }
}

} // verus!
