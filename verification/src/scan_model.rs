//! The mathematical model of the scanner.
//!
//! Scanning is modelled as a small-step state machine over the character
//! sequence: `run` drives one `step_of` per outer iteration, exactly as
//! the executable scanner drives one mode function per loop iteration,
//! and `scan_spec` is the whole pass including the terminal `Eof` token.
//! Positions are recovered from the character sequence alone: `line_at`
//! and `col_at` give the position after consuming a prefix.

use vstd::prelude::*;

use crate::char_classes::{dec_digit, unicode_alphabetic, unicode_alphanumeric, unicode_whitespace};
use crate::lex_errors::{LexErrorModel, LexErrorType};
use crate::tokens::{TokenKind, TokenModel};

verus! {

broadcast use crate::char_classes::lemma_seq_char_typed;


// ------------------------------------------------------------------
// Positions
// ------------------------------------------------------------------
/// The line of the position after consuming `s[0..i]`: 1 plus the number
/// of newlines consumed.
pub open spec fn line_at(s: Seq<char>, i: int) -> nat
    decreases i,
{
    if i <= 0 {
        1
    } else {
        line_at(s, i - 1) + if s[i - 1] == '\n' {
            1nat
        } else {
            0nat
        }
    }
}

/// The column of the position after consuming `s[0..i]`. Consuming a
/// newline moves to the next line and then past its first column, so the
/// column directly after a newline is 2.
pub open spec fn col_at(s: Seq<char>, i: int) -> nat
    decreases i,
{
    if i <= 0 {
        1
    } else if s[i - 1] == '\n' {
        2
    } else {
        col_at(s, i - 1) + 1
    }
}

/// Both coordinates stay within `1..=i+1`.
pub proof fn lemma_pos_bounds(s: Seq<char>, i: int)
    requires
        0 <= i,
    ensures
        1 <= line_at(s, i) <= i + 1,
        1 <= col_at(s, i) <= i + 1,
    decreases i,
{
    if i > 0 {
        lemma_pos_bounds(s, i - 1);
    }
}

// ------------------------------------------------------------------
// Source lines and diagnostic snippets
// ------------------------------------------------------------------
/// The index of the first newline at or after `i`, or the length if there
/// is none.
pub open spec fn next_newline(s: Seq<char>, i: int) -> int
    decreases s.len() - i,
    when 0 <= i <= s.len()
{
    if i >= s.len() {
        s.len() as int
    } else if s[i] == '\n' {
        i
    } else {
        next_newline(s, i + 1)
    }
}

/// The index where the 1-based line `line` starts; one past the length
/// when the text has fewer lines.
pub open spec fn line_start(s: Seq<char>, line: nat) -> int
    decreases line,
{
    if line <= 1 {
        0
    } else {
        let p = line_start(s, (line - 1) as nat);
        if p > s.len() {
            p
        } else {
            next_newline(s, p) + 1
        }
    }
}

/// The full text of the 1-based line `line`, without its newline and
/// without a carriage return directly before that newline; empty when the
/// text has no such line.
pub open spec fn snippet_line(s: Seq<char>, line: nat) -> Seq<char> {
    let a = line_start(s, line);
    if a > s.len() {
        Seq::empty()
    } else {
        let b = next_newline(s, a);
        let b2 = if b > a && s[b - 1] == '\r' {
            b - 1
        } else {
            b
        };
        s.subrange(a, b2)
    }
}

/// The diagnostic recorded when a problem is detected at position `i`
/// (that is, directly after consuming `s[0..i]`).
pub open spec fn err_at(s: Seq<char>, error_type: LexErrorType, i: int) -> LexErrorModel {
    LexErrorModel {
        error_type,
        line: line_at(s, i),
        column: col_at(s, i),
        snippet: snippet_line(s, line_at(s, i)),
    }
}

// ------------------------------------------------------------------
// Maximal runs of characters
// ------------------------------------------------------------------
/// The end of the whitespace run starting at `i`.
pub open spec fn ws_end(s: Seq<char>, i: int) -> int
    decreases s.len() - i,
    when 0 <= i <= s.len()
{
    if i >= s.len() {
        i
    } else if unicode_whitespace(s[i]) {
        ws_end(s, i + 1)
    } else {
        i
    }
}

/// The end of the identifier run (letters, digits, underscore) starting
/// at `i`.
pub open spec fn ident_end(s: Seq<char>, i: int) -> int
    decreases s.len() - i,
    when 0 <= i <= s.len()
{
    if i >= s.len() {
        i
    } else if unicode_alphanumeric(s[i]) || s[i] == '_' {
        ident_end(s, i + 1)
    } else {
        i
    }
}

/// The end of the number run (decimal digits and `.`) starting at `i`.
pub open spec fn number_end(s: Seq<char>, i: int) -> int
    decreases s.len() - i,
    when 0 <= i <= s.len()
{
    if i >= s.len() {
        i
    } else if dec_digit(s[i]) || s[i] == '.' {
        number_end(s, i + 1)
    } else {
        i
    }
}

pub proof fn lemma_ws_end_bounds(s: Seq<char>, i: int)
    requires
        0 <= i <= s.len(),
    ensures
        i <= ws_end(s, i) <= s.len(),
    decreases s.len() - i,
{
    if i < s.len() && unicode_whitespace(s[i]) {
        lemma_ws_end_bounds(s, i + 1);
    }
}

pub proof fn lemma_ident_end_bounds(s: Seq<char>, i: int)
    requires
        0 <= i <= s.len(),
    ensures
        i <= ident_end(s, i) <= s.len(),
    decreases s.len() - i,
{
    if i < s.len() && (unicode_alphanumeric(s[i]) || s[i] == '_') {
        lemma_ident_end_bounds(s, i + 1);
    }
}

pub proof fn lemma_number_end_bounds(s: Seq<char>, i: int)
    requires
        0 <= i <= s.len(),
    ensures
        i <= number_end(s, i) <= s.len(),
    decreases s.len() - i,
{
    if i < s.len() && (dec_digit(s[i]) || s[i] == '.') {
        lemma_number_end_bounds(s, i + 1);
    }
}

// ------------------------------------------------------------------
// Keywords and escapes
// ------------------------------------------------------------------
/// Resolve a scanned word against the keyword table, defaulting to an
/// identifier carrying its text.
pub open spec fn keyword_kind(t: Seq<char>) -> TokenKind {
    if t.len() == 3 && t[0] == 'l' && t[1] == 'e' && t[2] == 't' {
        TokenKind::Let
    } else if t.len() == 2 && t[0] == 'i' && t[1] == 'f' {
        TokenKind::If
    } else if t.len() == 3 && t[0] == 'f' && t[1] == 'o' && t[2] == 'r' {
        TokenKind::For
    } else if t.len() == 5 && t[0] == 'w' && t[1] == 'h' && t[2] == 'i' && t[3] == 'l' && t[4]
        == 'e' {
        TokenKind::While
    } else if t.len() == 2 && t[0] == 'f' && t[1] == 'n' {
        TokenKind::Function
    } else {
        TokenKind::Identifier { text: t }
    }
}

/// The escapes a string literal recognizes.
pub open spec fn valid_escape(c: char) -> bool {
    c == 'n' || c == 't' || c == '"' || c == '\\'
}

/// What `\c` denotes inside a string literal; an unrecognized escape
/// contributes the escaped character itself.
pub open spec fn escape_char(c: char) -> char {
    if c == 'n' {
        '\n'
    } else if c == 't' {
        '\t'
    } else {
        c
    }
}

/// The escapes a character literal recognizes.
pub open spec fn char_valid_escape(c: char) -> bool {
    c == 'n' || c == 't' || c == '\\' || c == '\''
}

/// What `\c` denotes inside a character literal.
pub open spec fn char_escape_char(c: char) -> char {
    if c == 'n' {
        '\n'
    } else if c == 't' {
        '\t'
    } else {
        c
    }
}

/// How many `.` characters a lexeme contains.
pub open spec fn dot_count(t: Seq<char>) -> nat
    decreases t.len(),
{
    if t.len() == 0 {
        0
    } else {
        dot_count(t.drop_last()) + if t.last() == '.' {
            1nat
        } else {
            0nat
        }
    }
}

/// The diagnostics attached to a number lexeme `s[j..k]`: more than one
/// decimal point, or a trailing one. The malformed token is still emitted.
pub open spec fn number_errs(s: Seq<char>, j: int, k: int) -> Seq<LexErrorModel> {
    let lex = s.subrange(j, k);
    if dot_count(lex) > 1 {
        seq![err_at(s, LexErrorType::TooManyDecimalPoints, k)]
    } else if lex.len() > 0 && lex.last() == '.' {
        seq![err_at(s, LexErrorType::TrailingDecimalPoint, k)]
    } else {
        Seq::empty()
    }
}

// ------------------------------------------------------------------
// The machine state and one step of each mode
// ------------------------------------------------------------------
/// The scanner's mode. The literal modes remember where their token
/// started, so the token's lexeme can cover the whole literal.
pub ghost enum ModeModel {
    Normal,
    StringLit { start: int },
    CharLit { start: int },
    BlockComment,
    LineComment,
}

/// The machine state: the cursor and the mode.
pub ghost struct StModel {
    pub i: int,
    pub mode: ModeModel,
}

/// What one outer iteration produces: the new cursor and mode, at most
/// one token, and any diagnostics recorded along the way.
pub ghost struct StepRes {
    pub i2: int,
    pub mode: ModeModel,
    pub token: Option<TokenModel>,
    pub errs: Seq<LexErrorModel>,
}

/// A token whose lexeme is `s[start..end]`, stamped with the position
/// after the lexeme.
pub open spec fn tok_at(s: Seq<char>, kind: TokenKind, start: int, end: int) -> TokenModel {
    TokenModel {
        kind,
        lexeme: s.subrange(start, end),
        line: line_at(s, end),
        column: col_at(s, end),
    }
}

/// A single-character token at `j`.
pub open spec fn simple_tok(s: Seq<char>, j: int, kind: TokenKind) -> StepRes {
    StepRes {
        i2: j + 1,
        mode: ModeModel::Normal,
        token: Some(tok_at(s, kind, j, j + 1)),
        errs: Seq::empty(),
    }
}

/// A one-character-lookahead operator at `j`: `double` if the next
/// character is `next`, else `single`.
pub open spec fn two_char_op(
    s: Seq<char>,
    j: int,
    next: char,
    double: TokenKind,
    single: TokenKind,
) -> StepRes {
    if j + 1 < s.len() && s[j + 1] == next {
        StepRes {
            i2: j + 2,
            mode: ModeModel::Normal,
            token: Some(tok_at(s, double, j, j + 2)),
            errs: Seq::empty(),
        }
    } else {
        simple_tok(s, j, single)
    }
}

/// One iteration in normal mode: skip whitespace, then dispatch on the
/// first character. An unrecognized character yields a diagnostic and no
/// token, and scanning continues after it.
pub open spec fn step_normal(s: Seq<char>, i: int) -> StepRes {
    let j = ws_end(s, i);
    if j >= s.len() {
        StepRes { i2: s.len() as int, mode: ModeModel::Normal, token: None, errs: Seq::empty() }
    } else {
        let c = s[j];
        if c == '"' {
            StepRes {
                i2: j + 1,
                mode: ModeModel::StringLit { start: j },
                token: None,
                errs: Seq::empty(),
            }
        } else if c == '\'' {
            StepRes { i2: j, mode: ModeModel::CharLit { start: j }, token: None, errs: Seq::empty() }
        } else if unicode_alphabetic(c) {
            let k = ident_end(s, j + 1);
            StepRes {
                i2: k,
                mode: ModeModel::Normal,
                token: Some(tok_at(s, keyword_kind(s.subrange(j, k)), j, k)),
                errs: Seq::empty(),
            }
        } else if dec_digit(c) {
            let k = number_end(s, j + 1);
            StepRes {
                i2: k,
                mode: ModeModel::Normal,
                token: Some(tok_at(s, TokenKind::Number { text: s.subrange(j, k) }, j, k)),
                errs: number_errs(s, j, k),
            }
        } else if c == '+' {
            simple_tok(s, j, TokenKind::Plus)
        } else if c == '-' {
            simple_tok(s, j, TokenKind::Minus)
        } else if c == '*' {
            simple_tok(s, j, TokenKind::Multiply)
        } else if c == '%' {
            simple_tok(s, j, TokenKind::Modulo)
        } else if c == ';' {
            simple_tok(s, j, TokenKind::SemiColon)
        } else if c == ',' {
            simple_tok(s, j, TokenKind::Comma)
        } else if c == '{' {
            simple_tok(s, j, TokenKind::CurlyOpen)
        } else if c == '}' {
            simple_tok(s, j, TokenKind::CurlyClose)
        } else if c == '[' {
            simple_tok(s, j, TokenKind::BracketOpen)
        } else if c == ']' {
            simple_tok(s, j, TokenKind::BracketClose)
        } else if c == '(' {
            simple_tok(s, j, TokenKind::ParenthesesOpen)
        } else if c == ')' {
            simple_tok(s, j, TokenKind::ParenthesesClose)
        } else if c == '.' {
            two_char_op(s, j, '.', TokenKind::Range, TokenKind::Dot)
        } else if c == '=' {
            two_char_op(s, j, '=', TokenKind::EqualsEquals, TokenKind::Equals)
        } else if c == '!' {
            two_char_op(s, j, '=', TokenKind::BangEquals, TokenKind::Bang)
        } else if c == '>' {
            two_char_op(s, j, '=', TokenKind::GreaterThanOrEqual, TokenKind::GreaterThan)
        } else if c == '<' {
            two_char_op(s, j, '=', TokenKind::LessThanOrEqual, TokenKind::LessThan)
        } else if c == '/' {
            if j + 1 < s.len() && s[j + 1] == '*' {
                StepRes { i2: j + 2, mode: ModeModel::BlockComment, token: None, errs: Seq::empty() }
            } else if j + 1 < s.len() && s[j + 1] == '/' {
                StepRes { i2: j + 2, mode: ModeModel::LineComment, token: None, errs: Seq::empty() }
            } else {
                simple_tok(s, j, TokenKind::Divide)
            }
        } else {
            StepRes {
                i2: j + 1,
                mode: ModeModel::Normal,
                token: None,
                errs: seq![err_at(s, LexErrorType::UnexpectedCharacter(c), j + 1)],
            }
        }
    }
}

/// What scanning the body of a string literal from `i` (the index after
/// the opening quote) produces: where it ends, the decoded value, and the
/// diagnostics. Reaching the end of input before an unescaped closing
/// quote — whether at a plain character or behind a dangling backslash —
/// records exactly one `UnterminatedString`.
pub ghost struct StrScan {
    pub end: int,
    pub value: Seq<char>,
    pub errs: Seq<LexErrorModel>,
}

pub open spec fn str_scan(s: Seq<char>, i: int) -> StrScan
    decreases s.len() - i,
    when 0 <= i <= s.len()
{
    if i >= s.len() {
        StrScan {
            end: s.len() as int,
            value: Seq::empty(),
            errs: seq![err_at(s, LexErrorType::UnterminatedString, s.len() as int)],
        }
    } else if s[i] == '"' {
        StrScan { end: i + 1, value: Seq::empty(), errs: Seq::empty() }
    } else if s[i] == '\\' {
        if i + 1 < s.len() {
            let e = s[i + 1];
            let rest = str_scan(s, i + 2);
            StrScan {
                end: rest.end,
                value: seq![escape_char(e)] + rest.value,
                errs: (if valid_escape(e) {
                    Seq::empty()
                } else {
                    seq![err_at(s, LexErrorType::InvalidEscape(e), i + 2)]
                }) + rest.errs,
            }
        } else {
            StrScan {
                end: s.len() as int,
                value: Seq::empty(),
                errs: seq![err_at(s, LexErrorType::UnterminatedString, s.len() as int)],
            }
        }
    } else {
        let rest = str_scan(s, i + 1);
        StrScan { end: rest.end, value: seq![s[i]] + rest.value, errs: rest.errs }
    }
}

/// Whether the string-literal scan starting at `i` finds its closing
/// quote before the input ends.
pub open spec fn str_terminated(s: Seq<char>, i: int) -> bool
    decreases s.len() - i,
    when 0 <= i <= s.len()
{
    if i >= s.len() {
        false
    } else if s[i] == '"' {
        true
    } else if s[i] == '\\' {
        if i + 1 < s.len() {
            str_terminated(s, i + 2)
        } else {
            false
        }
    } else {
        str_terminated(s, i + 1)
    }
}

pub proof fn lemma_str_scan_bounds(s: Seq<char>, i: int)
    requires
        0 <= i <= s.len(),
    ensures
        i <= str_scan(s, i).end <= s.len(),
        i < s.len() ==> i + 1 <= str_scan(s, i).end,
    decreases s.len() - i,
{
    if i < s.len() && s[i] == '\\' && i + 1 < s.len() {
        lemma_str_scan_bounds(s, i + 2);
    } else if i < s.len() && s[i] != '"' && s[i] != '\\' {
        lemma_str_scan_bounds(s, i + 1);
    }
}

/// A string-literal scan that never finds its closing quote runs to the
/// end of the input.
pub proof fn lemma_str_scan_unterminated(s: Seq<char>, i: int)
    requires
        0 <= i <= s.len(),
        !str_terminated(s, i),
    ensures
        str_scan(s, i).end == s.len(),
    decreases s.len() - i,
{
    if i < s.len() {
        if s[i] == '\\' && i + 1 < s.len() {
            lemma_str_scan_unterminated(s, i + 2);
        } else if s[i] != '"' && s[i] != '\\' {
            lemma_str_scan_unterminated(s, i + 1);
        }
    }
}

/// One iteration in string-literal mode, entered with the opening quote
/// already consumed and the token started at `start`: it always emits a
/// string token, terminated or not.
pub open spec fn step_string(s: Seq<char>, i: int, start: int) -> StepRes {
    let sc = str_scan(s, i);
    StepRes {
        i2: sc.end,
        mode: ModeModel::Normal,
        token: Some(tok_at(s, TokenKind::StringLit { value: sc.value }, start, sc.end)),
        errs: sc.errs,
    }
}

/// The index directly after the next `'`, or the length if there is none:
/// how a character literal resynchronizes after `TooManyChars`.
pub open spec fn skip_to_quote(s: Seq<char>, k: int) -> int
    decreases s.len() - k,
    when 0 <= k <= s.len()
{
    if k >= s.len() {
        s.len() as int
    } else if s[k] == '\'' {
        k + 1
    } else {
        skip_to_quote(s, k + 1)
    }
}

pub proof fn lemma_skip_to_quote_bounds(s: Seq<char>, k: int)
    requires
        0 <= k <= s.len(),
    ensures
        k <= skip_to_quote(s, k) <= s.len(),
    decreases s.len() - k,
{
    if k < s.len() && s[k] != '\'' {
        lemma_skip_to_quote_bounds(s, k + 1);
    }
}

/// The value of a character literal whose content starts at `p1`: the
/// (possibly escaped) character, the index after it, and any diagnostics.
/// `''` records `EmptyCharLiteral` and defaults to a null sentinel. A
/// backslash with nothing after it leaves the null sentinel and records
/// nothing here: the missing closing quote yields the literal's single
/// `UnterminatedChar`.
pub ghost struct CharVal {
    pub value: char,
    pub vi: int,
    pub errs: Seq<LexErrorModel>,
}

pub open spec fn char_value(s: Seq<char>, p1: int) -> CharVal {
    let c = s[p1];
    if c == '\'' {
        CharVal {
            value: '\0',
            vi: p1 + 1,
            errs: seq![err_at(s, LexErrorType::EmptyCharLiteral, p1 + 1)],
        }
    } else if c == '\\' {
        if p1 + 1 >= s.len() {
            CharVal { value: '\0', vi: s.len() as int, errs: Seq::empty() }
        } else {
            let e = s[p1 + 1];
            CharVal {
                value: char_escape_char(e),
                vi: p1 + 2,
                errs: if char_valid_escape(e) {
                    Seq::empty()
                } else {
                    seq![err_at(s, LexErrorType::InvalidEscape(e), p1 + 2)]
                },
            }
        }
    } else {
        CharVal { value: c, vi: p1 + 1, errs: Seq::empty() }
    }
}

/// One iteration in character-literal mode, entered at the opening quote
/// itself: consume the quote, one (possibly escaped) character, and the
/// closing quote, resynchronizing past extra characters.
pub open spec fn step_char(s: Seq<char>, i: int, start: int) -> StepRes {
    let p1 = if i < s.len() {
        i + 1
    } else {
        i
    };
    if p1 >= s.len() {
        StepRes {
            i2: s.len() as int,
            mode: ModeModel::Normal,
            token: None,
            errs: seq![err_at(s, LexErrorType::UnterminatedChar, s.len() as int)],
        }
    } else {
        let cv = char_value(s, p1);
        let end = if cv.vi >= s.len() {
            s.len() as int
        } else if s[cv.vi] == '\'' {
            cv.vi + 1
        } else {
            skip_to_quote(s, cv.vi + 1)
        };
        let close_errs = if cv.vi >= s.len() {
            seq![err_at(s, LexErrorType::UnterminatedChar, s.len() as int)]
        } else if s[cv.vi] == '\'' {
            Seq::empty()
        } else {
            seq![err_at(s, LexErrorType::TooManyChars, cv.vi + 1)]
        };
        StepRes {
            i2: end,
            mode: ModeModel::Normal,
            token: Some(tok_at(s, TokenKind::CharLit { value: cv.value }, start, end)),
            errs: cv.errs + close_errs,
        }
    }
}

/// The index directly after the closing `*/`, or the length.
pub open spec fn block_end(s: Seq<char>, i: int) -> int
    decreases s.len() - i,
    when 0 <= i <= s.len()
{
    if i >= s.len() {
        s.len() as int
    } else if s[i] == '*' && i + 1 < s.len() && s[i + 1] == '/' {
        i + 2
    } else {
        block_end(s, i + 1)
    }
}

pub proof fn lemma_block_end_bounds(s: Seq<char>, i: int)
    requires
        0 <= i <= s.len(),
    ensures
        i <= block_end(s, i) <= s.len(),
        i < s.len() ==> i + 1 <= block_end(s, i),
    decreases s.len() - i,
{
    if i < s.len() && !(s[i] == '*' && i + 1 < s.len() && s[i + 1] == '/') {
        lemma_block_end_bounds(s, i + 1);
    }
}

/// The index directly after the next newline, or the length.
pub open spec fn line_end(s: Seq<char>, i: int) -> int
    decreases s.len() - i,
    when 0 <= i <= s.len()
{
    if i >= s.len() {
        s.len() as int
    } else if s[i] == '\n' {
        i + 1
    } else {
        line_end(s, i + 1)
    }
}

pub proof fn lemma_line_end_bounds(s: Seq<char>, i: int)
    requires
        0 <= i <= s.len(),
    ensures
        i <= line_end(s, i) <= s.len(),
        i < s.len() ==> i + 1 <= line_end(s, i),
    decreases s.len() - i,
{
    if i < s.len() && s[i] != '\n' {
        lemma_line_end_bounds(s, i + 1);
    }
}

/// One iteration in block-comment mode: consume up to and including the
/// closing `*/` and return to normal mode; no token.
pub open spec fn step_block(s: Seq<char>, i: int) -> StepRes {
    StepRes { i2: block_end(s, i), mode: ModeModel::Normal, token: None, errs: Seq::empty() }
}

/// One iteration in line-comment mode: consume up to and including the
/// newline and return to normal mode; no token.
pub open spec fn step_line(s: Seq<char>, i: int) -> StepRes {
    StepRes { i2: line_end(s, i), mode: ModeModel::Normal, token: None, errs: Seq::empty() }
}

/// One iteration of the scanner in state `st`.
pub open spec fn step_of(s: Seq<char>, st: StModel) -> StepRes {
    match st.mode {
        ModeModel::Normal => step_normal(s, st.i),
        ModeModel::StringLit { start } => step_string(s, st.i, start),
        ModeModel::CharLit { start } => step_char(s, st.i, start),
        ModeModel::BlockComment => step_block(s, st.i),
        ModeModel::LineComment => step_line(s, st.i),
    }
}

/// Only the transition from normal mode to a character literal leaves the
/// cursor in place; every other step consumes at least one character.
pub open spec fn mode_rank(m: ModeModel) -> nat {
    match m {
        ModeModel::Normal => 1,
        _ => 0,
    }
}

pub proof fn lemma_step_bounds(s: Seq<char>, st: StModel)
    requires
        0 <= st.i < s.len(),
    ensures
        st.i <= step_of(s, st).i2 <= s.len(),
        step_of(s, st).i2 == st.i ==> mode_rank(step_of(s, st).mode) < mode_rank(st.mode),
{
    match st.mode {
        ModeModel::Normal => {
            lemma_ws_end_bounds(s, st.i);
            let j = ws_end(s, st.i);
            if j < s.len() {
                lemma_ident_end_bounds(s, j + 1);
                lemma_number_end_bounds(s, j + 1);
            }
        },
        ModeModel::StringLit { start } => {
            lemma_str_scan_bounds(s, st.i);
        },
        ModeModel::CharLit { start } => {
            let p1 = st.i + 1;
            if p1 < s.len() {
                let cv = char_value(s, p1);
                if cv.vi < s.len() && s[cv.vi] != '\'' {
                    lemma_skip_to_quote_bounds(s, cv.vi + 1);
                }
            }
        },
        ModeModel::BlockComment => {
            lemma_block_end_bounds(s, st.i);
        },
        ModeModel::LineComment => {
            lemma_line_end_bounds(s, st.i);
        },
    }
}

// ------------------------------------------------------------------
// The whole pass
// ------------------------------------------------------------------
/// Everything the scan produces: the tokens in order and the diagnostics
/// in order. The two channels are independent.
pub ghost struct ScanOut {
    pub tokens: Seq<TokenModel>,
    pub errors: Seq<LexErrorModel>,
}

/// Drive the machine from `st` until the characters are exhausted,
/// collecting tokens and diagnostics.
pub open spec fn run(s: Seq<char>, st: StModel) -> ScanOut
    decreases s.len() - st.i, mode_rank(st.mode),
    when 0 <= st.i <= s.len()
{
    if st.i >= s.len() {
        ScanOut { tokens: Seq::empty(), errors: Seq::empty() }
    } else {
        let r = step_of(s, st);
        proof {
            lemma_step_bounds(s, st);
        }
        let rest = run(s, StModel { i: r.i2, mode: r.mode });
        ScanOut {
            tokens: (match r.token {
                Some(t) => seq![t],
                None => Seq::empty(),
            }) + rest.tokens,
            errors: r.errs + rest.errors,
        }
    }
}

/// The terminal token appended once the characters are exhausted.
pub open spec fn eof_model(s: Seq<char>) -> TokenModel {
    TokenModel {
        kind: TokenKind::Eof,
        lexeme: Seq::empty(),
        line: line_at(s, s.len() as int),
        column: col_at(s, s.len() as int),
    }
}

/// The model of a whole scan of `s` from a fresh scanner: the machine run
/// from the initial state, terminated by `Eof`.
pub open spec fn scan_spec(s: Seq<char>) -> ScanOut {
    let r = run(s, StModel { i: 0, mode: ModeModel::Normal });
    ScanOut { tokens: r.tokens + seq![eof_model(s)], errors: r.errors }
}

} // verus!
