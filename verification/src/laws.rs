//! General properties of the scanner, stated and proved over the model.

use vstd::prelude::*;

use crate::char_classes::{dec_digit, unicode_alphabetic, unicode_whitespace};
use crate::lex_errors::LexErrorType;
use crate::scan_model::{
    col_at, err_at, escape_char, line_at, run, step_normal, str_scan, valid_escape, ws_end,
    ModeModel, StModel,
};

verus! {

broadcast use crate::char_classes::lemma_seq_char_typed;

/// The number of newlines among the first `i` characters.
pub open spec fn newline_count(s: Seq<char>, i: int) -> nat
    decreases i,
{
    if i <= 0 {
        0
    } else {
        newline_count(s, i - 1) + if s[i - 1] == '\n' {
            1nat
        } else {
            0nat
        }
    }
}

/// Position round-trip, the line: after consuming any prefix, the
/// recorded line is one more than the number of newlines consumed — so
/// the token containing the first character after the k-th newline is
/// stamped with line k+1.
pub proof fn lemma_line_counts_newlines(s: Seq<char>, i: int)
    requires
        0 <= i,
    ensures
        line_at(s, i) == newline_count(s, i) + 1,
    decreases i,
{
    if i > 0 {
        lemma_line_counts_newlines(s, i - 1);
    }
}

/// Position round-trip, the column on the first line: while no newline
/// has been consumed the column is the number of consumed characters
/// plus one.
pub proof fn lemma_column_before_first_newline(s: Seq<char>, i: int)
    requires
        0 <= i,
        forall|k: int| 0 <= k < i ==> s[k] != '\n',
    ensures
        col_at(s, i) == i + 1,
        line_at(s, i) == 1,
    decreases i,
{
    if i > 0 {
        lemma_column_before_first_newline(s, i - 1);
    }
}

/// Position round-trip, the column after a newline: once the last newline
/// consumed sits at index `j`, the column is the distance consumed past
/// it plus two — the newline itself counts as the first column of its
/// line, so the character directly after it is consumed at column 2.
pub proof fn lemma_column_after_newline(s: Seq<char>, j: int, i: int)
    requires
        0 <= j < i <= s.len(),
        s[j] == '\n',
        forall|k: int| j < k < i ==> s[k] != '\n',
    ensures
        col_at(s, i) == i - j + 1,
    decreases i - j,
{
    if i == j + 1 {
    } else {
        lemma_column_after_newline(s, j, i - 1);
    }
}

/// A character no normal-mode rule recognizes.
pub open spec fn unrecognized(c: char) -> bool {
    &&& !unicode_alphabetic(c)
    &&& !dec_digit(c)
    &&& !unicode_whitespace(c)
    &&& c != '"'
    &&& c != '\''
    &&& c != '+'
    &&& c != '-'
    &&& c != '*'
    &&& c != '%'
    &&& c != ';'
    &&& c != ','
    &&& c != '{'
    &&& c != '}'
    &&& c != '['
    &&& c != ']'
    &&& c != '('
    &&& c != ')'
    &&& c != '.'
    &&& c != '='
    &&& c != '!'
    &&& c != '>'
    &&& c != '<'
    &&& c != '/'
}

/// Scanning never aborts on an unrecognized character: it records exactly
/// one `UnexpectedCharacter` diagnostic at the character's exact
/// position, emits no token for it, and the rest of the scan is exactly
/// the scan of what follows — so every valid token before and after the
/// bad character is still produced.
pub proof fn lemma_unexpected_character_skipped(s: Seq<char>, st: StModel)
    requires
        st.mode is Normal,
        0 <= st.i <= s.len(),
        ws_end(s, st.i) < s.len(),
        unrecognized(s[ws_end(s, st.i)]),
    ensures
        ({
            let j = ws_end(s, st.i);
            let rest = run(s, StModel { i: j + 1, mode: ModeModel::Normal });
            &&& run(s, st).tokens == rest.tokens
            &&& run(s, st).errors == seq![
                err_at(s, LexErrorType::UnexpectedCharacter(s[j]), j + 1),
            ] + rest.errors
        }),
{
    let j = ws_end(s, st.i);
    let rest = run(s, StModel { i: j + 1, mode: ModeModel::Normal });
    crate::scan_model::lemma_ws_end_bounds(s, st.i);
    assert(step_normal(s, st.i).errs =~= seq![
        err_at(s, LexErrorType::UnexpectedCharacter(s[j]), j + 1),
    ]);
    assert(run(s, st).tokens =~= rest.tokens);
    assert(run(s, st).errors =~= seq![err_at(s, LexErrorType::UnexpectedCharacter(s[j]), j + 1)]
        + rest.errors);
}

/// Escape fidelity: a supported escape inside a string literal
/// contributes exactly its decoded character to the value — the control
/// or literal character, never the two-character sequence — and records
/// no diagnostic of its own.
pub proof fn lemma_escape_fidelity(s: Seq<char>, i: int)
    requires
        0 <= i,
        i + 1 < s.len(),
        s[i] == '\\',
        valid_escape(s[i + 1]),
    ensures
        str_scan(s, i).value == seq![escape_char(s[i + 1])] + str_scan(s, i + 2).value,
        str_scan(s, i).errs == str_scan(s, i + 2).errs,
        escape_char('n') == '\n',
        escape_char('t') == '\t',
        escape_char('"') == '"',
        escape_char('\\') == '\\',
{
    assert(str_scan(s, i).errs =~= Seq::empty() + str_scan(s, i + 2).errs);
}

} // verus!
