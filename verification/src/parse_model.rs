//! The mathematical model of the parser.
//!
//! Each grammar rule is a function from the token sequence and a cursor to
//! a `PRes`: the parsed value and the cursor after it, or a failure with
//! its message and the cursor where the attempt stopped. The functions
//! take a fuel parameter only to witness termination; `Fail` means the
//! fuel ran out, never that the grammar rejected anything, and every
//! contract on the executable parser quantifies the fuel away.

use vstd::prelude::*;

use crate::ast::{
    binary_op_of, unary_op_of, BinaryOp, ExprModel, FunctionModel, Literal, StmtModel, UnaryOp,
    VariableDeclModel,
};
use crate::char_classes::dec_digit;
use crate::tokens::{TokenKind, TokenModel};

verus! {

/// What one grammar rule yields.
pub ghost enum PRes<T> {
    Ready { v: T, next: int },
    Error { msg: Seq<char>, next: int },
    Fail,
}

/// A model result describes an executable result when either the fuel ran
/// out or they are the same.
pub open spec fn agrees<T>(m: PRes<T>, r: PRes<T>) -> bool {
    m is Fail || m == r
}

// ------------------------------------------------------------------
// Cursor discipline
// ------------------------------------------------------------------
/// The cursor has reached the terminal token or the end of the sequence.
pub open spec fn at_end(toks: Seq<TokenModel>, i: int) -> bool {
    i >= toks.len() || toks[i].kind is Eof
}

/// Grammar dispatch matches `Identifier` and `Number` expectations on the
/// variant alone, ignoring the payload; every other expectation matches
/// exactly.
pub open spec fn kind_matches(actual: TokenKind, expected: TokenKind) -> bool {
    match (actual, expected) {
        (TokenKind::Identifier { .. }, TokenKind::Identifier { .. }) => true,
        (TokenKind::Number { .. }, TokenKind::Number { .. }) => true,
        _ => actual == expected,
    }
}

/// Non-consuming lookahead: there is a token at `i` (not the terminal
/// one) and it matches the expectation.
pub open spec fn check_at(toks: Seq<TokenModel>, i: int, expected: TokenKind) -> bool {
    0 <= i && !at_end(toks, i) && kind_matches(toks[i].kind, expected)
}

/// A wildcard identifier expectation, for "is this an identifier" probes
/// that do not care which one.
pub open spec fn ident_wild() -> TokenKind {
    TokenKind::Identifier { text: Seq::empty() }
}

// ------------------------------------------------------------------
// Failure messages
// ------------------------------------------------------------------
/// The decimal digit characters.
pub open spec fn digit_char(d: nat) -> char {
    if d == 0 {
        '0'
    } else if d == 1 {
        '1'
    } else if d == 2 {
        '2'
    } else if d == 3 {
        '3'
    } else if d == 4 {
        '4'
    } else if d == 5 {
        '5'
    } else if d == 6 {
        '6'
    } else if d == 7 {
        '7'
    } else if d == 8 {
        '8'
    } else {
        '9'
    }
}

/// The decimal numeral for `n`, without a sign and without leading
/// zeroes (except for `0` itself).
pub open spec fn dec_str(n: nat) -> Seq<char>
    decreases n,
{
    if n < 10 {
        seq![digit_char(n)]
    } else {
        dec_str(n / 10).push(digit_char(n % 10))
    }
}

/// The bare name of a token's variant, as failure messages cite it.
pub open spec fn kind_name(k: TokenKind) -> Seq<char> {
    match k {
        TokenKind::Let => "Let"@,
        TokenKind::If => "If"@,
        TokenKind::For => "For"@,
        TokenKind::While => "While"@,
        TokenKind::Function => "Function"@,
        TokenKind::Identifier { .. } => "Identifier"@,
        TokenKind::Number { .. } => "Number"@,
        TokenKind::StringLit { .. } => "String"@,
        TokenKind::CharLit { .. } => "Char"@,
        TokenKind::Equals => "Equals"@,
        TokenKind::EqualsEquals => "EqualsEquals"@,
        TokenKind::Bang => "Bang"@,
        TokenKind::BangEquals => "BangEquals"@,
        TokenKind::Plus => "Plus"@,
        TokenKind::Minus => "Minus"@,
        TokenKind::Multiply => "Multiply"@,
        TokenKind::Divide => "Divide"@,
        TokenKind::Modulo => "Modulo"@,
        TokenKind::LessThan => "LessThan"@,
        TokenKind::LessThanOrEqual => "LessThanOrEqual"@,
        TokenKind::GreaterThan => "GreaterThan"@,
        TokenKind::GreaterThanOrEqual => "GreaterThanOrEqual"@,
        TokenKind::Dot => "Dot"@,
        TokenKind::Range => "Range"@,
        TokenKind::Comma => "Comma"@,
        TokenKind::SemiColon => "SemiColon"@,
        TokenKind::CurlyOpen => "CurlyOpen"@,
        TokenKind::CurlyClose => "CurlyClose"@,
        TokenKind::BracketOpen => "BracketOpen"@,
        TokenKind::BracketClose => "BracketClose"@,
        TokenKind::ParenthesesOpen => "ParenthesesOpen"@,
        TokenKind::ParenthesesClose => "ParenthesesClose"@,
        TokenKind::Eof => "Eof"@,
    }
}

/// The message of a failed checked advance: what was expected, where, and
/// what stood there instead.
pub open spec fn consume_msg(
    message: Seq<char>,
    expected: TokenKind,
    toks: Seq<TokenModel>,
    i: int,
) -> Seq<char> {
    if 0 <= i < toks.len() {
        message + " at line "@ + dec_str(toks[i].line) + ". Expected "@ + kind_name(expected)
            + ", found "@ + kind_name(toks[i].kind)
    } else {
        message + " at end of input. Expected "@ + kind_name(expected)
    }
}

// ------------------------------------------------------------------
// Numeric literals
// ------------------------------------------------------------------
/// Whether `t` is a non-empty run of decimal digits.
pub open spec fn is_dec_digits(t: Seq<char>) -> bool {
    t.len() > 0 && (forall|k: int| 0 <= k < t.len() ==> dec_digit(#[trigger] t[k]))
}

/// The value of a digit run.
pub open spec fn digits_val(t: Seq<char>) -> nat
    decreases t.len(),
{
    if t.len() == 0 {
        0
    } else {
        digits_val(t.drop_last()) * 10 + ((t.last() as u32 - '0' as u32) as nat)
    }
}

/// Extending a digit run never shrinks its value.
pub proof fn lemma_digits_val_prefix_le(t: Seq<char>, k: int)
    requires
        0 <= k <= t.len(),
    ensures
        digits_val(t.subrange(0, k)) <= digits_val(t),
    decreases t.len() - k,
{
    if k < t.len() {
        lemma_digits_val_prefix_le(t, k + 1);
        assert(t.subrange(0, k + 1).drop_last() =~= t.subrange(0, k));
        assert(digits_val(t.subrange(0, k)) <= digits_val(t.subrange(0, k + 1)));
    } else {
        assert(t.subrange(0, k) =~= t);
    }
}

/// What a numeric token's text denotes as a 32-bit integer: its decimal
/// value if the text is all digits and the value fits, nothing otherwise.
/// Only an unsigned digit run is accepted, deliberately: the scanner
/// never puts a sign into a number token's text, so signed text can
/// reach the parser only in a hand-made token, and it is rejected.
pub open spec fn i32_of_text(t: Seq<char>) -> Option<i32> {
    if is_dec_digits(t) && digits_val(t) <= i32::MAX {
        Some(digits_val(t) as i32)
    } else {
        None
    }
}

// ------------------------------------------------------------------
// Expressions, lowest precedence first
// ------------------------------------------------------------------
/// An expression is an assignment.
pub open spec fn p_expression(toks: Seq<TokenModel>, i: int, fuel: nat) -> PRes<ExprModel>
    decreases fuel,
{
    if fuel == 0 {
        PRes::Fail
    } else {
        p_assignment(toks, i, (fuel - 1) as nat)
    }
}

/// Assignment: right-associative, and only a bare variable is a valid
/// target.
pub open spec fn p_assignment(toks: Seq<TokenModel>, i: int, fuel: nat) -> PRes<ExprModel>
    decreases fuel,
{
    if fuel == 0 {
        PRes::Fail
    } else {
        match p_equality(toks, i, (fuel - 1) as nat) {
            PRes::Ready { v: e, next: j } => {
                if check_at(toks, j, TokenKind::Equals) {
                    match p_assignment(toks, j + 1, (fuel - 1) as nat) {
                        PRes::Ready { v: value, next: k } => {
                            match e {
                                ExprModel::Variable { name } => PRes::Ready {
                                    v: ExprModel::Assignment { name, value: Box::new(value) },
                                    next: k,
                                },
                                _ => PRes::Error { msg: "Invalid assignment target"@, next: k },
                            }
                        },
                        r => r,
                    }
                } else {
                    PRes::Ready { v: e, next: j }
                }
            },
            r => r,
        }
    }
}

/// Equality: a left-associative run of `==` and `!=` over comparisons.
pub open spec fn p_equality(toks: Seq<TokenModel>, i: int, fuel: nat) -> PRes<ExprModel>
    decreases fuel,
{
    if fuel == 0 {
        PRes::Fail
    } else {
        match p_comparison(toks, i, (fuel - 1) as nat) {
            PRes::Ready { v: e, next: j } => p_equality_more(toks, e, j, (fuel - 1) as nat),
            r => r,
        }
    }
}

pub open spec fn p_equality_more(
    toks: Seq<TokenModel>,
    acc: ExprModel,
    i: int,
    fuel: nat,
) -> PRes<ExprModel>
    decreases fuel,
{
    if fuel == 0 {
        PRes::Fail
    } else if check_at(toks, i, TokenKind::EqualsEquals) || check_at(
        toks,
        i,
        TokenKind::BangEquals,
    ) {
        let opk = toks[i].kind;
        match p_comparison(toks, i + 1, (fuel - 1) as nat) {
            PRes::Ready { v: rhs, next: j } => {
                match binary_op_of(opk) {
                    Some(op) => p_equality_more(
                        toks,
                        ExprModel::Binary { left: Box::new(acc), op, right: Box::new(rhs) },
                        j,
                        (fuel - 1) as nat,
                    ),
                    None => PRes::Error { msg: "Unknown binary operator"@, next: j },
                }
            },
            r => r,
        }
    } else {
        PRes::Ready { v: acc, next: i }
    }
}

/// Comparison: a left-associative run of `>`, `>=`, `<`, `<=` over terms.
pub open spec fn p_comparison(toks: Seq<TokenModel>, i: int, fuel: nat) -> PRes<ExprModel>
    decreases fuel,
{
    if fuel == 0 {
        PRes::Fail
    } else {
        match p_term(toks, i, (fuel - 1) as nat) {
            PRes::Ready { v: e, next: j } => p_comparison_more(toks, e, j, (fuel - 1) as nat),
            r => r,
        }
    }
}

pub open spec fn comparison_op_at(toks: Seq<TokenModel>, i: int) -> bool {
    ||| check_at(toks, i, TokenKind::GreaterThan)
    ||| check_at(toks, i, TokenKind::GreaterThanOrEqual)
    ||| check_at(toks, i, TokenKind::LessThan)
    ||| check_at(toks, i, TokenKind::LessThanOrEqual)
}

pub open spec fn p_comparison_more(
    toks: Seq<TokenModel>,
    acc: ExprModel,
    i: int,
    fuel: nat,
) -> PRes<ExprModel>
    decreases fuel,
{
    if fuel == 0 {
        PRes::Fail
    } else if comparison_op_at(toks, i) {
        let opk = toks[i].kind;
        match p_term(toks, i + 1, (fuel - 1) as nat) {
            PRes::Ready { v: rhs, next: j } => {
                match binary_op_of(opk) {
                    Some(op) => p_comparison_more(
                        toks,
                        ExprModel::Binary { left: Box::new(acc), op, right: Box::new(rhs) },
                        j,
                        (fuel - 1) as nat,
                    ),
                    None => PRes::Error { msg: "Unknown binary operator"@, next: j },
                }
            },
            r => r,
        }
    } else {
        PRes::Ready { v: acc, next: i }
    }
}

/// Term: a left-associative run of `+` and `-` over factors.
pub open spec fn p_term(toks: Seq<TokenModel>, i: int, fuel: nat) -> PRes<ExprModel>
    decreases fuel,
{
    if fuel == 0 {
        PRes::Fail
    } else {
        match p_factor(toks, i, (fuel - 1) as nat) {
            PRes::Ready { v: e, next: j } => p_term_more(toks, e, j, (fuel - 1) as nat),
            r => r,
        }
    }
}

pub open spec fn p_term_more(
    toks: Seq<TokenModel>,
    acc: ExprModel,
    i: int,
    fuel: nat,
) -> PRes<ExprModel>
    decreases fuel,
{
    if fuel == 0 {
        PRes::Fail
    } else if check_at(toks, i, TokenKind::Plus) || check_at(toks, i, TokenKind::Minus) {
        let opk = toks[i].kind;
        match p_factor(toks, i + 1, (fuel - 1) as nat) {
            PRes::Ready { v: rhs, next: j } => {
                match binary_op_of(opk) {
                    Some(op) => p_term_more(
                        toks,
                        ExprModel::Binary { left: Box::new(acc), op, right: Box::new(rhs) },
                        j,
                        (fuel - 1) as nat,
                    ),
                    None => PRes::Error { msg: "Unknown binary operator"@, next: j },
                }
            },
            r => r,
        }
    } else {
        PRes::Ready { v: acc, next: i }
    }
}

/// Factor: a left-associative run of `*`, `/`, `%` over unaries.
pub open spec fn p_factor(toks: Seq<TokenModel>, i: int, fuel: nat) -> PRes<ExprModel>
    decreases fuel,
{
    if fuel == 0 {
        PRes::Fail
    } else {
        match p_unary(toks, i, (fuel - 1) as nat) {
            PRes::Ready { v: e, next: j } => p_factor_more(toks, e, j, (fuel - 1) as nat),
            r => r,
        }
    }
}

pub open spec fn factor_op_at(toks: Seq<TokenModel>, i: int) -> bool {
    ||| check_at(toks, i, TokenKind::Multiply)
    ||| check_at(toks, i, TokenKind::Divide)
    ||| check_at(toks, i, TokenKind::Modulo)
}

pub open spec fn p_factor_more(
    toks: Seq<TokenModel>,
    acc: ExprModel,
    i: int,
    fuel: nat,
) -> PRes<ExprModel>
    decreases fuel,
{
    if fuel == 0 {
        PRes::Fail
    } else if factor_op_at(toks, i) {
        let opk = toks[i].kind;
        match p_unary(toks, i + 1, (fuel - 1) as nat) {
            PRes::Ready { v: rhs, next: j } => {
                match binary_op_of(opk) {
                    Some(op) => p_factor_more(
                        toks,
                        ExprModel::Binary { left: Box::new(acc), op, right: Box::new(rhs) },
                        j,
                        (fuel - 1) as nat,
                    ),
                    None => PRes::Error { msg: "Unknown binary operator"@, next: j },
                }
            },
            r => r,
        }
    } else {
        PRes::Ready { v: acc, next: i }
    }
}

/// Unary: right-associative `!` and `-`, applied before primary.
pub open spec fn p_unary(toks: Seq<TokenModel>, i: int, fuel: nat) -> PRes<ExprModel>
    decreases fuel,
{
    if fuel == 0 {
        PRes::Fail
    } else if check_at(toks, i, TokenKind::Bang) || check_at(toks, i, TokenKind::Minus) {
        let opk = toks[i].kind;
        match p_unary(toks, i + 1, (fuel - 1) as nat) {
            PRes::Ready { v: rhs, next: j } => {
                match unary_op_of(opk) {
                    Some(op) => PRes::Ready {
                        v: ExprModel::Unary { op, right: Box::new(rhs) },
                        next: j,
                    },
                    None => PRes::Error { msg: "Invalid unary operator"@, next: j },
                }
            },
            r => r,
        }
    } else {
        p_primary(toks, i, (fuel - 1) as nat)
    }
}

/// Primary: an integer literal, an identifier with its postfix chain, or
/// a parenthesized grouping.
pub open spec fn p_primary(toks: Seq<TokenModel>, i: int, fuel: nat) -> PRes<ExprModel>
    decreases fuel,
{
    if fuel == 0 {
        PRes::Fail
    } else if !(0 <= i < toks.len()) {
        PRes::Error { msg: "Expected expression"@, next: i }
    } else {
        match toks[i].kind {
            TokenKind::Number { text } => {
                match i32_of_text(text) {
                    Some(n) => PRes::Ready {
                        v: ExprModel::Literal { lit: Literal::Integer(n) },
                        next: i + 1,
                    },
                    None => PRes::Error { msg: "Invalid number literal"@, next: i },
                }
            },
            TokenKind::Identifier { text: name } => p_postfix(
                toks,
                ExprModel::Variable { name },
                i + 1,
                (fuel - 1) as nat,
            ),
            TokenKind::ParenthesesOpen => {
                match p_expression(toks, i + 1, (fuel - 1) as nat) {
                    PRes::Ready { v: e, next: j } => {
                        if check_at(toks, j, TokenKind::ParenthesesClose) {
                            PRes::Ready { v: ExprModel::Grouping { inner: Box::new(e) }, next: j + 1 }
                        } else {
                            PRes::Error {
                                msg: consume_msg(
                                    "Expected ')' after expression"@,
                                    TokenKind::ParenthesesClose,
                                    toks,
                                    j,
                                ),
                                next: j,
                            }
                        }
                    },
                    r => r,
                }
            },
            _ => PRes::Error { msg: "Expected expression"@, next: i },
        }
    }
}

/// The postfix chain after a primary: `.name(...)` method calls, `.name`
/// property accesses and `(...)` calls, applied left-to-right so that
/// `a.b().c` nests with `a.b()` as the inner object.
pub open spec fn p_postfix(toks: Seq<TokenModel>, obj: ExprModel, i: int, fuel: nat) -> PRes<
    ExprModel,
>
    decreases fuel,
{
    if fuel == 0 {
        PRes::Fail
    } else if check_at(toks, i, TokenKind::Dot) {
        if at_end(toks, i + 1) {
            PRes::Error { msg: "Expected method name after '.'"@, next: i + 1 }
        } else {
            match toks[i + 1].kind {
                TokenKind::Identifier { text: m } => {
                    if check_at(toks, i + 2, TokenKind::ParenthesesOpen) {
                        match p_call_args(toks, i + 3, (fuel - 1) as nat) {
                            PRes::Ready { v: args, next: j } => p_postfix(
                                toks,
                                ExprModel::MethodAccess {
                                    object: Box::new(obj),
                                    method: Box::new(
                                        ExprModel::Call {
                                            callee: Box::new(ExprModel::Variable { name: m }),
                                            arguments: args,
                                        },
                                    ),
                                },
                                j,
                                (fuel - 1) as nat,
                            ),
                            PRes::Error { msg, next } => PRes::Error { msg, next },
                            PRes::Fail => PRes::Fail,
                        }
                    } else {
                        p_postfix(
                            toks,
                            ExprModel::PropertyAccess { object: Box::new(obj), property: m },
                            i + 2,
                            (fuel - 1) as nat,
                        )
                    }
                },
                _ => PRes::Error { msg: "Expected method name after '.'"@, next: i + 2 },
            }
        }
    } else if check_at(toks, i, TokenKind::ParenthesesOpen) {
        match p_call_args(toks, i + 1, (fuel - 1) as nat) {
            PRes::Ready { v: args, next: j } => p_postfix(
                toks,
                ExprModel::Call { callee: Box::new(obj), arguments: args },
                j,
                (fuel - 1) as nat,
            ),
            PRes::Error { msg, next } => PRes::Error { msg, next },
            PRes::Fail => PRes::Fail,
        }
    } else {
        PRes::Ready { v: obj, next: i }
    }
}

/// Call arguments, entered just after the opening parenthesis: zero or
/// more comma-separated expressions ended by the closing parenthesis; no
/// trailing comma. The cursor lands after the closing parenthesis.
pub open spec fn p_call_args(toks: Seq<TokenModel>, i: int, fuel: nat) -> PRes<Seq<ExprModel>>
    decreases fuel,
{
    if fuel == 0 {
        PRes::Fail
    } else if check_at(toks, i, TokenKind::ParenthesesClose) {
        PRes::Ready { v: Seq::empty(), next: i + 1 }
    } else {
        p_args_more(toks, Seq::empty(), i, (fuel - 1) as nat)
    }
}

pub open spec fn p_args_more(
    toks: Seq<TokenModel>,
    acc: Seq<ExprModel>,
    i: int,
    fuel: nat,
) -> PRes<Seq<ExprModel>>
    decreases fuel,
{
    if fuel == 0 {
        PRes::Fail
    } else {
        match p_expression(toks, i, (fuel - 1) as nat) {
            PRes::Ready { v: e, next: j } => {
                if check_at(toks, j, TokenKind::Comma) {
                    p_args_more(toks, acc.push(e), j + 1, (fuel - 1) as nat)
                } else if check_at(toks, j, TokenKind::ParenthesesClose) {
                    PRes::Ready { v: acc.push(e), next: j + 1 }
                } else {
                    PRes::Error {
                        msg: consume_msg(
                            "Expected ')' after arguments"@,
                            TokenKind::ParenthesesClose,
                            toks,
                            j,
                        ),
                        next: j,
                    }
                }
            },
            PRes::Error { msg, next } => PRes::Error { msg, next },
            PRes::Fail => PRes::Fail,
        }
    }
}

// ------------------------------------------------------------------
// Statements
// ------------------------------------------------------------------
/// Whether the lookahead starts a call or method-chain statement: an
/// identifier followed by `(`, or by `. identifier (`.
pub open spec fn expr_stmt_lookahead(toks: Seq<TokenModel>, i: int) -> bool {
    check_at(toks, i, ident_wild()) && (check_at(toks, i + 1, TokenKind::ParenthesesOpen) || (
    check_at(toks, i + 1, TokenKind::Dot) && check_at(toks, i + 2, ident_wild()) && check_at(
        toks,
        i + 3,
        TokenKind::ParenthesesOpen,
    )))
}

/// A statement: a variable declaration, a function declaration, a call
/// or method-chain expression statement, or a failure naming the
/// unexpected token.
pub open spec fn p_statement(toks: Seq<TokenModel>, i: int, fuel: nat) -> PRes<StmtModel>
    decreases fuel,
{
    if fuel == 0 {
        PRes::Fail
    } else if check_at(toks, i, TokenKind::Let) {
        p_var_decl(toks, i, (fuel - 1) as nat)
    } else if check_at(toks, i, TokenKind::Function) {
        p_fn_decl(toks, i, (fuel - 1) as nat)
    } else if expr_stmt_lookahead(toks, i) {
        match p_expression(toks, i, (fuel - 1) as nat) {
            PRes::Ready { v: e, next: j } => PRes::Ready {
                v: StmtModel::Expression { expr: e },
                next: j,
            },
            PRes::Error { msg, next } => PRes::Error { msg, next },
            PRes::Fail => PRes::Fail,
        }
    } else {
        PRes::Error { msg: "Unexpected statement"@, next: i }
    }
}

/// `let <identifier> = <expression> ;`, entered at the `let`.
pub open spec fn p_var_decl(toks: Seq<TokenModel>, i: int, fuel: nat) -> PRes<StmtModel>
    decreases fuel,
{
    if fuel == 0 {
        PRes::Fail
    } else {
        let j = i + 1;
        if at_end(toks, j) {
            PRes::Error { msg: "Expected identifier"@, next: j }
        } else {
            match toks[j].kind {
                TokenKind::Identifier { text: name } => {
                    if check_at(toks, j + 1, TokenKind::Equals) {
                        match p_expression(toks, j + 2, (fuel - 1) as nat) {
                            PRes::Ready { v: init, next: k } => {
                                if check_at(toks, k, TokenKind::SemiColon) {
                                    PRes::Ready {
                                        v: StmtModel::VariableDecl {
                                            decl: VariableDeclModel { name, initializer: init },
                                        },
                                        next: k + 1,
                                    }
                                } else {
                                    PRes::Error {
                                        msg: consume_msg(
                                            "Expected ';' after variable declaration"@,
                                            TokenKind::SemiColon,
                                            toks,
                                            k,
                                        ),
                                        next: k,
                                    }
                                }
                            },
                            PRes::Error { msg, next } => PRes::Error { msg, next },
                            PRes::Fail => PRes::Fail,
                        }
                    } else {
                        PRes::Error {
                            msg: consume_msg(
                                "Expected '=' after variable name"@,
                                TokenKind::Equals,
                                toks,
                                j + 1,
                            ),
                            next: j + 1,
                        }
                    }
                },
                _ => PRes::Error { msg: "Expected identifier"@, next: j },
            }
        }
    }
}

/// Parameter names between the parentheses of a function declaration:
/// identifiers separated by commas, each followed by a comma or the
/// closing parenthesis. The cursor lands on the closing parenthesis.
pub open spec fn p_params(
    toks: Seq<TokenModel>,
    acc: Seq<Seq<char>>,
    i: int,
    fuel: nat,
) -> PRes<Seq<Seq<char>>>
    decreases fuel,
{
    if fuel == 0 {
        PRes::Fail
    } else if check_at(toks, i, TokenKind::ParenthesesClose) {
        PRes::Ready { v: acc, next: i }
    } else if at_end(toks, i) {
        PRes::Error { msg: "Expected identifier"@, next: i }
    } else {
        match toks[i].kind {
            TokenKind::Identifier { text: p } => {
                let k = i + 1;
                if !check_at(toks, k, TokenKind::Comma) && !check_at(
                    toks,
                    k,
                    TokenKind::ParenthesesClose,
                ) {
                    PRes::Error { msg: "Expected ',' or ')' after parameter"@, next: k }
                } else if check_at(toks, k, TokenKind::Comma) {
                    p_params(toks, acc.push(p), k + 1, (fuel - 1) as nat)
                } else {
                    p_params(toks, acc.push(p), k, (fuel - 1) as nat)
                }
            },
            _ => PRes::Error { msg: "Expected identifier"@, next: i },
        }
    }
}

/// Body statements between the braces of a function declaration. The
/// cursor lands on the closing brace.
pub open spec fn p_body(
    toks: Seq<TokenModel>,
    acc: Seq<StmtModel>,
    i: int,
    fuel: nat,
) -> PRes<Seq<StmtModel>>
    decreases fuel,
{
    if fuel == 0 {
        PRes::Fail
    } else if check_at(toks, i, TokenKind::CurlyClose) {
        PRes::Ready { v: acc, next: i }
    } else {
        match p_statement(toks, i, (fuel - 1) as nat) {
            PRes::Ready { v: st, next: j } => p_body(toks, acc.push(st), j, (fuel - 1) as nat),
            PRes::Error { msg, next } => PRes::Error { msg, next },
            PRes::Fail => PRes::Fail,
        }
    }
}

/// `fn <identifier> ( <parameters> ) { <statements> }`, entered at the
/// `fn`.
pub open spec fn p_fn_decl(toks: Seq<TokenModel>, i: int, fuel: nat) -> PRes<StmtModel>
    decreases fuel,
{
    if fuel == 0 {
        PRes::Fail
    } else {
        let j = i + 1;
        if !check_at(toks, j, ident_wild()) {
            PRes::Error {
                msg: consume_msg("Expected function name"@, ident_wild(), toks, j),
                next: j,
            }
        } else {
            match toks[j].kind {
                TokenKind::Identifier { .. } => {
                    // a declared function is named by the token's lexeme
                    let fname = toks[j].lexeme;
                    if check_at(toks, j + 1, TokenKind::ParenthesesOpen) {
                        match p_params(toks, Seq::empty(), j + 2, (fuel - 1) as nat) {
                            PRes::Ready { v: params, next: k } => {
                                if check_at(toks, k, TokenKind::ParenthesesClose) {
                                    if check_at(toks, k + 1, TokenKind::CurlyOpen) {
                                        match p_body(toks, Seq::empty(), k + 2, (fuel - 1) as nat) {
                                            PRes::Ready { v: body, next: m } => {
                                                if check_at(toks, m, TokenKind::CurlyClose) {
                                                    PRes::Ready {
                                                        v: StmtModel::FunctionDecl {
                                                            function: FunctionModel {
                                                                name: fname,
                                                                params,
                                                                body,
                                                            },
                                                        },
                                                        next: m + 1,
                                                    }
                                                } else {
                                                    PRes::Error {
                                                        msg: consume_msg(
                                                            "Expected '}'"@,
                                                            TokenKind::CurlyClose,
                                                            toks,
                                                            m,
                                                        ),
                                                        next: m,
                                                    }
                                                }
                                            },
                                            PRes::Error { msg, next } => PRes::Error { msg, next },
                                            PRes::Fail => PRes::Fail,
                                        }
                                    } else {
                                        PRes::Error {
                                            msg: consume_msg(
                                                "Expected '{'"@,
                                                TokenKind::CurlyOpen,
                                                toks,
                                                k + 1,
                                            ),
                                            next: k + 1,
                                        }
                                    }
                                } else {
                                    PRes::Error {
                                        msg: consume_msg(
                                            "Expected ')'"@,
                                            TokenKind::ParenthesesClose,
                                            toks,
                                            k,
                                        ),
                                        next: k,
                                    }
                                }
                            },
                            PRes::Error { msg, next } => PRes::Error { msg, next },
                            PRes::Fail => PRes::Fail,
                        }
                    } else {
                        PRes::Error {
                            msg: consume_msg(
                                "Expected '('"@,
                                TokenKind::ParenthesesOpen,
                                toks,
                                j + 1,
                            ),
                            next: j + 1,
                        }
                    }
                },
                _ => PRes::Error {
                    msg: consume_msg("Expected function name"@, ident_wild(), toks, j),
                    next: j,
                },
            }
        }
    }
}

/// One top-level declaration: a `let` declaration, or whatever the
/// statement grammar accepts.
pub open spec fn p_declaration(toks: Seq<TokenModel>, i: int, fuel: nat) -> PRes<StmtModel>
    decreases fuel,
{
    if fuel == 0 {
        PRes::Fail
    } else if check_at(toks, i, TokenKind::Let) {
        p_var_decl(toks, i, (fuel - 1) as nat)
    } else {
        p_statement(toks, i, (fuel - 1) as nat)
    }
}

/// The whole program: declarations until the terminal token or the end of
/// the sequence. A declaration that fails is dropped, and parsing
/// continues from wherever the failed attempt stopped — advancing at
/// least one token, so scanning forward always makes progress.
pub open spec fn p_parse(toks: Seq<TokenModel>, i: int, fuel: nat) -> PRes<Seq<StmtModel>>
    decreases fuel,
{
    if fuel == 0 {
        PRes::Fail
    } else if at_end(toks, i) {
        PRes::Ready { v: Seq::empty(), next: i }
    } else {
        match p_declaration(toks, i, (fuel - 1) as nat) {
            PRes::Ready { v: st, next: j } => {
                match p_parse(toks, j, (fuel - 1) as nat) {
                    PRes::Ready { v: rest, next: k } => PRes::Ready { v: seq![st] + rest, next: k },
                    r => r,
                }
            },
            PRes::Error { msg, next } => {
                let j2 = if next == i {
                    i + 1
                } else {
                    next
                };
                p_parse(toks, j2, (fuel - 1) as nat)
            },
            PRes::Fail => PRes::Fail,
        }
    }
}

} // verus!
