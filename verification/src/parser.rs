//! The executable recursive-descent parser, verified against the model
//! in `parse_model`.
//!
//! The parser owns the full token sequence and a single forward cursor.
//! Each grammar rule's contract states that, for every sufficient fuel,
//! the model rule computes exactly this rule's result and final cursor;
//! insufficient fuel only ever yields the model's `Fail`, never a wrong
//! answer.

use vstd::prelude::*;
use vstd::string::StrSliceExecFns;
use vstd::string::StringExecFns;

use crate::ast::{
    BinaryExpr, BinaryOp, Expr, Function, Literal, Stmt, UnaryExpr, UnaryOp, Variable, VariableDecl,
};
use crate::parse_model::{
    agrees, at_end, check_at, consume_msg, dec_str, digit_char, expr_stmt_lookahead, i32_of_text,
    ident_wild, kind_matches, kind_name, p_args_more, p_assignment, p_body, p_call_args,
    p_comparison, p_comparison_more, p_declaration, p_equality, p_equality_more, p_expression,
    p_factor, p_factor_more, p_fn_decl, p_params, p_parse, p_postfix, p_primary, p_statement,
    p_term, p_term_more, p_unary, p_var_decl, PRes,
};
use crate::tokens::{Token, TokenKind, TokenType};

verus! {

/// The recursive-descent parser: the token sequence and a forward cursor.
pub struct Parser {
    pub tokens: Vec<Token>,
    pub current: usize,
}

/// The executable result of a rule, seen as the model sees it: the value's
/// model and the cursor after the rule, or the failure message and the
/// cursor where the attempt stopped.
pub open spec fn pres_of<T: DeepView>(r: Result<T, String>, next: int) -> PRes<T::V> {
    match r {
        Ok(v) => PRes::Ready { v: v.deep_view(), next },
        Err(m) => PRes::Error { msg: m@, next },
    }
}

impl Parser {
    /// The model of the token sequence.
    pub open spec fn toks(&self) -> Seq<crate::tokens::TokenModel> {
        self.tokens.deep_view()
    }

    /// The cursor never passes the end of the sequence.
    pub open spec fn wf(&self) -> bool {
        self.current <= self.tokens.len()
    }

    /// A parser over `tokens`, with the cursor at the start.
    pub fn new(tokens: Vec<Token>) -> (p: Parser)
        ensures
            p.wf(),
            p.tokens == tokens,
            p.current == 0,
    {
        Parser { tokens, current: 0 }
    }

    /// The token under the cursor.
    pub(crate) fn peek(&self) -> (t: &Token)
        requires
            self.current < self.tokens.len(),
        ensures
            *t == self.tokens@[self.current as int],
    {
        &self.tokens[self.current]
    }

    /// The token `n` places past the cursor, if the sequence reaches that
    /// far.
    pub(crate) fn peek_n(&self, n: usize) -> (t: Option<&Token>)
        requires
            self.wf(),
        ensures
            self.current + n < self.tokens.len() ==> (t matches Some(tok) && *tok
                == self.tokens@[self.current + n]),
            self.current + n >= self.tokens.len() ==> t is None,
    {
        if n < self.tokens.len() - self.current {
            Some(&self.tokens[self.current + n])
        } else {
            None
        }
    }

    /// The token before the cursor.
    pub(crate) fn previous(&self) -> (t: &Token)
        requires
            0 < self.current <= self.tokens.len(),
        ensures
            *t == self.tokens@[self.current - 1],
    {
        &self.tokens[self.current - 1]
    }

    /// Whether the cursor has reached the terminal token or the end of
    /// the sequence.
    pub(crate) fn is_at_end(&self) -> (r: bool)
        requires
            self.wf(),
        ensures
            r == at_end(self.toks(), self.current as int),
    {
        if self.current >= self.tokens.len() {
            true
        } else {
            matches!(self.tokens[self.current].token_type, TokenType::Eof)
        }
    }

    /// Step over the token under the cursor and hand it back; never steps
    /// past the terminal token.
    pub(crate) fn advance(&mut self) -> (t: Token)
        requires
            old(self).wf(),
            0 < old(self).current || !at_end(old(self).toks(), old(self).current as int),
        ensures
            final(self).wf(),
            final(self).tokens == old(self).tokens,
            !at_end(old(self).toks(), old(self).current as int) ==> {
                &&& final(self).current == old(self).current + 1
                &&& t == old(self).tokens@[old(self).current as int]
            },
            at_end(old(self).toks(), old(self).current as int) ==> {
                &&& final(self).current == old(self).current
                &&& t == old(self).tokens@[old(self).current - 1]
            },
    {
        if !self.is_at_end() {
            self.current = self.current + 1;
        }
        self.previous().clone()
    }

    /// Whether the views of two token shapes are the same, payloads
    /// included.
    fn tt_eq(a: &TokenType, b: &TokenType) -> (r: bool)
        ensures
            r == (a@ == b@),
    {
        match (a, b) {
            (TokenType::Let, TokenType::Let) => true,
            (TokenType::If, TokenType::If) => true,
            (TokenType::For, TokenType::For) => true,
            (TokenType::While, TokenType::While) => true,
            (TokenType::Function, TokenType::Function) => true,
            (TokenType::Identifier(x), TokenType::Identifier(y)) => x.eq(y),
            (TokenType::Number(x), TokenType::Number(y)) => x.eq(y),
            (TokenType::String(x), TokenType::String(y)) => x.eq(y),
            (TokenType::Char(x), TokenType::Char(y)) => x == y,
            (TokenType::Equals, TokenType::Equals) => true,
            (TokenType::EqualsEquals, TokenType::EqualsEquals) => true,
            (TokenType::Bang, TokenType::Bang) => true,
            (TokenType::BangEquals, TokenType::BangEquals) => true,
            (TokenType::Plus, TokenType::Plus) => true,
            (TokenType::Minus, TokenType::Minus) => true,
            (TokenType::Multiply, TokenType::Multiply) => true,
            (TokenType::Divide, TokenType::Divide) => true,
            (TokenType::Modulo, TokenType::Modulo) => true,
            (TokenType::LessThan, TokenType::LessThan) => true,
            (TokenType::LessThanOrEqual, TokenType::LessThanOrEqual) => true,
            (TokenType::GreaterThan, TokenType::GreaterThan) => true,
            (TokenType::GreaterThanOrEqual, TokenType::GreaterThanOrEqual) => true,
            (TokenType::Dot, TokenType::Dot) => true,
            (TokenType::Range, TokenType::Range) => true,
            (TokenType::Comma, TokenType::Comma) => true,
            (TokenType::SemiColon, TokenType::SemiColon) => true,
            (TokenType::CurlyOpen, TokenType::CurlyOpen) => true,
            (TokenType::CurlyClose, TokenType::CurlyClose) => true,
            (TokenType::BracketOpen, TokenType::BracketOpen) => true,
            (TokenType::BracketClose, TokenType::BracketClose) => true,
            (TokenType::ParenthesesOpen, TokenType::ParenthesesOpen) => true,
            (TokenType::ParenthesesClose, TokenType::ParenthesesClose) => true,
            (TokenType::Eof, TokenType::Eof) => true,
            _ => false,
        }
    }

    /// Whether a token shape matches an expectation for grammar
    /// dispatch: an `Identifier` or `Number` expectation matches any
    /// payload of that variant, everything else matches exactly.
    fn tt_matches(actual: &TokenType, expected: &TokenType) -> (r: bool)
        ensures
            r == kind_matches(actual@, expected@),
    {
        match (actual, expected) {
            (TokenType::Identifier(_), TokenType::Identifier(_)) => true,
            (TokenType::Number(_), TokenType::Number(_)) => true,
            (a, b) => Self::tt_eq(a, b),
        }
    }

    /// Non-consuming lookahead: whether the token under the cursor
    /// matches the expectation. An `Identifier` or `Number` expectation
    /// matches any payload of that variant.
    pub(crate) fn check(&self, token_type: &TokenType) -> (r: bool)
        requires
            self.wf(),
        ensures
            r == check_at(self.toks(), self.current as int, token_type@),
    {
        if self.is_at_end() {
            return false;
        }
        Self::tt_matches(&self.tokens[self.current].token_type, token_type)
    }

    /// Non-consuming lookahead over several consecutive tokens: whether
    /// each one matches the expected shape, with the same wildcard rule
    /// as `check` for `Identifier` and `Number` expectations.
    pub(crate) fn check_sequence(&self, sequence: &[TokenType]) -> (r: bool)
        requires
            self.wf(),
        ensures
            r == (forall|k: int|
                0 <= k < sequence@.len() ==> self.current + k < self.tokens.len()
                    && kind_matches(
                    (#[trigger] self.toks()[self.current + k].kind),
                    sequence@[k]@,
                )),
    {
        let mut k: usize = 0;
        while k < sequence.len()
            invariant
                self.wf(),
                k <= sequence@.len(),
                forall|m: int|
                    0 <= m < k ==> self.current + m < self.tokens.len() && kind_matches(
                        (#[trigger] self.toks()[self.current + m].kind),
                        sequence@[m]@,
                    ),
            decreases sequence@.len() - k,
        {
            match self.peek_n(k) {
                Some(t) => {
                    if !Self::tt_matches(&t.token_type, &sequence[k]) {
                        proof {
                            assert(!kind_matches(
                                self.toks()[self.current + k as int].kind,
                                sequence@[k as int]@,
                            ));
                        }
                        return false;
                    }
                },
                None => {
                    proof {
                        assert(self.current + k as int >= self.tokens.len());
                    }
                    return false;
                },
            }
            proof {
                assert(kind_matches(
                    self.toks()[self.current + k as int].kind,
                    sequence@[k as int]@,
                ));
            }
            k = k + 1;
        }
        true
    }

    /// A checked advance: consume the expected token, or fail with a
    /// positioned message naming the expectation and what stood there.
    pub(crate) fn consume(&mut self, token_type: TokenType, message: &str) -> (r: Result<
        Token,
        String,
    >)
        requires
            old(self).wf(),
        ensures
            final(self).wf(),
            final(self).tokens == old(self).tokens,
            check_at(old(self).toks(), old(self).current as int, token_type@) ==> {
                &&& r matches Ok(t) && t == old(self).tokens@[old(self).current as int]
                &&& final(self).current == old(self).current + 1
            },
            !check_at(old(self).toks(), old(self).current as int, token_type@) ==> {
                &&& r matches Err(m) && m@ == consume_msg(
                    message@,
                    token_type@,
                    old(self).toks(),
                    old(self).current as int,
                )
                &&& final(self).current == old(self).current
            },
    {
        if self.check(&token_type) {
            Ok(self.advance())
        } else {
            let ghost toks = self.toks();
            let ghost i = self.current as int;
            let mut m = message.to_owned();
            if self.current < self.tokens.len() {
                m.append(" at line ");
                let line_str = usize_to_string(self.tokens[self.current].line);
                m.append(line_str.as_str());
                m.append(". Expected ");
                let en = token_type_name(&token_type);
                m.append(en.as_str());
                m.append(", found ");
                let fnm = token_type_name(&self.tokens[self.current].token_type);
                m.append(fnm.as_str());
                proof {
                    assert(m@ =~= consume_msg(message@, token_type@, toks, i));
                }
            } else {
                m.append(" at end of input. Expected ");
                let en = token_type_name(&token_type);
                m.append(en.as_str());
                proof {
                    assert(m@ =~= consume_msg(message@, token_type@, toks, i));
                }
            }
            Err(m)
        }
    }

    /// Consume an identifier token and hand back its lexeme, or fail
    /// with the caller's message.
    pub(crate) fn parse_identifier(&mut self, message: &str) -> (r: Result<String, String>)
        requires
            old(self).wf(),
        ensures
            final(self).wf(),
            final(self).tokens == old(self).tokens,
            check_at(old(self).toks(), old(self).current as int, ident_wild()) ==> {
                &&& r matches Ok(s) && s@ == old(self).toks()[old(self).current as int].lexeme
                &&& old(self).toks()[old(self).current as int].kind is Identifier
                &&& final(self).current == old(self).current + 1
            },
            !check_at(old(self).toks(), old(self).current as int, ident_wild()) ==> {
                &&& r matches Err(m) && m@ == consume_msg(
                    message@,
                    ident_wild(),
                    old(self).toks(),
                    old(self).current as int,
                )
                &&& final(self).current == old(self).current
            },
    {
        proof {
            reveal_strlit("");
        }
        match self.consume(TokenType::Identifier(String::new()), message) {
            Ok(t) => Ok(t.lexeme),
            Err(m) => Err(m),
        }
    }
}

impl Parser {
    /// Equality: a left-associative run of `==` and `!=` over comparisons.
    #[verifier::rlimit(80)]
    fn equality(&mut self) -> (r: (Result<Expr, String>, Ghost<nat>))
        requires
            old(self).wf(),
        ensures
            rule_frame(*old(self), *final(self)),
            r.0 is Ok ==> old(self).current < final(self).current,
            forall|f: nat|
                agrees(
                    #[trigger] p_equality(old(self).toks(), old(self).current as int, f),
                    pres_of(r.0, final(self).current as int),
                ),
            forall|f: nat|
                f >= r.1@ ==> #[trigger] p_equality(old(self).toks(), old(self).current as int, f)
                    == pres_of(r.0, final(self).current as int),
        decreases self.tokens.len() - self.current, 18int,
    {
        let ghost toks = old(self).toks();
        let ghost i = old(self).current as int;
        let (r0, fw1) = self.comparison();
        match r0 {
            Err(m) => {
                    proof {
                        let res = pres_of::<Expr>(Err(m), self.current as int);
                        assert forall|f: nat| agrees(#[trigger] p_equality(toks, i, f), res) by {
                            if f > 0 {
                                assert(agrees(p_comparison(toks, i, (f - 1) as nat), res));
                            }
                        }
                        assert forall|f: nat| f >= fw1@ + 1 implies #[trigger] p_equality(toks, i, f)
                            == res by {
                            assert(p_comparison(toks, i, (f - 1) as nat) == res);
                        }
                    }
                    (Err(m), Ghost(fw1@ + 1))
            },
            Ok(e) => {
                let ghost ev = e.deep_view();
                let ghost mid = self.current as int;
                let ghost res1: PRes<crate::ast::ExprModel> = PRes::Ready { v: ev, next: mid };
                let (r2, fw2) = self.equality_more(e);
                proof {
                    let res = pres_of(r2, self.current as int);
                    assert forall|f: nat| agrees(#[trigger] p_equality(toks, i, f), res) by {
                        if f > 0 {
                            assert(agrees(p_comparison(toks, i, (f - 1) as nat), res1));
                            assert(agrees(p_equality_more(toks, ev, mid, (f - 1) as nat), res));
                        }
                    }
                    assert forall|f: nat| f >= fw1@ + fw2@ + 1 implies #[trigger] p_equality(toks, i, f)
                        == res by {
                        assert(p_comparison(toks, i, (f - 1) as nat) == res1);
                        assert(p_equality_more(toks, ev, mid, (f - 1) as nat) == res);
                    }
                }
                (r2, Ghost(fw1@ + fw2@ + 1))
            },
        }
    }

    /// The operator run continuing a equality whose left operand is
    /// already parsed.
    #[verifier::rlimit(80)]
    fn equality_more(&mut self, left: Expr) -> (r: (Result<Expr, String>, Ghost<nat>))
        requires
            old(self).wf(),
        ensures
            rule_frame(*old(self), *final(self)),
            forall|f: nat|
                agrees(
                    #[trigger] p_equality_more(old(self).toks(), left.deep_view(), old(self).current as int, f),
                    pres_of(r.0, final(self).current as int),
                ),
            forall|f: nat|
                f >= r.1@ ==> #[trigger] p_equality_more(
                    old(self).toks(),
                    left.deep_view(),
                    old(self).current as int,
                    f,
                ) == pres_of(r.0, final(self).current as int),
        decreases self.tokens.len() - self.current, 17int,
    {
        let ghost toks = old(self).toks();
        let ghost i = old(self).current as int;
        let ghost lv = left.deep_view();
        if self.check(&TokenType::EqualsEquals) || self.check(&TokenType::BangEquals) {
            let operator = self.advance();
            let (r0, fw1) = self.comparison();
            match r0 {
                Err(m) => {
                    proof {
                        let res = pres_of::<Expr>(Err(m), self.current as int);
                        assert forall|f: nat| agrees(#[trigger] p_equality_more(toks, lv, i, f), res) by {
                            if f > 0 {
                                assert(agrees(p_comparison(toks, i + 1, (f - 1) as nat), res));
                            }
                        }
                        assert forall|f: nat| f >= fw1@ + 1 implies #[trigger] p_equality_more(toks, lv, i, f)
                            == res by {
                            assert(p_comparison(toks, i + 1, (f - 1) as nat) == res);
                        }
                    }
                    (Err(m), Ghost(fw1@ + 1))
                },
                Ok(right) => {
                    let ghost rv = right.deep_view();
                    let ghost mid = self.current as int;
                    let ghost res1: PRes<crate::ast::ExprModel> = PRes::Ready { v: rv, next: mid };
                    match BinaryOp::new(operator.token_type) {
                        Err(m) => {
                            proof {
                                let res = pres_of::<Expr>(Err(m), self.current as int);
                                assert forall|f: nat| agrees(#[trigger] p_equality_more(toks, lv, i, f), res) by {
                                    if f > 0 {
                                        assert(agrees(p_comparison(toks, i + 1, (f - 1) as nat), res1));
                                    }
                                }
                                assert forall|f: nat| f >= fw1@ + 1 implies #[trigger] p_equality_more(
                                    toks,
                                    lv,
                                    i,
                                    f,
                                ) == res by {
                                    assert(p_comparison(toks, i + 1, (f - 1) as nat) == res1);
                                }
                            }
                            (Err(m), Ghost(fw1@ + 1))
                        },
                        Ok(op) => {
                            let combined = Expr::Binary(
                                BinaryExpr::new(Box::new(left), op, Box::new(right)),
                            );
                            let ghost cv = combined.deep_view();
                            proof {
                                assert(cv == (crate::ast::ExprModel::Binary {
                                    left: Box::new(lv),
                                    op,
                                    right: Box::new(rv),
                                }));
                            }
                            let (r2, fw2) = self.equality_more(combined);
                            proof {
                                let res = pres_of(r2, self.current as int);
                                assert forall|f: nat| agrees(#[trigger] p_equality_more(toks, lv, i, f), res) by {
                                    if f > 0 {
                                        assert(agrees(p_comparison(toks, i + 1, (f - 1) as nat), res1));
                                        assert(agrees(p_equality_more(toks, cv, mid, (f - 1) as nat), res));
                                    }
                                }
                                assert forall|f: nat| f >= fw1@ + fw2@ + 1 implies #[trigger] p_equality_more(
                                    toks,
                                    lv,
                                    i,
                                    f,
                                ) == res by {
                                    assert(p_comparison(toks, i + 1, (f - 1) as nat) == res1);
                                    assert(p_equality_more(toks, cv, mid, (f - 1) as nat) == res);
                                }
                            }
                            (r2, Ghost(fw1@ + fw2@ + 1))
                        },
                    }
                },
            }
        } else {
            proof {
                let res: PRes<crate::ast::ExprModel> = PRes::Ready { v: lv, next: i };
                assert(forall|f: nat| f >= 1 ==> #[trigger] p_equality_more(toks, lv, i, f) == res);
            }
            (Ok(left), Ghost(1nat))
        }
    }

    /// Comparison: a left-associative run of the ordering operators over terms.
    #[verifier::rlimit(80)]
    fn comparison(&mut self) -> (r: (Result<Expr, String>, Ghost<nat>))
        requires
            old(self).wf(),
        ensures
            rule_frame(*old(self), *final(self)),
            r.0 is Ok ==> old(self).current < final(self).current,
            forall|f: nat|
                agrees(
                    #[trigger] p_comparison(old(self).toks(), old(self).current as int, f),
                    pres_of(r.0, final(self).current as int),
                ),
            forall|f: nat|
                f >= r.1@ ==> #[trigger] p_comparison(old(self).toks(), old(self).current as int, f)
                    == pres_of(r.0, final(self).current as int),
        decreases self.tokens.len() - self.current, 16int,
    {
        let ghost toks = old(self).toks();
        let ghost i = old(self).current as int;
        let (r0, fw1) = self.term();
        match r0 {
            Err(m) => {
                    proof {
                        let res = pres_of::<Expr>(Err(m), self.current as int);
                        assert forall|f: nat| agrees(#[trigger] p_comparison(toks, i, f), res) by {
                            if f > 0 {
                                assert(agrees(p_term(toks, i, (f - 1) as nat), res));
                            }
                        }
                        assert forall|f: nat| f >= fw1@ + 1 implies #[trigger] p_comparison(toks, i, f)
                            == res by {
                            assert(p_term(toks, i, (f - 1) as nat) == res);
                        }
                    }
                    (Err(m), Ghost(fw1@ + 1))
            },
            Ok(e) => {
                let ghost ev = e.deep_view();
                let ghost mid = self.current as int;
                let ghost res1: PRes<crate::ast::ExprModel> = PRes::Ready { v: ev, next: mid };
                let (r2, fw2) = self.comparison_more(e);
                proof {
                    let res = pres_of(r2, self.current as int);
                    assert forall|f: nat| agrees(#[trigger] p_comparison(toks, i, f), res) by {
                        if f > 0 {
                            assert(agrees(p_term(toks, i, (f - 1) as nat), res1));
                            assert(agrees(p_comparison_more(toks, ev, mid, (f - 1) as nat), res));
                        }
                    }
                    assert forall|f: nat| f >= fw1@ + fw2@ + 1 implies #[trigger] p_comparison(toks, i, f)
                        == res by {
                        assert(p_term(toks, i, (f - 1) as nat) == res1);
                        assert(p_comparison_more(toks, ev, mid, (f - 1) as nat) == res);
                    }
                }
                (r2, Ghost(fw1@ + fw2@ + 1))
            },
        }
    }

    /// The operator run continuing a comparison whose left operand is
    /// already parsed.
    #[verifier::rlimit(80)]
    fn comparison_more(&mut self, left: Expr) -> (r: (Result<Expr, String>, Ghost<nat>))
        requires
            old(self).wf(),
        ensures
            rule_frame(*old(self), *final(self)),
            forall|f: nat|
                agrees(
                    #[trigger] p_comparison_more(old(self).toks(), left.deep_view(), old(self).current as int, f),
                    pres_of(r.0, final(self).current as int),
                ),
            forall|f: nat|
                f >= r.1@ ==> #[trigger] p_comparison_more(
                    old(self).toks(),
                    left.deep_view(),
                    old(self).current as int,
                    f,
                ) == pres_of(r.0, final(self).current as int),
        decreases self.tokens.len() - self.current, 15int,
    {
        let ghost toks = old(self).toks();
        let ghost i = old(self).current as int;
        let ghost lv = left.deep_view();
        if self.check(&TokenType::GreaterThan) || self.check(&TokenType::GreaterThanOrEqual)
            || self.check(&TokenType::LessThan) || self.check(&TokenType::LessThanOrEqual) {
            let operator = self.advance();
            let (r0, fw1) = self.term();
            match r0 {
                Err(m) => {
                    proof {
                        let res = pres_of::<Expr>(Err(m), self.current as int);
                        assert forall|f: nat| agrees(#[trigger] p_comparison_more(toks, lv, i, f), res) by {
                            if f > 0 {
                                assert(agrees(p_term(toks, i + 1, (f - 1) as nat), res));
                            }
                        }
                        assert forall|f: nat| f >= fw1@ + 1 implies #[trigger] p_comparison_more(toks, lv, i, f)
                            == res by {
                            assert(p_term(toks, i + 1, (f - 1) as nat) == res);
                        }
                    }
                    (Err(m), Ghost(fw1@ + 1))
                },
                Ok(right) => {
                    let ghost rv = right.deep_view();
                    let ghost mid = self.current as int;
                    let ghost res1: PRes<crate::ast::ExprModel> = PRes::Ready { v: rv, next: mid };
                    match BinaryOp::new(operator.token_type) {
                        Err(m) => {
                            proof {
                                let res = pres_of::<Expr>(Err(m), self.current as int);
                                assert forall|f: nat| agrees(#[trigger] p_comparison_more(toks, lv, i, f), res) by {
                                    if f > 0 {
                                        assert(agrees(p_term(toks, i + 1, (f - 1) as nat), res1));
                                    }
                                }
                                assert forall|f: nat| f >= fw1@ + 1 implies #[trigger] p_comparison_more(
                                    toks,
                                    lv,
                                    i,
                                    f,
                                ) == res by {
                                    assert(p_term(toks, i + 1, (f - 1) as nat) == res1);
                                }
                            }
                            (Err(m), Ghost(fw1@ + 1))
                        },
                        Ok(op) => {
                            let combined = Expr::Binary(
                                BinaryExpr::new(Box::new(left), op, Box::new(right)),
                            );
                            let ghost cv = combined.deep_view();
                            proof {
                                assert(cv == (crate::ast::ExprModel::Binary {
                                    left: Box::new(lv),
                                    op,
                                    right: Box::new(rv),
                                }));
                            }
                            let (r2, fw2) = self.comparison_more(combined);
                            proof {
                                let res = pres_of(r2, self.current as int);
                                assert forall|f: nat| agrees(#[trigger] p_comparison_more(toks, lv, i, f), res) by {
                                    if f > 0 {
                                        assert(agrees(p_term(toks, i + 1, (f - 1) as nat), res1));
                                        assert(agrees(p_comparison_more(toks, cv, mid, (f - 1) as nat), res));
                                    }
                                }
                                assert forall|f: nat| f >= fw1@ + fw2@ + 1 implies #[trigger] p_comparison_more(
                                    toks,
                                    lv,
                                    i,
                                    f,
                                ) == res by {
                                    assert(p_term(toks, i + 1, (f - 1) as nat) == res1);
                                    assert(p_comparison_more(toks, cv, mid, (f - 1) as nat) == res);
                                }
                            }
                            (r2, Ghost(fw1@ + fw2@ + 1))
                        },
                    }
                },
            }
        } else {
            proof {
                let res: PRes<crate::ast::ExprModel> = PRes::Ready { v: lv, next: i };
                assert(forall|f: nat| f >= 1 ==> #[trigger] p_comparison_more(toks, lv, i, f) == res);
            }
            (Ok(left), Ghost(1nat))
        }
    }

    /// Term: a left-associative run of `+` and `-` over factors.
    #[verifier::rlimit(80)]
    fn term(&mut self) -> (r: (Result<Expr, String>, Ghost<nat>))
        requires
            old(self).wf(),
        ensures
            rule_frame(*old(self), *final(self)),
            r.0 is Ok ==> old(self).current < final(self).current,
            forall|f: nat|
                agrees(
                    #[trigger] p_term(old(self).toks(), old(self).current as int, f),
                    pres_of(r.0, final(self).current as int),
                ),
            forall|f: nat|
                f >= r.1@ ==> #[trigger] p_term(old(self).toks(), old(self).current as int, f)
                    == pres_of(r.0, final(self).current as int),
        decreases self.tokens.len() - self.current, 14int,
    {
        let ghost toks = old(self).toks();
        let ghost i = old(self).current as int;
        let (r0, fw1) = self.factor();
        match r0 {
            Err(m) => {
                    proof {
                        let res = pres_of::<Expr>(Err(m), self.current as int);
                        assert forall|f: nat| agrees(#[trigger] p_term(toks, i, f), res) by {
                            if f > 0 {
                                assert(agrees(p_factor(toks, i, (f - 1) as nat), res));
                            }
                        }
                        assert forall|f: nat| f >= fw1@ + 1 implies #[trigger] p_term(toks, i, f)
                            == res by {
                            assert(p_factor(toks, i, (f - 1) as nat) == res);
                        }
                    }
                    (Err(m), Ghost(fw1@ + 1))
            },
            Ok(e) => {
                let ghost ev = e.deep_view();
                let ghost mid = self.current as int;
                let ghost res1: PRes<crate::ast::ExprModel> = PRes::Ready { v: ev, next: mid };
                let (r2, fw2) = self.term_more(e);
                proof {
                    let res = pres_of(r2, self.current as int);
                    assert forall|f: nat| agrees(#[trigger] p_term(toks, i, f), res) by {
                        if f > 0 {
                            assert(agrees(p_factor(toks, i, (f - 1) as nat), res1));
                            assert(agrees(p_term_more(toks, ev, mid, (f - 1) as nat), res));
                        }
                    }
                    assert forall|f: nat| f >= fw1@ + fw2@ + 1 implies #[trigger] p_term(toks, i, f)
                        == res by {
                        assert(p_factor(toks, i, (f - 1) as nat) == res1);
                        assert(p_term_more(toks, ev, mid, (f - 1) as nat) == res);
                    }
                }
                (r2, Ghost(fw1@ + fw2@ + 1))
            },
        }
    }

    /// The operator run continuing a term whose left operand is
    /// already parsed.
    #[verifier::rlimit(80)]
    fn term_more(&mut self, left: Expr) -> (r: (Result<Expr, String>, Ghost<nat>))
        requires
            old(self).wf(),
        ensures
            rule_frame(*old(self), *final(self)),
            forall|f: nat|
                agrees(
                    #[trigger] p_term_more(old(self).toks(), left.deep_view(), old(self).current as int, f),
                    pres_of(r.0, final(self).current as int),
                ),
            forall|f: nat|
                f >= r.1@ ==> #[trigger] p_term_more(
                    old(self).toks(),
                    left.deep_view(),
                    old(self).current as int,
                    f,
                ) == pres_of(r.0, final(self).current as int),
        decreases self.tokens.len() - self.current, 13int,
    {
        let ghost toks = old(self).toks();
        let ghost i = old(self).current as int;
        let ghost lv = left.deep_view();
        if self.check(&TokenType::Plus) || self.check(&TokenType::Minus) {
            let operator = self.advance();
            let (r0, fw1) = self.factor();
            match r0 {
                Err(m) => {
                    proof {
                        let res = pres_of::<Expr>(Err(m), self.current as int);
                        assert forall|f: nat| agrees(#[trigger] p_term_more(toks, lv, i, f), res) by {
                            if f > 0 {
                                assert(agrees(p_factor(toks, i + 1, (f - 1) as nat), res));
                            }
                        }
                        assert forall|f: nat| f >= fw1@ + 1 implies #[trigger] p_term_more(toks, lv, i, f)
                            == res by {
                            assert(p_factor(toks, i + 1, (f - 1) as nat) == res);
                        }
                    }
                    (Err(m), Ghost(fw1@ + 1))
                },
                Ok(right) => {
                    let ghost rv = right.deep_view();
                    let ghost mid = self.current as int;
                    let ghost res1: PRes<crate::ast::ExprModel> = PRes::Ready { v: rv, next: mid };
                    match BinaryOp::new(operator.token_type) {
                        Err(m) => {
                            proof {
                                let res = pres_of::<Expr>(Err(m), self.current as int);
                                assert forall|f: nat| agrees(#[trigger] p_term_more(toks, lv, i, f), res) by {
                                    if f > 0 {
                                        assert(agrees(p_factor(toks, i + 1, (f - 1) as nat), res1));
                                    }
                                }
                                assert forall|f: nat| f >= fw1@ + 1 implies #[trigger] p_term_more(
                                    toks,
                                    lv,
                                    i,
                                    f,
                                ) == res by {
                                    assert(p_factor(toks, i + 1, (f - 1) as nat) == res1);
                                }
                            }
                            (Err(m), Ghost(fw1@ + 1))
                        },
                        Ok(op) => {
                            let combined = Expr::Binary(
                                BinaryExpr::new(Box::new(left), op, Box::new(right)),
                            );
                            let ghost cv = combined.deep_view();
                            proof {
                                assert(cv == (crate::ast::ExprModel::Binary {
                                    left: Box::new(lv),
                                    op,
                                    right: Box::new(rv),
                                }));
                            }
                            let (r2, fw2) = self.term_more(combined);
                            proof {
                                let res = pres_of(r2, self.current as int);
                                assert forall|f: nat| agrees(#[trigger] p_term_more(toks, lv, i, f), res) by {
                                    if f > 0 {
                                        assert(agrees(p_factor(toks, i + 1, (f - 1) as nat), res1));
                                        assert(agrees(p_term_more(toks, cv, mid, (f - 1) as nat), res));
                                    }
                                }
                                assert forall|f: nat| f >= fw1@ + fw2@ + 1 implies #[trigger] p_term_more(
                                    toks,
                                    lv,
                                    i,
                                    f,
                                ) == res by {
                                    assert(p_factor(toks, i + 1, (f - 1) as nat) == res1);
                                    assert(p_term_more(toks, cv, mid, (f - 1) as nat) == res);
                                }
                            }
                            (r2, Ghost(fw1@ + fw2@ + 1))
                        },
                    }
                },
            }
        } else {
            proof {
                let res: PRes<crate::ast::ExprModel> = PRes::Ready { v: lv, next: i };
                assert(forall|f: nat| f >= 1 ==> #[trigger] p_term_more(toks, lv, i, f) == res);
            }
            (Ok(left), Ghost(1nat))
        }
    }

    /// Factor: a left-associative run of `*`, `/` and `%` over unaries.
    #[verifier::rlimit(80)]
    fn factor(&mut self) -> (r: (Result<Expr, String>, Ghost<nat>))
        requires
            old(self).wf(),
        ensures
            rule_frame(*old(self), *final(self)),
            r.0 is Ok ==> old(self).current < final(self).current,
            forall|f: nat|
                agrees(
                    #[trigger] p_factor(old(self).toks(), old(self).current as int, f),
                    pres_of(r.0, final(self).current as int),
                ),
            forall|f: nat|
                f >= r.1@ ==> #[trigger] p_factor(old(self).toks(), old(self).current as int, f)
                    == pres_of(r.0, final(self).current as int),
        decreases self.tokens.len() - self.current, 12int,
    {
        let ghost toks = old(self).toks();
        let ghost i = old(self).current as int;
        let (r0, fw1) = self.unary();
        match r0 {
            Err(m) => {
                    proof {
                        let res = pres_of::<Expr>(Err(m), self.current as int);
                        assert forall|f: nat| agrees(#[trigger] p_factor(toks, i, f), res) by {
                            if f > 0 {
                                assert(agrees(p_unary(toks, i, (f - 1) as nat), res));
                            }
                        }
                        assert forall|f: nat| f >= fw1@ + 1 implies #[trigger] p_factor(toks, i, f)
                            == res by {
                            assert(p_unary(toks, i, (f - 1) as nat) == res);
                        }
                    }
                    (Err(m), Ghost(fw1@ + 1))
            },
            Ok(e) => {
                let ghost ev = e.deep_view();
                let ghost mid = self.current as int;
                let ghost res1: PRes<crate::ast::ExprModel> = PRes::Ready { v: ev, next: mid };
                let (r2, fw2) = self.factor_more(e);
                proof {
                    let res = pres_of(r2, self.current as int);
                    assert forall|f: nat| agrees(#[trigger] p_factor(toks, i, f), res) by {
                        if f > 0 {
                            assert(agrees(p_unary(toks, i, (f - 1) as nat), res1));
                            assert(agrees(p_factor_more(toks, ev, mid, (f - 1) as nat), res));
                        }
                    }
                    assert forall|f: nat| f >= fw1@ + fw2@ + 1 implies #[trigger] p_factor(toks, i, f)
                        == res by {
                        assert(p_unary(toks, i, (f - 1) as nat) == res1);
                        assert(p_factor_more(toks, ev, mid, (f - 1) as nat) == res);
                    }
                }
                (r2, Ghost(fw1@ + fw2@ + 1))
            },
        }
    }

    /// The operator run continuing a factor whose left operand is
    /// already parsed.
    #[verifier::rlimit(80)]
    fn factor_more(&mut self, left: Expr) -> (r: (Result<Expr, String>, Ghost<nat>))
        requires
            old(self).wf(),
        ensures
            rule_frame(*old(self), *final(self)),
            forall|f: nat|
                agrees(
                    #[trigger] p_factor_more(old(self).toks(), left.deep_view(), old(self).current as int, f),
                    pres_of(r.0, final(self).current as int),
                ),
            forall|f: nat|
                f >= r.1@ ==> #[trigger] p_factor_more(
                    old(self).toks(),
                    left.deep_view(),
                    old(self).current as int,
                    f,
                ) == pres_of(r.0, final(self).current as int),
        decreases self.tokens.len() - self.current, 11int,
    {
        let ghost toks = old(self).toks();
        let ghost i = old(self).current as int;
        let ghost lv = left.deep_view();
        if self.check(&TokenType::Multiply) || self.check(&TokenType::Divide)
            || self.check(&TokenType::Modulo) {
            let operator = self.advance();
            let (r0, fw1) = self.unary();
            match r0 {
                Err(m) => {
                    proof {
                        let res = pres_of::<Expr>(Err(m), self.current as int);
                        assert forall|f: nat| agrees(#[trigger] p_factor_more(toks, lv, i, f), res) by {
                            if f > 0 {
                                assert(agrees(p_unary(toks, i + 1, (f - 1) as nat), res));
                            }
                        }
                        assert forall|f: nat| f >= fw1@ + 1 implies #[trigger] p_factor_more(toks, lv, i, f)
                            == res by {
                            assert(p_unary(toks, i + 1, (f - 1) as nat) == res);
                        }
                    }
                    (Err(m), Ghost(fw1@ + 1))
                },
                Ok(right) => {
                    let ghost rv = right.deep_view();
                    let ghost mid = self.current as int;
                    let ghost res1: PRes<crate::ast::ExprModel> = PRes::Ready { v: rv, next: mid };
                    match BinaryOp::new(operator.token_type) {
                        Err(m) => {
                            proof {
                                let res = pres_of::<Expr>(Err(m), self.current as int);
                                assert forall|f: nat| agrees(#[trigger] p_factor_more(toks, lv, i, f), res) by {
                                    if f > 0 {
                                        assert(agrees(p_unary(toks, i + 1, (f - 1) as nat), res1));
                                    }
                                }
                                assert forall|f: nat| f >= fw1@ + 1 implies #[trigger] p_factor_more(
                                    toks,
                                    lv,
                                    i,
                                    f,
                                ) == res by {
                                    assert(p_unary(toks, i + 1, (f - 1) as nat) == res1);
                                }
                            }
                            (Err(m), Ghost(fw1@ + 1))
                        },
                        Ok(op) => {
                            let combined = Expr::Binary(
                                BinaryExpr::new(Box::new(left), op, Box::new(right)),
                            );
                            let ghost cv = combined.deep_view();
                            proof {
                                assert(cv == (crate::ast::ExprModel::Binary {
                                    left: Box::new(lv),
                                    op,
                                    right: Box::new(rv),
                                }));
                            }
                            let (r2, fw2) = self.factor_more(combined);
                            proof {
                                let res = pres_of(r2, self.current as int);
                                assert forall|f: nat| agrees(#[trigger] p_factor_more(toks, lv, i, f), res) by {
                                    if f > 0 {
                                        assert(agrees(p_unary(toks, i + 1, (f - 1) as nat), res1));
                                        assert(agrees(p_factor_more(toks, cv, mid, (f - 1) as nat), res));
                                    }
                                }
                                assert forall|f: nat| f >= fw1@ + fw2@ + 1 implies #[trigger] p_factor_more(
                                    toks,
                                    lv,
                                    i,
                                    f,
                                ) == res by {
                                    assert(p_unary(toks, i + 1, (f - 1) as nat) == res1);
                                    assert(p_factor_more(toks, cv, mid, (f - 1) as nat) == res);
                                }
                            }
                            (r2, Ghost(fw1@ + fw2@ + 1))
                        },
                    }
                },
            }
        } else {
            proof {
                let res: PRes<crate::ast::ExprModel> = PRes::Ready { v: lv, next: i };
                assert(forall|f: nat| f >= 1 ==> #[trigger] p_factor_more(toks, lv, i, f) == res);
            }
            (Ok(left), Ghost(1nat))
        }
    }

    /// The witness-carrying form of the expression rule.
    #[verifier::rlimit(80)]
    fn expression_w(&mut self) -> (r: (Result<Expr, String>, Ghost<nat>))
        requires
            old(self).wf(),
        ensures
            rule_frame(*old(self), *final(self)),
            r.0 is Ok ==> old(self).current < final(self).current,
            forall|f: nat|
                agrees(
                    #[trigger] p_expression(old(self).toks(), old(self).current as int, f),
                    pres_of(r.0, final(self).current as int),
                ),
            forall|f: nat|
                f >= r.1@ ==> #[trigger] p_expression(old(self).toks(), old(self).current as int, f)
                    == pres_of(r.0, final(self).current as int),
        decreases self.tokens.len() - self.current, 20int,
    {
        let ghost toks = old(self).toks();
        let ghost i = old(self).current as int;
        let (r0, fw1) = self.assignment();
        proof {
            let res = pres_of(r0, self.current as int);
            assert forall|f: nat| agrees(#[trigger] p_expression(toks, i, f), res) by {
                if f > 0 {
                    assert(agrees(p_assignment(toks, i, (f - 1) as nat), res));
                }
            }
            assert forall|f: nat| f >= fw1@ + 1 implies #[trigger] p_expression(toks, i, f)
                == res by {
                assert(p_assignment(toks, i, (f - 1) as nat) == res);
            }
        }
        (r0, Ghost(fw1@ + 1))
    }

    /// Assignment: right-associative, and only valid when the left-hand
    /// side is a bare variable.
    #[verifier::rlimit(100)]
    #[verifier::spinoff_prover]
    fn assignment(&mut self) -> (r: (Result<Expr, String>, Ghost<nat>))
        requires
            old(self).wf(),
        ensures
            rule_frame(*old(self), *final(self)),
            r.0 is Ok ==> old(self).current < final(self).current,
            forall|f: nat|
                agrees(
                    #[trigger] p_assignment(old(self).toks(), old(self).current as int, f),
                    pres_of(r.0, final(self).current as int),
                ),
            forall|f: nat|
                f >= r.1@ ==> #[trigger] p_assignment(old(self).toks(), old(self).current as int, f)
                    == pres_of(r.0, final(self).current as int),
        decreases self.tokens.len() - self.current, 19int,
    {
        let ghost toks = old(self).toks();
        let ghost i = old(self).current as int;
        let (r0, fw1) = self.equality();
        match r0 {
            Err(m) => {
                proof {
                    let res = pres_of::<Expr>(Err(m), self.current as int);
                    assert forall|f: nat| agrees(#[trigger] p_assignment(toks, i, f), res) by {
                        if f > 0 {
                            assert(agrees(p_equality(toks, i, (f - 1) as nat), res));
                        }
                    }
                    assert forall|f: nat| f >= fw1@ + 1 implies #[trigger] p_assignment(toks, i, f)
                        == res by {
                        assert(p_equality(toks, i, (f - 1) as nat) == res);
                    }
                }
                (Err(m), Ghost(fw1@ + 1))
            },
            Ok(e) => {
                let ghost ev = e.deep_view();
                let ghost mid = self.current as int;
                let ghost res1: PRes<crate::ast::ExprModel> = PRes::Ready { v: ev, next: mid };
                if self.check(&TokenType::Equals) {
                    self.advance();
                    let (r1, fw2) = self.assignment();
                    match r1 {
                        Err(m) => {
                            proof {
                                let res = pres_of::<Expr>(Err(m), self.current as int);
                                assert forall|f: nat|
                                    agrees(#[trigger] p_assignment(toks, i, f), res) by {
                                    if f > 0 {
                                        assert(agrees(p_equality(toks, i, (f - 1) as nat), res1));
                                        assert(agrees(
                                            p_assignment(toks, mid + 1, (f - 1) as nat),
                                            res,
                                        ));
                                    }
                                }
                                assert forall|f: nat| f >= fw1@ + fw2@ + 1 implies #[trigger] p_assignment(
                                    toks,
                                    i,
                                    f,
                                ) == res by {
                                    assert(p_equality(toks, i, (f - 1) as nat) == res1);
                                    assert(p_assignment(toks, mid + 1, (f - 1) as nat) == res);
                                }
                            }
                            (Err(m), Ghost(fw1@ + fw2@ + 1))
                        },
                        Ok(value) => {
                            let ghost vv = value.deep_view();
                            let ghost fin = self.current as int;
                            let ghost resa: PRes<crate::ast::ExprModel> = PRes::Ready {
                                v: vv,
                                next: fin,
                            };
                            let out: Result<Expr, String> = match e {
                                Expr::Variable(var) => Ok(
                                    Expr::Assignment { name: var.name, value: Box::new(value) },
                                ),
                                _ => Err("Invalid assignment target".to_owned()),
                            };
                            proof {
                                if ev is Variable {
                                    assert(out matches Ok(o) && o.deep_view()
                                        == (crate::ast::ExprModel::Assignment {
                                        name: ev->Variable_name,
                                        value: Box::new(vv),
                                    }));
                                }
                                let res = pres_of(out, self.current as int);
                                assert forall|f: nat|
                                    agrees(#[trigger] p_assignment(toks, i, f), res) by {
                                    if f > 0 {
                                        assert(agrees(p_equality(toks, i, (f - 1) as nat), res1));
                                        assert(agrees(
                                            p_assignment(toks, mid + 1, (f - 1) as nat),
                                            resa,
                                        ));
                                    }
                                }
                                assert forall|f: nat| f >= fw1@ + fw2@ + 1 implies #[trigger] p_assignment(
                                    toks,
                                    i,
                                    f,
                                ) == res by {
                                    assert(p_equality(toks, i, (f - 1) as nat) == res1);
                                    assert(p_assignment(toks, mid + 1, (f - 1) as nat) == resa);
                                }
                            }
                            (out, Ghost(fw1@ + fw2@ + 1))
                        },
                    }
                } else {
                    proof {
                        let res: PRes<crate::ast::ExprModel> = PRes::Ready { v: ev, next: mid };
                        assert forall|f: nat| agrees(#[trigger] p_assignment(toks, i, f), res) by {
                            if f > 0 {
                                assert(agrees(p_equality(toks, i, (f - 1) as nat), res1));
                            }
                        }
                        assert forall|f: nat| f >= fw1@ + 1 implies #[trigger] p_assignment(
                            toks,
                            i,
                            f,
                        ) == res by {
                            assert(p_equality(toks, i, (f - 1) as nat) == res1);
                        }
                    }
                    (Ok(e), Ghost(fw1@ + 1))
                }
            },
        }
    }

    /// Unary: right-associative `!` and `-`, applied before primary.
    #[verifier::rlimit(80)]
    fn unary(&mut self) -> (r: (Result<Expr, String>, Ghost<nat>))
        requires
            old(self).wf(),
        ensures
            rule_frame(*old(self), *final(self)),
            r.0 is Ok ==> old(self).current < final(self).current,
            forall|f: nat|
                agrees(
                    #[trigger] p_unary(old(self).toks(), old(self).current as int, f),
                    pres_of(r.0, final(self).current as int),
                ),
            forall|f: nat|
                f >= r.1@ ==> #[trigger] p_unary(old(self).toks(), old(self).current as int, f)
                    == pres_of(r.0, final(self).current as int),
        decreases self.tokens.len() - self.current, 10int,
    {
        let ghost toks = old(self).toks();
        let ghost i = old(self).current as int;
        if self.check(&TokenType::Bang) || self.check(&TokenType::Minus) {
            let operator = self.advance();
            let (r0, fw1) = self.unary();
            match r0 {
                Err(m) => {
                    proof {
                        let res = pres_of::<Expr>(Err(m), self.current as int);
                        assert forall|f: nat| agrees(#[trigger] p_unary(toks, i, f), res) by {
                            if f > 0 {
                                assert(agrees(p_unary(toks, i + 1, (f - 1) as nat), res));
                            }
                        }
                        assert forall|f: nat| f >= fw1@ + 1 implies #[trigger] p_unary(toks, i, f)
                            == res by {
                            assert(p_unary(toks, i + 1, (f - 1) as nat) == res);
                        }
                    }
                    (Err(m), Ghost(fw1@ + 1))
                },
                Ok(right) => {
                    let ghost rv = right.deep_view();
                    let ghost mid = self.current as int;
                    let ghost res1: PRes<crate::ast::ExprModel> = PRes::Ready { v: rv, next: mid };
                    let out: Result<Expr, String> = match UnaryOp::new(operator.token_type) {
                        Ok(op) => Ok(Expr::Unary(UnaryExpr::new(op, Box::new(right)))),
                        Err(m) => Err(m),
                    };
                    proof {
                        let res = pres_of(out, self.current as int);
                        assert forall|f: nat| agrees(#[trigger] p_unary(toks, i, f), res) by {
                            if f > 0 {
                                assert(agrees(p_unary(toks, i + 1, (f - 1) as nat), res1));
                            }
                        }
                        assert forall|f: nat| f >= fw1@ + 1 implies #[trigger] p_unary(toks, i, f)
                            == res by {
                            assert(p_unary(toks, i + 1, (f - 1) as nat) == res1);
                        }
                    }
                    (out, Ghost(fw1@ + 1))
                },
            }
        } else {
            let (r0, fw1) = self.primary();
            proof {
                let res = pres_of(r0, self.current as int);
                assert forall|f: nat| agrees(#[trigger] p_unary(toks, i, f), res) by {
                    if f > 0 {
                        assert(agrees(p_primary(toks, i, (f - 1) as nat), res));
                    }
                }
                assert forall|f: nat| f >= fw1@ + 1 implies #[trigger] p_unary(toks, i, f) == res by {
                    assert(p_primary(toks, i, (f - 1) as nat) == res);
                }
            }
            (r0, Ghost(fw1@ + 1))
        }
    }

    /// Primary: an integer literal, an identifier and its postfix chain,
    /// or a parenthesized grouping.
    #[verifier::rlimit(80)]
    fn primary(&mut self) -> (r: (Result<Expr, String>, Ghost<nat>))
        requires
            old(self).wf(),
        ensures
            rule_frame(*old(self), *final(self)),
            r.0 is Ok ==> old(self).current < final(self).current,
            forall|f: nat|
                agrees(
                    #[trigger] p_primary(old(self).toks(), old(self).current as int, f),
                    pres_of(r.0, final(self).current as int),
                ),
            forall|f: nat|
                f >= r.1@ ==> #[trigger] p_primary(old(self).toks(), old(self).current as int, f)
                    == pres_of(r.0, final(self).current as int),
        decreases self.tokens.len() - self.current, 9int,
    {
        let ghost toks = old(self).toks();
        let ghost i = old(self).current as int;
        if self.current >= self.tokens.len() {
            let m = "Expected expression".to_owned();
            proof {
                let res = pres_of::<Expr>(Err(m), i);
                assert(forall|f: nat| f >= 1 ==> #[trigger] p_primary(toks, i, f) == res);
            }
            return (Err(m), Ghost(1nat));
        }
        let tt = self.peek().token_type.clone();
        match tt {
            TokenType::Number(ntext) => {
                match parse_i32(ntext.as_str()) {
                    Some(v) => {
                        self.advance();
                        let out = Expr::Literal(Literal::Integer(v));
                        proof {
                            let res = pres_of::<Expr>(Ok(out), self.current as int);
                            assert(forall|f: nat| f >= 1 ==> #[trigger] p_primary(toks, i, f) == res);
                        }
                        (Ok(out), Ghost(1nat))
                    },
                    None => {
                        let m = "Invalid number literal".to_owned();
                        proof {
                            let res = pres_of::<Expr>(Err(m), i);
                            assert(forall|f: nat| f >= 1 ==> #[trigger] p_primary(toks, i, f) == res);
                        }
                        (Err(m), Ghost(1nat))
                    },
                }
            },
            TokenType::Identifier(name) => {
                self.advance();
                let ghost ov = crate::ast::ExprModel::Variable { name: name@ };
                let (r0, fw1) = self.postfix(Expr::Variable(Variable { name }));
                proof {
                    let res = pres_of(r0, self.current as int);
                    assert forall|f: nat| agrees(#[trigger] p_primary(toks, i, f), res) by {
                        if f > 0 {
                            assert(agrees(p_postfix(toks, ov, i + 1, (f - 1) as nat), res));
                        }
                    }
                    assert forall|f: nat| f >= fw1@ + 1 implies #[trigger] p_primary(toks, i, f)
                        == res by {
                        assert(p_postfix(toks, ov, i + 1, (f - 1) as nat) == res);
                    }
                }
                (r0, Ghost(fw1@ + 1))
            },
            TokenType::ParenthesesOpen => {
                self.advance();
                let (r0, fw1) = self.expression_w();
                match r0 {
                    Err(m) => {
                        proof {
                            let res = pres_of::<Expr>(Err(m), self.current as int);
                            assert forall|f: nat| agrees(#[trigger] p_primary(toks, i, f), res) by {
                                if f > 0 {
                                    assert(agrees(p_expression(toks, i + 1, (f - 1) as nat), res));
                                }
                            }
                            assert forall|f: nat| f >= fw1@ + 1 implies #[trigger] p_primary(
                                toks,
                                i,
                                f,
                            ) == res by {
                                assert(p_expression(toks, i + 1, (f - 1) as nat) == res);
                            }
                        }
                        (Err(m), Ghost(fw1@ + 1))
                    },
                    Ok(e) => {
                        let ghost ev = e.deep_view();
                        let ghost mid = self.current as int;
                        let ghost res1: PRes<crate::ast::ExprModel> = PRes::Ready {
                            v: ev,
                            next: mid,
                        };
                        let out: Result<Expr, String> = match self.consume(
                            TokenType::ParenthesesClose,
                            "Expected ')' after expression",
                        ) {
                            Ok(_) => Ok(Expr::Grouping(Box::new(e))),
                            Err(m) => Err(m),
                        };
                        proof {
                            let res = pres_of(out, self.current as int);
                            assert forall|f: nat| agrees(#[trigger] p_primary(toks, i, f), res) by {
                                if f > 0 {
                                    assert(agrees(p_expression(toks, i + 1, (f - 1) as nat), res1));
                                }
                            }
                            assert forall|f: nat| f >= fw1@ + 1 implies #[trigger] p_primary(
                                toks,
                                i,
                                f,
                            ) == res by {
                                assert(p_expression(toks, i + 1, (f - 1) as nat) == res1);
                            }
                        }
                        (out, Ghost(fw1@ + 1))
                    },
                }
            },
            _ => {
                let m = "Expected expression".to_owned();
                proof {
                    let res = pres_of::<Expr>(Err(m), i);
                    assert(forall|f: nat| f >= 1 ==> #[trigger] p_primary(toks, i, f) == res);
                }
                (Err(m), Ghost(1nat))
            },
        }
    }


    /// The `.name(...)` / `.name` link of a postfix chain, entered at the
    /// dot.
    #[verifier::rlimit(100)]
    #[verifier::spinoff_prover]
    fn postfix_dot(&mut self, obj: Expr) -> (r: (Result<Expr, String>, Ghost<nat>))
        requires
            old(self).wf(),
            check_at(old(self).toks(), old(self).current as int, crate::tokens::TokenKind::Dot),
        ensures
            rule_frame(*old(self), *final(self)),
            forall|f: nat|
                agrees(
                    #[trigger] p_postfix(old(self).toks(), obj.deep_view(), old(self).current as int, f),
                    pres_of(r.0, final(self).current as int),
                ),
            forall|f: nat|
                f >= r.1@ ==> #[trigger] p_postfix(
                    old(self).toks(),
                    obj.deep_view(),
                    old(self).current as int,
                    f,
                ) == pres_of(r.0, final(self).current as int),
        decreases self.tokens.len() - self.current, 7int,
    {
        let ghost toks = old(self).toks();
        let ghost i = old(self).current as int;
        let ghost ov = obj.deep_view();
        self.advance();
        if self.is_at_end() {
            let m = "Expected method name after '.'".to_owned();
            proof {
                let res = pres_of::<Expr>(Err(m), i + 1);
                assert(forall|f: nat| f >= 1 ==> #[trigger] p_postfix(toks, ov, i, f) == res);
            }
            return (Err(m), Ghost(1nat));
        }
        let nt = self.advance();
        match nt.token_type {
            TokenType::Identifier(mname) => {
                let ghost mv = mname@;
                if self.check(&TokenType::ParenthesesOpen) {
                    self.advance();
                    let (ra, fw1) = self.call_args();
                    match ra {
                        Err(m) => {
                            proof {
                                let res = pres_of::<Expr>(Err(m), self.current as int);
                                let resv = pres_of::<Vec<Expr>>(Err(m), self.current as int);
                                assert forall|f: nat|
                                    agrees(#[trigger] p_postfix(toks, ov, i, f), res) by {
                                    if f > 0 {
                                        assert(agrees(p_call_args(toks, i + 3, (f - 1) as nat), resv));
                                    }
                                }
                                assert forall|f: nat| f >= fw1@ + 1 implies #[trigger] p_postfix(
                                    toks,
                                    ov,
                                    i,
                                    f,
                                ) == res by {
                                    assert(p_call_args(toks, i + 3, (f - 1) as nat) == resv);
                                }
                            }
                            (Err(m), Ghost(fw1@ + 1))
                        },
                        Ok(args) => {
                            let ghost av = args.deep_view();
                            let ghost mid = self.current as int;
                            let ghost res1: PRes<Seq<crate::ast::ExprModel>> = PRes::Ready {
                                v: av,
                                next: mid,
                            };
                            proof {
                                crate::ast::lemma_vec_expr_deep(args);
                            }
                            let call = Expr::Call {
                                callee: Box::new(Expr::Variable(Variable { name: mname })),
                                arguments: args,
                            };
                            let next_obj = Expr::MethodAccess {
                                object: Box::new(obj),
                                method: Box::new(call),
                            };
                            let ghost nv = next_obj.deep_view();
                            proof {
                                reveal_with_fuel(crate::ast::expr_view, 4);
                                assert(nv == (crate::ast::ExprModel::MethodAccess {
                                    object: Box::new(ov),
                                    method: Box::new(
                                        crate::ast::ExprModel::Call {
                                            callee: Box::new(
                                                crate::ast::ExprModel::Variable { name: mv },
                                            ),
                                            arguments: av,
                                        },
                                    ),
                                }));
                            }
                            let (r2, fw2) = self.postfix(next_obj);
                            proof {
                                let res = pres_of(r2, self.current as int);
                                assert forall|f: nat|
                                    agrees(#[trigger] p_postfix(toks, ov, i, f), res) by {
                                    if f > 0 {
                                        assert(agrees(p_call_args(toks, i + 3, (f - 1) as nat), res1));
                                        assert(agrees(p_postfix(toks, nv, mid, (f - 1) as nat), res));
                                    }
                                }
                                assert forall|f: nat| f >= fw1@ + fw2@ + 1 implies #[trigger] p_postfix(
                                    toks,
                                    ov,
                                    i,
                                    f,
                                ) == res by {
                                    assert(p_call_args(toks, i + 3, (f - 1) as nat) == res1);
                                    assert(p_postfix(toks, nv, mid, (f - 1) as nat) == res);
                                }
                            }
                            (r2, Ghost(fw1@ + fw2@ + 1))
                        },
                    }
                } else {
                    let next_obj = Expr::PropertyAccess {
                        object: Box::new(obj),
                        property: mname,
                    };
                    let ghost nv = next_obj.deep_view();
                    proof {
                        reveal_with_fuel(crate::ast::expr_view, 3);
                        assert(nv == (crate::ast::ExprModel::PropertyAccess {
                            object: Box::new(ov),
                            property: mv,
                        }));
                    }
                    let (r2, fw1) = self.postfix(next_obj);
                    proof {
                        let res = pres_of(r2, self.current as int);
                        assert forall|f: nat| agrees(#[trigger] p_postfix(toks, ov, i, f), res) by {
                            if f > 0 {
                                assert(agrees(p_postfix(toks, nv, i + 2, (f - 1) as nat), res));
                            }
                        }
                        assert forall|f: nat| f >= fw1@ + 1 implies #[trigger] p_postfix(
                            toks,
                            ov,
                            i,
                            f,
                        ) == res by {
                            assert(p_postfix(toks, nv, i + 2, (f - 1) as nat) == res);
                        }
                    }
                    (r2, Ghost(fw1@ + 1))
                }
            },
            _ => {
                let m = "Expected method name after '.'".to_owned();
                proof {
                    let res = pres_of::<Expr>(Err(m), i + 2);
                    assert(forall|f: nat| f >= 1 ==> #[trigger] p_postfix(toks, ov, i, f) == res);
                }
                (Err(m), Ghost(1nat))
            },
        }
    }

    /// The postfix chain after a primary: `.name(...)`, `.name` and
    /// `(...)` applications, left-to-right.
    #[verifier::rlimit(100)]
    #[verifier::spinoff_prover]
    fn postfix(&mut self, obj: Expr) -> (r: (Result<Expr, String>, Ghost<nat>))
        requires
            old(self).wf(),
        ensures
            rule_frame(*old(self), *final(self)),
            forall|f: nat|
                agrees(
                    #[trigger] p_postfix(old(self).toks(), obj.deep_view(), old(self).current as int, f),
                    pres_of(r.0, final(self).current as int),
                ),
            forall|f: nat|
                f >= r.1@ ==> #[trigger] p_postfix(
                    old(self).toks(),
                    obj.deep_view(),
                    old(self).current as int,
                    f,
                ) == pres_of(r.0, final(self).current as int),
        decreases self.tokens.len() - self.current, 8int,
    {
        let ghost toks = old(self).toks();
        let ghost i = old(self).current as int;
        let ghost ov = obj.deep_view();
        if self.check(&TokenType::Dot) {
            self.postfix_dot(obj)
        } else if self.check(&TokenType::ParenthesesOpen) {
            self.advance();
            let (ra, fw1) = self.call_args();
            match ra {
                Err(m) => {
                    proof {
                        let res = pres_of::<Expr>(Err(m), self.current as int);
                        let resv = pres_of::<Vec<Expr>>(Err(m), self.current as int);
                        assert forall|f: nat| agrees(#[trigger] p_postfix(toks, ov, i, f), res) by {
                            if f > 0 {
                                assert(agrees(p_call_args(toks, i + 1, (f - 1) as nat), resv));
                            }
                        }
                        assert forall|f: nat| f >= fw1@ + 1 implies #[trigger] p_postfix(toks, ov, i, f)
                            == res by {
                            assert(p_call_args(toks, i + 1, (f - 1) as nat) == resv);
                        }
                    }
                    (Err(m), Ghost(fw1@ + 1))
                },
                Ok(args) => {
                    let ghost av = args.deep_view();
                    let ghost mid = self.current as int;
                    let ghost res1: PRes<Seq<crate::ast::ExprModel>> = PRes::Ready {
                        v: av,
                        next: mid,
                    };
                    proof {
                        crate::ast::lemma_vec_expr_deep(args);
                    }
                    let next_obj = Expr::Call { callee: Box::new(obj), arguments: args };
                    let ghost nv = next_obj.deep_view();
                    proof {
                        reveal_with_fuel(crate::ast::expr_view, 3);
                        assert(nv == (crate::ast::ExprModel::Call {
                            callee: Box::new(ov),
                            arguments: av,
                        }));
                    }
                    let (r2, fw2) = self.postfix(next_obj);
                    proof {
                        let res = pres_of(r2, self.current as int);
                        assert forall|f: nat| agrees(#[trigger] p_postfix(toks, ov, i, f), res) by {
                            if f > 0 {
                                assert(agrees(p_call_args(toks, i + 1, (f - 1) as nat), res1));
                                assert(agrees(p_postfix(toks, nv, mid, (f - 1) as nat), res));
                            }
                        }
                        assert forall|f: nat| f >= fw1@ + fw2@ + 1 implies #[trigger] p_postfix(
                            toks,
                            ov,
                            i,
                            f,
                        ) == res by {
                            assert(p_call_args(toks, i + 1, (f - 1) as nat) == res1);
                            assert(p_postfix(toks, nv, mid, (f - 1) as nat) == res);
                        }
                    }
                    (r2, Ghost(fw1@ + fw2@ + 1))
                },
            }
        } else {
            proof {
                let res: PRes<crate::ast::ExprModel> = PRes::Ready { v: ov, next: i };
                assert(forall|f: nat| f >= 1 ==> #[trigger] p_postfix(toks, ov, i, f) == res);
            }
            (Ok(obj), Ghost(1nat))
        }
    }

    /// Call arguments, entered just after the opening parenthesis.
    #[verifier::rlimit(80)]
    fn call_args(&mut self) -> (r: (Result<Vec<Expr>, String>, Ghost<nat>))
        requires
            old(self).wf(),
        ensures
            rule_frame(*old(self), *final(self)),
            r.0 is Ok ==> old(self).current < final(self).current,
            forall|f: nat|
                agrees(
                    #[trigger] p_call_args(old(self).toks(), old(self).current as int, f),
                    pres_of(r.0, final(self).current as int),
                ),
            forall|f: nat|
                f >= r.1@ ==> #[trigger] p_call_args(old(self).toks(), old(self).current as int, f)
                    == pres_of(r.0, final(self).current as int),
        decreases self.tokens.len() - self.current, 23int,
    {
        let ghost toks = old(self).toks();
        let ghost i = old(self).current as int;
        if self.check(&TokenType::ParenthesesClose) {
            self.advance();
            let out: Vec<Expr> = Vec::new();
            proof {
                let res = pres_of::<Vec<Expr>>(Ok(out), self.current as int);
                assert(out.deep_view() =~= Seq::<crate::ast::ExprModel>::empty());
                assert(forall|f: nat| f >= 1 ==> #[trigger] p_call_args(toks, i, f) == res);
            }
            (Ok(out), Ghost(1nat))
        } else {
            let acc: Vec<Expr> = Vec::new();
            let ghost accv = acc.deep_view();
            proof {
                assert(accv =~= Seq::<crate::ast::ExprModel>::empty());
            }
            let (r0, fw1) = self.args_more(acc);
            proof {
                let res = pres_of(r0, self.current as int);
                assert forall|f: nat| agrees(#[trigger] p_call_args(toks, i, f), res) by {
                    if f > 0 {
                        assert(agrees(
                            p_args_more(toks, accv, i, (f - 1) as nat),
                            res,
                        ));
                    }
                }
                assert forall|f: nat| f >= fw1@ + 1 implies #[trigger] p_call_args(toks, i, f)
                    == res by {
                    assert(p_args_more(toks, accv, i, (f - 1) as nat)
                        == res);
                }
            }
            (r0, Ghost(fw1@ + 1))
        }
    }

    /// The comma-separated run of arguments, each argument parsed and
    /// pushed in order; no trailing comma.
    #[verifier::rlimit(80)]
    fn args_more(&mut self, args: Vec<Expr>) -> (r: (Result<Vec<Expr>, String>, Ghost<nat>))
        requires
            old(self).wf(),
        ensures
            rule_frame(*old(self), *final(self)),
            r.0 is Ok ==> old(self).current < final(self).current,
            forall|f: nat|
                agrees(
                    #[trigger] p_args_more(
                        old(self).toks(),
                        args.deep_view(),
                        old(self).current as int,
                        f,
                    ),
                    pres_of(r.0, final(self).current as int),
                ),
            forall|f: nat|
                f >= r.1@ ==> #[trigger] p_args_more(
                    old(self).toks(),
                    args.deep_view(),
                    old(self).current as int,
                    f,
                ) == pres_of(r.0, final(self).current as int),
        decreases self.tokens.len() - self.current, 22int,
    {
        let ghost toks = old(self).toks();
        let ghost i = old(self).current as int;
        let ghost av = args.deep_view();
        let (r0, fw1) = self.expression_w();
        match r0 {
            Err(m) => {
                proof {
                    let res = pres_of::<Vec<Expr>>(Err(m), self.current as int);
                    let rese = pres_of::<Expr>(Err(m), self.current as int);
                    assert forall|f: nat| agrees(#[trigger] p_args_more(toks, av, i, f), res) by {
                        if f > 0 {
                            assert(agrees(p_expression(toks, i, (f - 1) as nat), rese));
                        }
                    }
                    assert forall|f: nat| f >= fw1@ + 1 implies #[trigger] p_args_more(toks, av, i, f)
                        == res by {
                        assert(p_expression(toks, i, (f - 1) as nat) == rese);
                    }
                }
                (Err(m), Ghost(fw1@ + 1))
            },
            Ok(e) => {
                let ghost ev = e.deep_view();
                let ghost mid = self.current as int;
                let ghost res1: PRes<crate::ast::ExprModel> = PRes::Ready { v: ev, next: mid };
                let mut args2 = args;
                args2.push(e);
                let ghost av2 = args2.deep_view();
                proof {
                    assert(av2 =~= av.push(ev));
                }
                if self.check(&TokenType::Comma) {
                    self.advance();
                    let (r2, fw2) = self.args_more(args2);
                    proof {
                        let res = pres_of(r2, self.current as int);
                        assert forall|f: nat| agrees(#[trigger] p_args_more(toks, av, i, f), res) by {
                            if f > 0 {
                                assert(agrees(p_expression(toks, i, (f - 1) as nat), res1));
                                assert(agrees(p_args_more(toks, av2, mid + 1, (f - 1) as nat), res));
                            }
                        }
                        assert forall|f: nat| f >= fw1@ + fw2@ + 1 implies #[trigger] p_args_more(
                            toks,
                            av,
                            i,
                            f,
                        ) == res by {
                            assert(p_expression(toks, i, (f - 1) as nat) == res1);
                            assert(p_args_more(toks, av2, mid + 1, (f - 1) as nat) == res);
                        }
                    }
                    (r2, Ghost(fw1@ + fw2@ + 1))
                } else if self.check(&TokenType::ParenthesesClose) {
                    self.advance();
                    proof {
                        let res = pres_of::<Vec<Expr>>(Ok(args2), self.current as int);
                        assert forall|f: nat| agrees(#[trigger] p_args_more(toks, av, i, f), res) by {
                            if f > 0 {
                                assert(agrees(p_expression(toks, i, (f - 1) as nat), res1));
                            }
                        }
                        assert forall|f: nat| f >= fw1@ + 1 implies #[trigger] p_args_more(
                            toks,
                            av,
                            i,
                            f,
                        ) == res by {
                            assert(p_expression(toks, i, (f - 1) as nat) == res1);
                        }
                    }
                    (Ok(args2), Ghost(fw1@ + 1))
                } else {
                    match self.consume(TokenType::ParenthesesClose, "Expected ')' after arguments") {
                        Err(m) => {
                            proof {
                                let res = pres_of::<Vec<Expr>>(Err(m), self.current as int);
                                assert forall|f: nat|
                                    agrees(#[trigger] p_args_more(toks, av, i, f), res) by {
                                    if f > 0 {
                                        assert(agrees(p_expression(toks, i, (f - 1) as nat), res1));
                                    }
                                }
                                assert forall|f: nat| f >= fw1@ + 1 implies #[trigger] p_args_more(
                                    toks,
                                    av,
                                    i,
                                    f,
                                ) == res by {
                                    assert(p_expression(toks, i, (f - 1) as nat) == res1);
                                }
                            }
                            (Err(m), Ghost(fw1@ + 1))
                        },
                        Ok(_) => {
                            // the closing parenthesis was just checked absent
                            proof {
                                assert(false);
                            }
                            (Err(String::new()), Ghost(1nat))
                        },
                    }
                }
            },
        }
    }

    /// An expression: the assignment rule, the lowest precedence level.
    /// For every sufficient fuel the model computes exactly this result.
    pub fn expression(&mut self) -> (r: Result<Expr, String>)
        requires
            old(self).wf(),
        ensures
            rule_frame(*old(self), *final(self)),
            forall|f: nat|
                agrees(
                    #[trigger] p_expression(old(self).toks(), old(self).current as int, f),
                    pres_of(r, final(self).current as int),
                ),
            exists|fw: nat|
                #[trigger] expression_settles(
                    old(self).toks(),
                    old(self).current as int,
                    fw,
                    pres_of(r, final(self).current as int),
                ),
    {
        let (r0, fw1) = self.expression_w();
        proof {
            assert(expression_settles(
                old(self).toks(),
                old(self).current as int,
                fw1@,
                pres_of(r0, self.current as int),
            ));
        }
        r0
    }
}

/// The expression model settles from fuel `fw` on: every larger fuel
/// computes exactly `res`.
pub open spec fn expression_settles(
    toks: Seq<crate::tokens::TokenModel>,
    i: int,
    fw: nat,
    res: PRes<crate::ast::ExprModel>,
) -> bool {
    forall|f: nat| f >= fw ==> #[trigger] p_expression(toks, i, f) == res
}



impl Parser {
    /// A statement: a `let` declaration or a function declaration,
    /// dispatched on the lookahead token.
    #[verifier::rlimit(80)]
    fn statement(&mut self) -> (r: (Result<Stmt, String>, Ghost<nat>))
        requires
            old(self).wf(),
        ensures
            rule_frame(*old(self), *final(self)),
            r.0 is Ok ==> old(self).current < final(self).current,
            forall|f: nat|
                agrees(
                    #[trigger] p_statement(old(self).toks(), old(self).current as int, f),
                    pres_of(r.0, final(self).current as int),
                ),
            forall|f: nat|
                f >= r.1@ ==> #[trigger] p_statement(old(self).toks(), old(self).current as int, f)
                    == pres_of(r.0, final(self).current as int),
        decreases self.tokens.len() - self.current, 33int,
    {
        let ghost toks = old(self).toks();
        let ghost i = old(self).current as int;
        if self.check(&TokenType::Let) {
            let (r0, fw1) = self.variable_declaration();
            proof {
                let res = pres_of(r0, self.current as int);
                assert forall|f: nat| agrees(#[trigger] p_statement(toks, i, f), res) by {
                    if f > 0 {
                        assert(agrees(p_var_decl(toks, i, (f - 1) as nat), res));
                    }
                }
                assert forall|f: nat| f >= fw1@ + 1 implies #[trigger] p_statement(toks, i, f)
                    == res by {
                    assert(p_var_decl(toks, i, (f - 1) as nat) == res);
                }
            }
            (r0, Ghost(fw1@ + 1))
        } else if self.check(&TokenType::Function) {
            let (r0, fw1) = self.parse_function_declaration();
            proof {
                let res = pres_of(r0, self.current as int);
                assert forall|f: nat| agrees(#[trigger] p_statement(toks, i, f), res) by {
                    if f > 0 {
                        assert(agrees(p_fn_decl(toks, i, (f - 1) as nat), res));
                    }
                }
                assert forall|f: nat| f >= fw1@ + 1 implies #[trigger] p_statement(toks, i, f)
                    == res by {
                    assert(p_fn_decl(toks, i, (f - 1) as nat) == res);
                }
            }
            (r0, Ghost(fw1@ + 1))
        } else {
            let mut probe_call: Vec<TokenType> = Vec::new();
            probe_call.push(TokenType::Identifier(String::new()));
            probe_call.push(TokenType::ParenthesesOpen);
            let mut probe_method: Vec<TokenType> = Vec::new();
            probe_method.push(TokenType::Identifier(String::new()));
            probe_method.push(TokenType::Dot);
            probe_method.push(TokenType::Identifier(String::new()));
            probe_method.push(TokenType::ParenthesesOpen);
            proof {
                assert(probe_call@[0]@ == ident_wild());
                assert(probe_call@[1]@ == crate::tokens::TokenKind::ParenthesesOpen);
                assert(probe_method@[0]@ == ident_wild());
                assert(probe_method@[1]@ == crate::tokens::TokenKind::Dot);
                assert(probe_method@[2]@ == ident_wild());
                assert(probe_method@[3]@ == crate::tokens::TokenKind::ParenthesesOpen);
            }
            let is_call = self.check_sequence(probe_call.as_slice());
            let is_method = self.check_sequence(probe_method.as_slice());
            if is_call || is_method {
                proof {
                    if is_call {
                        assert(self.current + 0 < self.tokens.len() && kind_matches(
                            self.toks()[self.current + 0].kind,
                            probe_call@[0]@,
                        ));
                        assert(self.current + 1 < self.tokens.len() && kind_matches(
                            self.toks()[self.current + 1].kind,
                            probe_call@[1]@,
                        ));
                    } else {
                        assert(self.current + 0 < self.tokens.len() && kind_matches(
                            self.toks()[self.current + 0].kind,
                            probe_method@[0]@,
                        ));
                        assert(self.current + 1 < self.tokens.len() && kind_matches(
                            self.toks()[self.current + 1].kind,
                            probe_method@[1]@,
                        ));
                        assert(self.current + 2 < self.tokens.len() && kind_matches(
                            self.toks()[self.current + 2].kind,
                            probe_method@[2]@,
                        ));
                        assert(self.current + 3 < self.tokens.len() && kind_matches(
                            self.toks()[self.current + 3].kind,
                            probe_method@[3]@,
                        ));
                    }
                    assert(expr_stmt_lookahead(toks, i));
                }
                let (re, fw1) = self.expression_w();
                match re {
                    Err(m) => {
                        proof {
                            let res = pres_of::<Stmt>(Err(m), self.current as int);
                            let rese = pres_of::<Expr>(Err(m), self.current as int);
                            assert forall|f: nat|
                                agrees(#[trigger] p_statement(toks, i, f), res) by {
                                if f > 0 {
                                    assert(agrees(p_expression(toks, i, (f - 1) as nat), rese));
                                }
                            }
                            assert forall|f: nat| f >= fw1@ + 1 implies #[trigger] p_statement(
                                toks,
                                i,
                                f,
                            ) == res by {
                                assert(p_expression(toks, i, (f - 1) as nat) == rese);
                            }
                        }
                        (Err(m), Ghost(fw1@ + 1))
                    },
                    Ok(e) => {
                        let ghost ev = e.deep_view();
                        let ghost mid = self.current as int;
                        let ghost res1: PRes<crate::ast::ExprModel> = PRes::Ready {
                            v: ev,
                            next: mid,
                        };
                        let out = Stmt::Expression(e);
                        proof {
                            let res = pres_of::<Stmt>(Ok(out), mid);
                            assert forall|f: nat|
                                agrees(#[trigger] p_statement(toks, i, f), res) by {
                                if f > 0 {
                                    assert(agrees(p_expression(toks, i, (f - 1) as nat), res1));
                                }
                            }
                            assert forall|f: nat| f >= fw1@ + 1 implies #[trigger] p_statement(
                                toks,
                                i,
                                f,
                            ) == res by {
                                assert(p_expression(toks, i, (f - 1) as nat) == res1);
                            }
                        }
                        (Ok(out), Ghost(fw1@ + 1))
                    },
                }
            } else {
                let m = "Unexpected statement".to_owned();
                proof {
                    assert(!expr_stmt_lookahead(toks, i)) by {
                        if expr_stmt_lookahead(toks, i) {
                            if check_at(toks, i + 1, crate::tokens::TokenKind::ParenthesesOpen) {
                                assert(forall|k: int|
                                    0 <= k < probe_call@.len() ==> self.current + k
                                        < self.tokens.len() && kind_matches(
                                        (#[trigger] self.toks()[self.current + k].kind),
                                        probe_call@[k]@,
                                    ));
                            } else {
                                assert(forall|k: int|
                                    0 <= k < probe_method@.len() ==> self.current + k
                                        < self.tokens.len() && kind_matches(
                                        (#[trigger] self.toks()[self.current + k].kind),
                                        probe_method@[k]@,
                                    ));
                            }
                        }
                    }
                    let res = pres_of::<Stmt>(Err(m), i);
                    assert(forall|f: nat| f >= 1 ==> #[trigger] p_statement(toks, i, f) == res);
                }
                (Err(m), Ghost(1nat))
            }
        }
    }

    /// `let <identifier> = <expression> ;`, entered at the `let`.
    #[verifier::rlimit(100)]
    #[verifier::spinoff_prover]
    fn variable_declaration(&mut self) -> (r: (Result<Stmt, String>, Ghost<nat>))
        requires
            old(self).wf(),
            check_at(old(self).toks(), old(self).current as int, crate::tokens::TokenKind::Let),
        ensures
            rule_frame(*old(self), *final(self)),
            r.0 is Ok ==> old(self).current < final(self).current,
            forall|f: nat|
                agrees(
                    #[trigger] p_var_decl(old(self).toks(), old(self).current as int, f),
                    pres_of(r.0, final(self).current as int),
                ),
            forall|f: nat|
                f >= r.1@ ==> #[trigger] p_var_decl(old(self).toks(), old(self).current as int, f)
                    == pres_of(r.0, final(self).current as int),
        decreases self.tokens.len() - self.current, 32int,
    {
        let ghost toks = old(self).toks();
        let ghost i = old(self).current as int;
        self.advance();
        proof {
            reveal_strlit("");
        }
        let name: String = match self.consume(
            TokenType::Identifier(String::new()),
            "Expected variable name",
        ) {
            Ok(t) => {
                match t.token_type {
                    TokenType::Identifier(n) => n,
                    _ => {
                        proof {
                            assert(false);
                        }
                        String::new()
                    },
                }
            },
            Err(_) => {
                let m = "Expected identifier".to_owned();
                proof {
                    let res = pres_of::<Stmt>(Err(m), i + 1);
                    assert(forall|f: nat| f >= 1 ==> #[trigger] p_var_decl(toks, i, f) == res);
                }
                return (Err(m), Ghost(1nat));
            },
        };
        let ghost nm = name@;
        match self.consume(TokenType::Equals, "Expected '=' after variable name") {
            Err(m) => {
                proof {
                    let res = pres_of::<Stmt>(Err(m), i + 2);
                    assert(forall|f: nat| f >= 1 ==> #[trigger] p_var_decl(toks, i, f) == res);
                }
                return (Err(m), Ghost(1nat));
            },
            Ok(_) => {},
        }
        let (re, fw1) = self.expression_w();
        match re {
            Err(m) => {
                proof {
                    let res = pres_of::<Stmt>(Err(m), self.current as int);
                    let rese = pres_of::<Expr>(Err(m), self.current as int);
                    assert forall|f: nat| agrees(#[trigger] p_var_decl(toks, i, f), res) by {
                        if f > 0 {
                            assert(agrees(p_expression(toks, i + 3, (f - 1) as nat), rese));
                        }
                    }
                    assert forall|f: nat| f >= fw1@ + 1 implies #[trigger] p_var_decl(toks, i, f)
                        == res by {
                        assert(p_expression(toks, i + 3, (f - 1) as nat) == rese);
                    }
                }
                (Err(m), Ghost(fw1@ + 1))
            },
            Ok(initializer) => {
                let ghost vv = initializer.deep_view();
                let ghost mid = self.current as int;
                let ghost res1: PRes<crate::ast::ExprModel> = PRes::Ready { v: vv, next: mid };
                let out: Result<Stmt, String> = match self.consume(
                    TokenType::SemiColon,
                    "Expected ';' after variable declaration",
                ) {
                    Ok(_) => Ok(Stmt::VariableDecl(VariableDecl::new(name, initializer))),
                    Err(m) => Err(m),
                };
                proof {
                    reveal_with_fuel(crate::ast::stmt_view, 2);
                    let res = pres_of(out, self.current as int);
                    assert forall|f: nat| agrees(#[trigger] p_var_decl(toks, i, f), res) by {
                        if f > 0 {
                            assert(agrees(p_expression(toks, i + 3, (f - 1) as nat), res1));
                        }
                    }
                    assert forall|f: nat| f >= fw1@ + 1 implies #[trigger] p_var_decl(toks, i, f)
                        == res by {
                        assert(p_expression(toks, i + 3, (f - 1) as nat) == res1);
                    }
                }
                (out, Ghost(fw1@ + 1))
            },
        }
    }

    /// The parameter list of a function declaration: identifiers
    /// separated by commas, ending at the closing parenthesis.
    #[verifier::rlimit(80)]
    fn fn_params(&mut self, acc: Vec<String>) -> (r: (Result<Vec<String>, String>, Ghost<nat>))
        requires
            old(self).wf(),
        ensures
            rule_frame(*old(self), *final(self)),
            forall|f: nat|
                agrees(
                    #[trigger] p_params(
                        old(self).toks(),
                        acc.deep_view(),
                        old(self).current as int,
                        f,
                    ),
                    pres_of(r.0, final(self).current as int),
                ),
            forall|f: nat|
                f >= r.1@ ==> #[trigger] p_params(
                    old(self).toks(),
                    acc.deep_view(),
                    old(self).current as int,
                    f,
                ) == pres_of(r.0, final(self).current as int),
        decreases self.tokens.len() - self.current, 30int,
    {
        let ghost toks = old(self).toks();
        let ghost i = old(self).current as int;
        let ghost av = acc.deep_view();
        if self.check(&TokenType::ParenthesesClose) {
            proof {
                let res = pres_of::<Vec<String>>(Ok(acc), i);
                assert(forall|f: nat| f >= 1 ==> #[trigger] p_params(toks, av, i, f) == res);
            }
            return (Ok(acc), Ghost(1nat));
        }
        proof {
            reveal_strlit("");
        }
        let name: String = match self.consume(
            TokenType::Identifier(String::new()),
            "Expected parameter name",
        ) {
            Ok(t) => {
                match t.token_type {
                    TokenType::Identifier(n) => n,
                    _ => {
                        proof {
                            assert(false);
                        }
                        String::new()
                    },
                }
            },
            Err(_) => {
                let m = "Expected identifier".to_owned();
                proof {
                    let res = pres_of::<Vec<String>>(Err(m), i);
                    assert(forall|f: nat| f >= 1 ==> #[trigger] p_params(toks, av, i, f) == res);
                }
                return (Err(m), Ghost(1nat));
            },
        };
        let ghost nm = name@;
        let comma = self.check(&TokenType::Comma);
        let close = self.check(&TokenType::ParenthesesClose);
        if !comma && !close {
            let m = "Expected ',' or ')' after parameter".to_owned();
            proof {
                let res = pres_of::<Vec<String>>(Err(m), i + 1);
                assert(forall|f: nat| f >= 1 ==> #[trigger] p_params(toks, av, i, f) == res);
            }
            return (Err(m), Ghost(1nat));
        }
        let mut acc2 = acc;
        acc2.push(name);
        let ghost av2 = acc2.deep_view();
        proof {
            assert(av2 =~= av.push(nm));
        }
        if comma {
            self.advance();
            let (r2, fw2) = self.fn_params(acc2);
            proof {
                let res = pres_of(r2, self.current as int);
                assert forall|f: nat| agrees(#[trigger] p_params(toks, av, i, f), res) by {
                    if f > 0 {
                        assert(agrees(p_params(toks, av2, i + 2, (f - 1) as nat), res));
                    }
                }
                assert forall|f: nat| f >= fw2@ + 1 implies #[trigger] p_params(toks, av, i, f)
                    == res by {
                    assert(p_params(toks, av2, i + 2, (f - 1) as nat) == res);
                }
            }
            (r2, Ghost(fw2@ + 1))
        } else {
            let (r2, fw2) = self.fn_params(acc2);
            proof {
                let res = pres_of(r2, self.current as int);
                assert forall|f: nat| agrees(#[trigger] p_params(toks, av, i, f), res) by {
                    if f > 0 {
                        assert(agrees(p_params(toks, av2, i + 1, (f - 1) as nat), res));
                    }
                }
                assert forall|f: nat| f >= fw2@ + 1 implies #[trigger] p_params(toks, av, i, f)
                    == res by {
                    assert(p_params(toks, av2, i + 1, (f - 1) as nat) == res);
                }
            }
            (r2, Ghost(fw2@ + 1))
        }
    }

    /// The body statements of a function declaration, ending at the
    /// closing brace.
    #[verifier::rlimit(80)]
    fn fn_body(&mut self, acc: Vec<Stmt>) -> (r: (Result<Vec<Stmt>, String>, Ghost<nat>))
        requires
            old(self).wf(),
        ensures
            rule_frame(*old(self), *final(self)),
            forall|f: nat|
                agrees(
                    #[trigger] p_body(old(self).toks(), acc.deep_view(), old(self).current as int, f),
                    pres_of(r.0, final(self).current as int),
                ),
            forall|f: nat|
                f >= r.1@ ==> #[trigger] p_body(
                    old(self).toks(),
                    acc.deep_view(),
                    old(self).current as int,
                    f,
                ) == pres_of(r.0, final(self).current as int),
        decreases self.tokens.len() - self.current, 35int,
    {
        let ghost toks = old(self).toks();
        let ghost i = old(self).current as int;
        let ghost av = acc.deep_view();
        if self.check(&TokenType::CurlyClose) {
            proof {
                let res = pres_of::<Vec<Stmt>>(Ok(acc), i);
                assert(forall|f: nat| f >= 1 ==> #[trigger] p_body(toks, av, i, f) == res);
            }
            return (Ok(acc), Ghost(1nat));
        }
        let (rs, fw1) = self.statement();
        match rs {
            Err(m) => {
                proof {
                    let res = pres_of::<Vec<Stmt>>(Err(m), self.current as int);
                    let rest = pres_of::<Stmt>(Err(m), self.current as int);
                    assert forall|f: nat| agrees(#[trigger] p_body(toks, av, i, f), res) by {
                        if f > 0 {
                            assert(agrees(p_statement(toks, i, (f - 1) as nat), rest));
                        }
                    }
                    assert forall|f: nat| f >= fw1@ + 1 implies #[trigger] p_body(toks, av, i, f)
                        == res by {
                        assert(p_statement(toks, i, (f - 1) as nat) == rest);
                    }
                }
                (Err(m), Ghost(fw1@ + 1))
            },
            Ok(st) => {
                let ghost sv = st.deep_view();
                let ghost mid = self.current as int;
                let ghost res1: PRes<crate::ast::StmtModel> = PRes::Ready { v: sv, next: mid };
                let mut acc2 = acc;
                acc2.push(st);
                let ghost av2 = acc2.deep_view();
                proof {
                    assert(av2 =~= av.push(sv));
                }
                let (r2, fw2) = self.fn_body(acc2);
                proof {
                    let res = pres_of(r2, self.current as int);
                    assert forall|f: nat| agrees(#[trigger] p_body(toks, av, i, f), res) by {
                        if f > 0 {
                            assert(agrees(p_statement(toks, i, (f - 1) as nat), res1));
                            assert(agrees(p_body(toks, av2, mid, (f - 1) as nat), res));
                        }
                    }
                    assert forall|f: nat| f >= fw1@ + fw2@ + 1 implies #[trigger] p_body(
                        toks,
                        av,
                        i,
                        f,
                    ) == res by {
                        assert(p_statement(toks, i, (f - 1) as nat) == res1);
                        assert(p_body(toks, av2, mid, (f - 1) as nat) == res);
                    }
                }
                (r2, Ghost(fw1@ + fw2@ + 1))
            },
        }
    }

    /// `fn <identifier> ( <parameters> ) { <statements> }`, entered at
    /// the `fn`.
    #[verifier::rlimit(100)]
    #[verifier::spinoff_prover]
    fn parse_function_declaration(&mut self) -> (r: (Result<Stmt, String>, Ghost<nat>))
        requires
            old(self).wf(),
            check_at(
                old(self).toks(),
                old(self).current as int,
                crate::tokens::TokenKind::Function,
            ),
        ensures
            rule_frame(*old(self), *final(self)),
            r.0 is Ok ==> old(self).current < final(self).current,
            forall|f: nat|
                agrees(
                    #[trigger] p_fn_decl(old(self).toks(), old(self).current as int, f),
                    pres_of(r.0, final(self).current as int),
                ),
            forall|f: nat|
                f >= r.1@ ==> #[trigger] p_fn_decl(old(self).toks(), old(self).current as int, f)
                    == pres_of(r.0, final(self).current as int),
        decreases self.tokens.len() - self.current, 31int,
    {
        let ghost toks = old(self).toks();
        let ghost i = old(self).current as int;
        match self.consume(TokenType::Function, "Expected function keyword") {
            Ok(_) => {},
            // the caller checked the keyword is there
            Err(_) => {
                proof {
                    assert(false);
                }
                return (Err(String::new()), Ghost(1nat));
            },
        }
        let name: String = match self.parse_identifier("Expected function name") {
            Ok(s) => s,
            Err(m) => {
                proof {
                    let res = pres_of::<Stmt>(Err(m), i + 1);
                    assert(forall|f: nat| f >= 1 ==> #[trigger] p_fn_decl(toks, i, f) == res);
                }
                return (Err(m), Ghost(1nat));
            },
        };
        let ghost nm = name@;
        match self.consume(TokenType::ParenthesesOpen, "Expected '('") {
            Err(m) => {
                proof {
                    let res = pres_of::<Stmt>(Err(m), i + 2);
                    assert(forall|f: nat| f >= 1 ==> #[trigger] p_fn_decl(toks, i, f) == res);
                }
                return (Err(m), Ghost(1nat));
            },
            Ok(_) => {},
        }
        let empty_params: Vec<String> = Vec::new();
        let ghost epv = empty_params.deep_view();
        proof {
            assert(epv =~= Seq::<Seq<char>>::empty());
        }
        let (rp, fw1) = self.fn_params(empty_params);
        match rp {
            Err(m) => {
                proof {
                    let res = pres_of::<Stmt>(Err(m), self.current as int);
                    let resp = pres_of::<Vec<String>>(Err(m), self.current as int);
                    assert forall|f: nat| agrees(#[trigger] p_fn_decl(toks, i, f), res) by {
                        if f > 0 {
                            assert(agrees(
                                p_params(toks, epv, i + 3, (f - 1) as nat),
                                resp,
                            ));
                        }
                    }
                    assert forall|f: nat| f >= fw1@ + 1 implies #[trigger] p_fn_decl(toks, i, f)
                        == res by {
                        assert(p_params(toks, epv, i + 3, (f - 1) as nat)
                            == resp);
                    }
                }
                (Err(m), Ghost(fw1@ + 1))
            },
            Ok(params) => {
                let ghost pv = params.deep_view();
                let ghost k = self.current as int;
                let ghost res1: PRes<Seq<Seq<char>>> = PRes::Ready { v: pv, next: k };
                match self.consume(TokenType::ParenthesesClose, "Expected ')'") {
                    Err(m) => {
                        proof {
                            let res = pres_of::<Stmt>(Err(m), k);
                            assert forall|f: nat| agrees(#[trigger] p_fn_decl(toks, i, f), res) by {
                                if f > 0 {
                                    assert(agrees(
                                        p_params(toks, epv, i + 3, (f - 1) as nat),
                                        res1,
                                    ));
                                }
                            }
                            assert forall|f: nat| f >= fw1@ + 1 implies #[trigger] p_fn_decl(
                                toks,
                                i,
                                f,
                            ) == res by {
                                assert(p_params(toks, epv, i + 3, (f - 1) as nat)
                                    == res1);
                            }
                        }
                        return (Err(m), Ghost(fw1@ + 1));
                    },
                    Ok(_) => {},
                }
                match self.consume(TokenType::CurlyOpen, "Expected '{'") {
                    Err(m) => {
                        proof {
                            let res = pres_of::<Stmt>(Err(m), k + 1);
                            assert forall|f: nat| agrees(#[trigger] p_fn_decl(toks, i, f), res) by {
                                if f > 0 {
                                    assert(agrees(
                                        p_params(toks, epv, i + 3, (f - 1) as nat),
                                        res1,
                                    ));
                                }
                            }
                            assert forall|f: nat| f >= fw1@ + 1 implies #[trigger] p_fn_decl(
                                toks,
                                i,
                                f,
                            ) == res by {
                                assert(p_params(toks, epv, i + 3, (f - 1) as nat)
                                    == res1);
                            }
                        }
                        return (Err(m), Ghost(fw1@ + 1));
                    },
                    Ok(_) => {},
                }
                let empty_body: Vec<Stmt> = Vec::new();
                let ghost ebv = empty_body.deep_view();
                proof {
                    assert(ebv =~= Seq::<crate::ast::StmtModel>::empty());
                }
                let (rb, fw2) = self.fn_body(empty_body);
                match rb {
                    Err(m) => {
                        proof {
                            let res = pres_of::<Stmt>(Err(m), self.current as int);
                            let resb = pres_of::<Vec<Stmt>>(Err(m), self.current as int);
                            assert forall|f: nat| agrees(#[trigger] p_fn_decl(toks, i, f), res) by {
                                if f > 0 {
                                    assert(agrees(
                                        p_params(toks, epv, i + 3, (f - 1) as nat),
                                        res1,
                                    ));
                                    assert(agrees(
                                        p_body(toks, ebv, k + 2, (f - 1) as nat),
                                        resb,
                                    ));
                                }
                            }
                            assert forall|f: nat| f >= fw1@ + fw2@ + 1 implies #[trigger] p_fn_decl(
                                toks,
                                i,
                                f,
                            ) == res by {
                                assert(p_params(toks, epv, i + 3, (f - 1) as nat)
                                    == res1);
                                assert(p_body(toks, ebv, k + 2, (f - 1) as nat) == resb);
                            }
                        }
                        (Err(m), Ghost(fw1@ + fw2@ + 1))
                    },
                    Ok(body) => {
                        let ghost bv = body.deep_view();
                        let ghost m2 = self.current as int;
                        let ghost res2: PRes<Seq<crate::ast::StmtModel>> = PRes::Ready {
                            v: bv,
                            next: m2,
                        };
                        proof {
                            crate::ast::lemma_vec_stmt_deep(body);
                        }
                        let out: Result<Stmt, String> = match self.consume(
                            TokenType::CurlyClose,
                            "Expected '}'",
                        ) {
                            Ok(_) => Ok(Stmt::FunctionDecl(Function::new(name, params, body))),
                            Err(m) => Err(m),
                        };
                        proof {
                            reveal_with_fuel(crate::ast::stmt_view, 2);
                            let res = pres_of(out, self.current as int);
                            assert forall|f: nat| agrees(#[trigger] p_fn_decl(toks, i, f), res) by {
                                if f > 0 {
                                    assert(agrees(
                                        p_params(toks, epv, i + 3, (f - 1) as nat),
                                        res1,
                                    ));
                                    assert(agrees(
                                        p_body(toks, ebv, k + 2, (f - 1) as nat),
                                        res2,
                                    ));
                                }
                            }
                            assert forall|f: nat| f >= fw1@ + fw2@ + 1 implies #[trigger] p_fn_decl(
                                toks,
                                i,
                                f,
                            ) == res by {
                                assert(p_params(toks, epv, i + 3, (f - 1) as nat)
                                    == res1);
                                assert(p_body(toks, ebv, k + 2, (f - 1) as nat) == res2);
                            }
                        }
                        (out, Ghost(fw1@ + fw2@ + 1))
                    },
                }
            },
        }
    }

    /// One top-level declaration: a `let` declaration, or whatever the
    /// statement grammar accepts.
    #[verifier::rlimit(80)]
    fn declaration(&mut self) -> (r: (Result<Stmt, String>, Ghost<nat>))
        requires
            old(self).wf(),
        ensures
            rule_frame(*old(self), *final(self)),
            r.0 is Ok ==> old(self).current < final(self).current,
            forall|f: nat|
                agrees(
                    #[trigger] p_declaration(old(self).toks(), old(self).current as int, f),
                    pres_of(r.0, final(self).current as int),
                ),
            forall|f: nat|
                f >= r.1@ ==> #[trigger] p_declaration(old(self).toks(), old(self).current as int, f)
                    == pres_of(r.0, final(self).current as int),
        decreases self.tokens.len() - self.current, 34int,
    {
        let ghost toks = old(self).toks();
        let ghost i = old(self).current as int;
        if self.check(&TokenType::Let) {
            let (r0, fw1) = self.variable_declaration();
            proof {
                let res = pres_of(r0, self.current as int);
                assert forall|f: nat| agrees(#[trigger] p_declaration(toks, i, f), res) by {
                    if f > 0 {
                        assert(agrees(p_var_decl(toks, i, (f - 1) as nat), res));
                    }
                }
                assert forall|f: nat| f >= fw1@ + 1 implies #[trigger] p_declaration(toks, i, f)
                    == res by {
                    assert(p_var_decl(toks, i, (f - 1) as nat) == res);
                }
            }
            (r0, Ghost(fw1@ + 1))
        } else {
            let (r0, fw1) = self.statement();
            proof {
                let res = pres_of(r0, self.current as int);
                assert forall|f: nat| agrees(#[trigger] p_declaration(toks, i, f), res) by {
                    if f > 0 {
                        assert(agrees(p_statement(toks, i, (f - 1) as nat), res));
                    }
                }
                assert forall|f: nat| f >= fw1@ + 1 implies #[trigger] p_declaration(toks, i, f)
                    == res by {
                    assert(p_statement(toks, i, (f - 1) as nat) == res);
                }
            }
            (r0, Ghost(fw1@ + 1))
        }
    }

    /// The witness-carrying form of the whole parse.
    #[verifier::rlimit(100)]
    #[verifier::spinoff_prover]
    fn parse_w(&mut self) -> (r: (Vec<Stmt>, Ghost<nat>))
        requires
            old(self).wf(),
        ensures
            rule_frame(*old(self), *final(self)),
            forall|f: nat|
                agrees(
                    #[trigger] p_parse(old(self).toks(), old(self).current as int, f),
                    PRes::Ready { v: r.0.deep_view(), next: final(self).current as int },
                ),
            forall|f: nat|
                f >= r.1@ ==> #[trigger] p_parse(old(self).toks(), old(self).current as int, f)
                    == (PRes::Ready { v: r.0.deep_view(), next: final(self).current as int }),
        decreases self.tokens.len() - self.current, 40int,
    {
        let ghost toks = old(self).toks();
        let ghost i = old(self).current as int;
        if self.is_at_end() {
            let out: Vec<Stmt> = Vec::new();
            proof {
                assert(out.deep_view() =~= Seq::<crate::ast::StmtModel>::empty());
                let res: PRes<Seq<crate::ast::StmtModel>> = PRes::Ready {
                    v: out.deep_view(),
                    next: i,
                };
                assert(forall|f: nat| f >= 1 ==> #[trigger] p_parse(toks, i, f) == res);
            }
            return (out, Ghost(1nat));
        }
        let start = self.current;
        let (rd, fw1) = self.declaration();
        match rd {
            Ok(st) => {
                let ghost sv = st.deep_view();
                let ghost mid = self.current as int;
                let ghost res1: PRes<crate::ast::StmtModel> = PRes::Ready { v: sv, next: mid };
                let (rest, fw2) = self.parse_w();
                let ghost restv = rest.deep_view();
                let ghost fin = self.current as int;
                let mut result: Vec<Stmt> = Vec::new();
                result.push(st);
                let mut rest_mut = rest;
                result.append(&mut rest_mut);
                proof {
                    assert(result.deep_view() =~= seq![sv] + restv);
                    let res: PRes<Seq<crate::ast::StmtModel>> = PRes::Ready {
                        v: result.deep_view(),
                        next: fin,
                    };
                    assert forall|f: nat| agrees(#[trigger] p_parse(toks, i, f), res) by {
                        if f > 0 {
                            assert(agrees(p_declaration(toks, i, (f - 1) as nat), res1));
                            assert(agrees(
                                p_parse(toks, mid, (f - 1) as nat),
                                PRes::Ready { v: restv, next: fin },
                            ));
                        }
                    }
                    assert forall|f: nat| f >= fw1@ + fw2@ + 1 implies #[trigger] p_parse(toks, i, f)
                        == res by {
                        assert(p_declaration(toks, i, (f - 1) as nat) == res1);
                        assert(p_parse(toks, mid, (f - 1) as nat) == (PRes::Ready {
                            v: restv,
                            next: fin,
                        }));
                    }
                }
                (result, Ghost(fw1@ + fw2@ + 1))
            },
            Err(m) => {
                let ghost em = m@;
                let ghost mid0 = self.current as int;
                if self.current == start {
                    self.advance();
                }
                let ghost j2 = self.current as int;
                let (rest, fw2) = self.parse_w();
                let ghost restv = rest.deep_view();
                let ghost fin = self.current as int;
                proof {
                    let res: PRes<Seq<crate::ast::StmtModel>> = PRes::Ready {
                        v: restv,
                        next: fin,
                    };
                    assert forall|f: nat| agrees(#[trigger] p_parse(toks, i, f), res) by {
                        if f > 0 {
                            assert(agrees(
                                p_declaration(toks, i, (f - 1) as nat),
                                PRes::<crate::ast::StmtModel>::Error { msg: em, next: mid0 },
                            ));
                            assert(agrees(p_parse(toks, j2, (f - 1) as nat), res));
                        }
                    }
                    assert forall|f: nat| f >= fw1@ + fw2@ + 1 implies #[trigger] p_parse(toks, i, f)
                        == res by {
                        assert(p_declaration(toks, i, (f - 1) as nat) == (PRes::<
                            crate::ast::StmtModel,
                        >::Error { msg: em, next: mid0 }));
                        assert(p_parse(toks, j2, (f - 1) as nat) == res);
                    }
                }
                (rest, Ghost(fw1@ + fw2@ + 1))
            },
        }
    }

    /// Parse the whole token sequence into statements, until the terminal
    /// token or the end of the sequence. A statement that fails to parse
    /// is dropped, and parsing continues from where the failed attempt
    /// stopped, always advancing at least one token. For every sufficient
    /// fuel the model computes exactly this result.
    pub fn parse(&mut self) -> (statements: Vec<Stmt>)
        requires
            old(self).wf(),
        ensures
            rule_frame(*old(self), *final(self)),
            forall|f: nat|
                agrees(
                    #[trigger] p_parse(old(self).toks(), old(self).current as int, f),
                    PRes::Ready {
                        v: statements.deep_view(),
                        next: final(self).current as int,
                    },
                ),
            exists|fw: nat|
                #[trigger] parse_settles(
                    old(self).toks(),
                    old(self).current as int,
                    fw,
                    PRes::Ready {
                        v: statements.deep_view(),
                        next: final(self).current as int,
                    },
                ),
    {
        let (r0, fw1) = self.parse_w();
        proof {
            assert(parse_settles(
                old(self).toks(),
                old(self).current as int,
                fw1@,
                PRes::Ready { v: r0.deep_view(), next: self.current as int },
            ));
        }
        r0
    }
}

/// The parse model settles from fuel `fw` on: every larger fuel computes
/// exactly `res`.
pub open spec fn parse_settles(
    toks: Seq<crate::tokens::TokenModel>,
    i: int,
    fw: nat,
    res: PRes<Seq<crate::ast::StmtModel>>,
) -> bool {
    forall|f: nat| f >= fw ==> #[trigger] p_parse(toks, i, f) == res
}

/// The rule's frame: the tokens are kept and the cursor only moves
/// forward.
pub open spec fn rule_frame(pre: Parser, post: Parser) -> bool {
    &&& post.wf()
    &&& post.tokens == pre.tokens
    &&& pre.current <= post.current
}


/// Read a decimal numeral as a 32-bit integer: the text must be a
/// non-empty digit run whose value fits; anything else is rejected.
pub(crate) fn parse_i32(s: &str) -> (r: Option<i32>)
    ensures
        r == i32_of_text(s@),
{
    let n = s.unicode_len();
    if n == 0 {
        return None;
    }
    let mut acc: u64 = 0;
    let mut k: usize = 0;
    while k < n
        invariant
            0 <= k <= n,
            n == s@.len(),
            forall|m: int| 0 <= m < k ==> crate::char_classes::dec_digit(#[trigger] s@[m]),
            acc == crate::parse_model::digits_val(s@.subrange(0, k as int)),
            acc <= i32::MAX,
        decreases n - k,
    {
        let c = s.get_char(k);
        if !crate::char_classes::is_digit_char(c) {
            return None;
        }
        let d: u64 = (c as u32 - '0' as u32) as u64;
        acc = acc * 10 + d;
        k = k + 1;
        proof {
            assert(s@.subrange(0, k as int).drop_last() =~= s@.subrange(0, k - 1));
            assert(s@.subrange(0, k as int).last() == s@[k - 1]);
        }
        if acc > i32::MAX as u64 {
            proof {
                if crate::parse_model::is_dec_digits(s@) {
                    crate::parse_model::lemma_digits_val_prefix_le(s@, k as int);
                }
            }
            return None;
        }
    }
    proof {
        assert(s@.subrange(0, n as int) =~= s@);
    }
    Some(acc as i32)
}

/// The decimal digit character for `d`.
fn digit_string(d: usize) -> (r: &'static str)
    requires
        d < 10,
    ensures
        r@ == seq![digit_char(d as nat)],
{
    proof {
        reveal_strlit("0");
        reveal_strlit("1");
        reveal_strlit("2");
        reveal_strlit("3");
        reveal_strlit("4");
        reveal_strlit("5");
        reveal_strlit("6");
        reveal_strlit("7");
        reveal_strlit("8");
        reveal_strlit("9");
    }
    if d == 0 {
        "0"
    } else if d == 1 {
        "1"
    } else if d == 2 {
        "2"
    } else if d == 3 {
        "3"
    } else if d == 4 {
        "4"
    } else if d == 5 {
        "5"
    } else if d == 6 {
        "6"
    } else if d == 7 {
        "7"
    } else if d == 8 {
        "8"
    } else {
        "9"
    }
}

/// The decimal numeral for `n`, for positioned failure messages.
fn usize_to_string(n: usize) -> (r: String)
    ensures
        r@ == dec_str(n as nat),
    decreases n,
{
    if n < 10 {
        digit_string(n).to_owned()
    } else {
        let mut r = usize_to_string(n / 10);
        r.append(digit_string(n % 10));
        proof {
            assert(r@ =~= dec_str(n as nat));
        }
        r
    }
}

/// The bare variant name of a token shape, for failure messages.
fn token_type_name(t: &TokenType) -> (r: String)
    ensures
        r@ == kind_name(t@),
{
    let s: &str = match t {
        TokenType::Let => "Let",
        TokenType::If => "If",
        TokenType::For => "For",
        TokenType::While => "While",
        TokenType::Function => "Function",
        TokenType::Identifier(_) => "Identifier",
        TokenType::Number(_) => "Number",
        TokenType::String(_) => "String",
        TokenType::Char(_) => "Char",
        TokenType::Equals => "Equals",
        TokenType::EqualsEquals => "EqualsEquals",
        TokenType::Bang => "Bang",
        TokenType::BangEquals => "BangEquals",
        TokenType::Plus => "Plus",
        TokenType::Minus => "Minus",
        TokenType::Multiply => "Multiply",
        TokenType::Divide => "Divide",
        TokenType::Modulo => "Modulo",
        TokenType::LessThan => "LessThan",
        TokenType::LessThanOrEqual => "LessThanOrEqual",
        TokenType::GreaterThan => "GreaterThan",
        TokenType::GreaterThanOrEqual => "GreaterThanOrEqual",
        TokenType::Dot => "Dot",
        TokenType::Range => "Range",
        TokenType::Comma => "Comma",
        TokenType::SemiColon => "SemiColon",
        TokenType::CurlyOpen => "CurlyOpen",
        TokenType::CurlyClose => "CurlyClose",
        TokenType::BracketOpen => "BracketOpen",
        TokenType::BracketClose => "BracketClose",
        TokenType::ParenthesesOpen => "ParenthesesOpen",
        TokenType::ParenthesesClose => "ParenthesesClose",
        TokenType::Eof => "Eof",
    };
    s.to_owned()
}

} // verus!
