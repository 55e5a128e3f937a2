//! The abstract syntax tree: expressions, statements and declarations.
//!
//! Every node is a pure value, constructed once and never mutated, with
//! strictly hierarchical ownership. The ghost models mirror the tree with
//! string payloads viewed as character sequences.

use vstd::prelude::*;

verus! {

/// A literal value. Numeric literals whose text parses as a 32-bit
/// integer become `Integer`; any other numeric text is rejected by the
/// parser with an "Invalid number literal" failure.
#[derive(Debug, PartialEq)]
pub enum Literal {
    Integer(i32),
}

/// A binary operator, in the order of the precedence levels that consume
/// them: equality, comparison, term, factor.
#[derive(Debug, PartialEq)]
pub enum BinaryOp {
    Add,
    Subtract,
    Multiply,
    Divide,
    Modulo,
    Equal,
    NotEqual,
    Greater,
    GreaterEqual,
    Less,
    LessEqual,
}

/// A prefix operator.
#[derive(Debug, PartialEq)]
pub enum UnaryOp {
    Not,
    Negative,
}

/// A name used as an expression.
#[derive(Debug, PartialEq)]
pub struct Variable {
    pub name: String,
}

/// A binary application: `left op right`.
#[derive(Debug, PartialEq)]
pub struct BinaryExpr {
    pub left: Box<Expr>,
    pub op: BinaryOp,
    pub right: Box<Expr>,
}

/// A prefix application: `op right`.
#[derive(Debug, PartialEq)]
pub struct UnaryExpr {
    pub op: UnaryOp,
    pub right: Box<Expr>,
}

/// An expression. Ownership of subtrees is exclusive: no sharing, no
/// cycles.
#[derive(Debug, PartialEq)]
pub enum Expr {
    Literal(Literal),
    Variable(Variable),
    Binary(BinaryExpr),
    Unary(UnaryExpr),
    Grouping(Box<Expr>),
    Assignment { name: String, value: Box<Expr> },
    Call { callee: Box<Expr>, arguments: Vec<Expr> },
    MethodAccess { object: Box<Expr>, method: Box<Expr> },
    PropertyAccess { object: Box<Expr>, property: String },
    Identifier(String),
}

/// A function declaration: its name, its parameter names in order, and
/// its body statements in order.
#[derive(Debug, PartialEq)]
pub struct Function {
    pub name: String,
    pub params: Vec<String>,
    pub body: Vec<Stmt>,
}

/// A variable declaration: `let name = initializer;`.
#[derive(Debug, PartialEq)]
pub struct VariableDecl {
    pub name: String,
    pub initializer: Expr,
}

/// A statement.
#[derive(Debug, PartialEq)]
pub enum Stmt {
    VariableDecl(VariableDecl),
    Expression(Expr),
    FunctionDecl(Function),
}

// ------------------------------------------------------------------
// Models
// ------------------------------------------------------------------
/// The model of an expression.
pub ghost enum ExprModel {
    Literal { lit: Literal },
    Variable { name: Seq<char> },
    Binary { left: Box<ExprModel>, op: BinaryOp, right: Box<ExprModel> },
    Unary { op: UnaryOp, right: Box<ExprModel> },
    Grouping { inner: Box<ExprModel> },
    Assignment { name: Seq<char>, value: Box<ExprModel> },
    Call { callee: Box<ExprModel>, arguments: Seq<ExprModel> },
    MethodAccess { object: Box<ExprModel>, method: Box<ExprModel> },
    PropertyAccess { object: Box<ExprModel>, property: Seq<char> },
    Identifier { name: Seq<char> },
}

/// The model of a function declaration.
pub ghost struct FunctionModel {
    pub name: Seq<char>,
    pub params: Seq<Seq<char>>,
    pub body: Seq<StmtModel>,
}

/// The model of a variable declaration.
pub ghost struct VariableDeclModel {
    pub name: Seq<char>,
    pub initializer: ExprModel,
}

/// The model of a statement.
pub ghost enum StmtModel {
    VariableDecl { decl: VariableDeclModel },
    Expression { expr: ExprModel },
    FunctionDecl { function: FunctionModel },
}

/// The model of an expression tree.
pub open spec fn expr_view(e: Expr) -> ExprModel
    decreases e, 1int,
{
    match e {
        Expr::Literal(lit) => ExprModel::Literal { lit },
        Expr::Variable(v) => ExprModel::Variable { name: v.name@ },
        Expr::Binary(b) => ExprModel::Binary {
            left: Box::new(expr_view(*b.left)),
            op: b.op,
            right: Box::new(expr_view(*b.right)),
        },
        Expr::Unary(u) => ExprModel::Unary { op: u.op, right: Box::new(expr_view(*u.right)) },
        Expr::Grouping(inner) => ExprModel::Grouping { inner: Box::new(expr_view(*inner)) },
        Expr::Assignment { name, value } => ExprModel::Assignment {
            name: name@,
            value: Box::new(expr_view(*value)),
        },
        Expr::Call { callee, arguments } => {
            proof {
                assert(decreases_to!(e, 1int => arguments@, arguments@.len() as int));
            }
            ExprModel::Call {
                callee: Box::new(expr_view(*callee)),
                arguments: exprs_view(arguments@, arguments@.len() as int),
            }
        },
        Expr::MethodAccess { object, method } => ExprModel::MethodAccess {
            object: Box::new(expr_view(*object)),
            method: Box::new(expr_view(*method)),
        },
        Expr::PropertyAccess { object, property } => ExprModel::PropertyAccess {
            object: Box::new(expr_view(*object)),
            property: property@,
        },
        Expr::Identifier(name) => ExprModel::Identifier { name: name@ },
    }
}

/// The models of the first `n` expressions of a sequence, in order.
pub open spec fn exprs_view(v: Seq<Expr>, n: int) -> Seq<ExprModel>
    decreases v, n,
    when n <= v.len()
{
    if n <= 0 {
        Seq::empty()
    } else {
        proof {
            assert(decreases_to!(v, n => v[n - 1], 1int));
        }
        exprs_view(v, n - 1).push(expr_view(v[n - 1]))
    }
}

impl View for Expr {
    type V = ExprModel;

    open spec fn view(&self) -> ExprModel {
        expr_view(*self)
    }
}

impl DeepView for Expr {
    type V = ExprModel;

    open spec fn deep_view(&self) -> ExprModel {
        expr_view(*self)
    }
}

/// The model of a statement tree.
pub open spec fn stmt_view(st: Stmt) -> StmtModel
    decreases st, 1int,
{
    match st {
        Stmt::VariableDecl(d) => StmtModel::VariableDecl {
            decl: VariableDeclModel { name: d.name@, initializer: expr_view(d.initializer) },
        },
        Stmt::Expression(e) => StmtModel::Expression { expr: expr_view(e) },
        Stmt::FunctionDecl(f) => {
            proof {
                assert(decreases_to!(st, 1int => f.body@, f.body@.len() as int));
            }
            StmtModel::FunctionDecl {
                function: FunctionModel {
                    name: f.name@,
                    params: f.params.deep_view(),
                    body: stmts_view(f.body@, f.body@.len() as int),
                },
            }
        },
    }
}

/// The models of the first `n` statements of a sequence, in order.
pub open spec fn stmts_view(v: Seq<Stmt>, n: int) -> Seq<StmtModel>
    decreases v, n,
    when n <= v.len()
{
    if n <= 0 {
        Seq::empty()
    } else {
        proof {
            assert(decreases_to!(v, n => v[n - 1], 1int));
        }
        stmts_view(v, n - 1).push(stmt_view(v[n - 1]))
    }
}

impl View for Stmt {
    type V = StmtModel;

    open spec fn view(&self) -> StmtModel {
        stmt_view(*self)
    }
}

impl DeepView for Stmt {
    type V = StmtModel;

    open spec fn deep_view(&self) -> StmtModel {
        stmt_view(*self)
    }
}

/// A view of a whole expression sequence is the element-wise model; this
/// connects `exprs_view` to `deep_view`, which the contracts use.
pub proof fn lemma_exprs_view_is_deep_view(v: Seq<Expr>, n: int)
    requires
        0 <= n <= v.len(),
    ensures
        exprs_view(v, n) == v.subrange(0, n).map_values(|e: Expr| expr_view(e)),
    decreases n,
{
    if n > 0 {
        lemma_exprs_view_is_deep_view(v, n - 1);
        assert(v.subrange(0, n).map_values(|e: Expr| expr_view(e)) =~= v.subrange(0, n - 1)
            .map_values(|e: Expr| expr_view(e)).push(expr_view(v[n - 1])));
    } else {
        assert(v.subrange(0, 0).map_values(|e: Expr| expr_view(e)) =~= Seq::<ExprModel>::empty());
    }
}

/// The statement form of the same connection.
pub proof fn lemma_stmts_view_is_deep_view(v: Seq<Stmt>, n: int)
    requires
        0 <= n <= v.len(),
    ensures
        stmts_view(v, n) == v.subrange(0, n).map_values(|st: Stmt| stmt_view(st)),
    decreases n,
{
    if n > 0 {
        lemma_stmts_view_is_deep_view(v, n - 1);
        assert(v.subrange(0, n).map_values(|st: Stmt| stmt_view(st)) =~= v.subrange(0, n - 1)
            .map_values(|st: Stmt| stmt_view(st)).push(stmt_view(v[n - 1])));
    } else {
        assert(v.subrange(0, 0).map_values(|st: Stmt| stmt_view(st)) =~= Seq::<StmtModel>::empty());
    }
}

/// The deep view of an expression vector is exactly `exprs_view` over
/// the whole of it.
pub proof fn lemma_vec_expr_deep(v: Vec<Expr>)
    ensures
        v.deep_view() == exprs_view(v@, v@.len() as int),
{
    lemma_exprs_view_is_deep_view(v@, v@.len() as int);
    assert(v@.subrange(0, v@.len() as int) =~= v@);
    assert(v.deep_view() =~= v@.map_values(|e: Expr| expr_view(e)));
}

/// The deep view of a statement vector is exactly `stmts_view` over the
/// whole of it.
pub proof fn lemma_vec_stmt_deep(v: Vec<Stmt>)
    ensures
        v.deep_view() == stmts_view(v@, v@.len() as int),
{
    lemma_stmts_view_is_deep_view(v@, v@.len() as int);
    assert(v@.subrange(0, v@.len() as int) =~= v@);
    assert(v.deep_view() =~= v@.map_values(|st: Stmt| stmt_view(st)));
}

// ------------------------------------------------------------------
// Constructors
// ------------------------------------------------------------------
/// Which binary operator a token denotes at a binary-operator position,
/// if any.
pub open spec fn binary_op_of(kind: crate::tokens::TokenKind) -> Option<BinaryOp> {
    match kind {
        crate::tokens::TokenKind::Plus => Some(BinaryOp::Add),
        crate::tokens::TokenKind::Minus => Some(BinaryOp::Subtract),
        crate::tokens::TokenKind::Multiply => Some(BinaryOp::Multiply),
        crate::tokens::TokenKind::Divide => Some(BinaryOp::Divide),
        crate::tokens::TokenKind::Modulo => Some(BinaryOp::Modulo),
        crate::tokens::TokenKind::EqualsEquals => Some(BinaryOp::Equal),
        crate::tokens::TokenKind::BangEquals => Some(BinaryOp::NotEqual),
        crate::tokens::TokenKind::GreaterThan => Some(BinaryOp::Greater),
        crate::tokens::TokenKind::GreaterThanOrEqual => Some(BinaryOp::GreaterEqual),
        crate::tokens::TokenKind::LessThan => Some(BinaryOp::Less),
        crate::tokens::TokenKind::LessThanOrEqual => Some(BinaryOp::LessEqual),
        _ => None,
    }
}

/// Which unary operator a token denotes at a unary-operator position, if
/// any.
pub open spec fn unary_op_of(kind: crate::tokens::TokenKind) -> Option<UnaryOp> {
    match kind {
        crate::tokens::TokenKind::Bang => Some(UnaryOp::Not),
        crate::tokens::TokenKind::Minus => Some(UnaryOp::Negative),
        _ => None,
    }
}

impl BinaryOp {
    /// The binary operator a token denotes: a pure, stateless mapping,
    /// total on the operator tokens and an "unknown operator" failure on
    /// everything else.
    pub fn new(token_type: crate::tokens::TokenType) -> (r: Result<BinaryOp, String>)
        ensures
            ({
                match binary_op_of(token_type@) {
                    Some(op) => r == Ok::<BinaryOp, String>(op),
                    None => r matches Err(m) && m@ == "Unknown binary operator"@,
                }
            }),
    {
        match token_type {
            crate::tokens::TokenType::Plus => Ok(BinaryOp::Add),
            crate::tokens::TokenType::Minus => Ok(BinaryOp::Subtract),
            crate::tokens::TokenType::Multiply => Ok(BinaryOp::Multiply),
            crate::tokens::TokenType::Divide => Ok(BinaryOp::Divide),
            crate::tokens::TokenType::Modulo => Ok(BinaryOp::Modulo),
            crate::tokens::TokenType::EqualsEquals => Ok(BinaryOp::Equal),
            crate::tokens::TokenType::BangEquals => Ok(BinaryOp::NotEqual),
            crate::tokens::TokenType::GreaterThan => Ok(BinaryOp::Greater),
            crate::tokens::TokenType::GreaterThanOrEqual => Ok(BinaryOp::GreaterEqual),
            crate::tokens::TokenType::LessThan => Ok(BinaryOp::Less),
            crate::tokens::TokenType::LessThanOrEqual => Ok(BinaryOp::LessEqual),
            _ => Err("Unknown binary operator".to_owned()),
        }
    }
}

impl UnaryOp {
    /// The unary operator a token denotes, or an "invalid operator"
    /// failure.
    pub fn new(token_type: crate::tokens::TokenType) -> (r: Result<UnaryOp, String>)
        ensures
            ({
                match unary_op_of(token_type@) {
                    Some(op) => r == Ok::<UnaryOp, String>(op),
                    None => r matches Err(m) && m@ == "Invalid unary operator"@,
                }
            }),
    {
        match token_type {
            crate::tokens::TokenType::Bang => Ok(UnaryOp::Not),
            crate::tokens::TokenType::Minus => Ok(UnaryOp::Negative),
            _ => Err("Invalid unary operator".to_owned()),
        }
    }
}

impl BinaryExpr {
    /// Pack the two operands around their operator.
    pub fn new(left: Box<Expr>, op: BinaryOp, right: Box<Expr>) -> (r: BinaryExpr)
        ensures
            r.left == left,
            r.op == op,
            r.right == right,
    {
        BinaryExpr { left, op, right }
    }
}

impl UnaryExpr {
    /// Pack the operand behind its operator.
    pub fn new(op: UnaryOp, right: Box<Expr>) -> (r: UnaryExpr)
        ensures
            r.op == op,
            r.right == right,
    {
        UnaryExpr { op, right }
    }
}

impl Variable {
    /// A name used as an expression.
    pub fn new(name: String) -> (r: Variable)
        ensures
            r.name == name,
    {
        Variable { name }
    }
}

impl VariableDecl {
    /// A `let` declaration of `name` with its initializer.
    pub fn new(name: String, initializer: Expr) -> (r: VariableDecl)
        ensures
            r.name == name,
            r.initializer == initializer,
    {
        VariableDecl { name, initializer }
    }
}

impl Function {
    /// A function declaration: name, parameters in order, body in order.
    pub fn new(name: String, params: Vec<String>, body: Vec<Stmt>) -> (r: Function)
        ensures
            r.name == name,
            r.params == params,
            r.body == body,
    {
        Function { name, params, body }
    }
}

} // verus!
