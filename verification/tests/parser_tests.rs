//! Parser behaviour: statements, precedence, grouping, calls and
//! method chains.

use apl::ast::{
    BinaryExpr, BinaryOp, Expr, Function, Literal, Stmt, UnaryExpr, UnaryOp, Variable, VariableDecl,
};
use apl::parser::Parser;
use apl::scanner::Scanner;
use apl::tokens::TokenType;

fn parse_expr(input: &str) -> Result<Expr, String> {
    let mut scanner = Scanner::new(input);
    let tokens = scanner.scan_tokens();
    let mut parser = Parser::new(tokens);
    parser.expression()
}

fn parse_stmts(input: &str) -> Vec<Stmt> {
    let mut scanner = Scanner::new(input);
    let tokens = scanner.scan_tokens();
    let mut parser = Parser::new(tokens);
    parser.parse()
}

fn lit(n: i32) -> Box<Expr> {
    Box::new(Expr::Literal(Literal::Integer(n)))
}

fn var(name: &str) -> Box<Expr> {
    Box::new(Expr::Variable(Variable::new(name.to_string())))
}

#[test]
fn parse_function_declaration() {
    let result = parse_stmts("fn test(a,b) {}");
    assert_eq!(
        result,
        vec![Stmt::FunctionDecl(Function::new(
            "test".to_string(),
            vec!["a".to_string(), "b".to_string()],
            Vec::new()
        ))]
    );
}

#[test]
fn parse_variable_declaration() {
    let result = parse_stmts("let a = 1 == 2;");
    assert_eq!(
        result,
        vec![Stmt::VariableDecl(VariableDecl::new(
            "a".to_string(),
            Expr::Binary(BinaryExpr::new(lit(1), BinaryOp::Equal, lit(2)))
        ))]
    );
}

#[test]
fn test_basic_arithmetic() {
    assert!(parse_expr("1 + 2 * 3").is_ok());
    assert!(parse_expr("(1 + 2) * 3").is_ok());
}

#[test]
fn test_function_calls() {
    assert!(parse_expr("foo()").is_ok());
    assert!(parse_expr("bar(1, 2)").is_ok());
    assert!(parse_expr("foo(bar())").is_ok());
}

#[test]
fn test_method_calls() {
    assert!(parse_expr("obj.method()").is_ok());
    assert!(parse_expr("container.getItem(1)").is_ok());
    assert!(parse_expr("builder.setX(1).setY(2).build()").is_ok());

    assert!(parse_expr("obj.").is_err());
    assert!(parse_expr("obj.method(").is_err());
    // `..` scans as a single range token, which ends the postfix chain:
    // the expression parser accepts the bare `obj` prefix and stops there.
    assert!(parse_expr("obj..method").is_ok());
}

#[test]
fn test_property_access() {
    assert!(parse_expr("obj.property").is_ok());
    assert!(parse_expr("array.length").is_ok());
}

#[test]
fn test_error_cases() {
    assert!(parse_expr("foo(").is_err());
    assert!(parse_expr("obj.").is_err());
    assert!(parse_expr("1 +").is_err());
}

#[test]
fn test_complex_expressions() {
    assert!(parse_expr("(a + b) * c.method(d)").is_ok());
    assert!(parse_expr("Math.max(score1, score2) + bonus").is_ok());
}

#[test]
fn multiplication_binds_tighter_than_addition() {
    let e = parse_expr("1 + 2 * 3").unwrap();
    assert_eq!(
        e,
        Expr::Binary(BinaryExpr::new(
            lit(1),
            BinaryOp::Add,
            Box::new(Expr::Binary(BinaryExpr::new(lit(2), BinaryOp::Multiply, lit(3))))
        ))
    );
}

#[test]
fn grouping_overrides_precedence() {
    let e = parse_expr("(1 + 2) * 3").unwrap();
    assert_eq!(
        e,
        Expr::Binary(BinaryExpr::new(
            Box::new(Expr::Grouping(Box::new(Expr::Binary(BinaryExpr::new(
                lit(1),
                BinaryOp::Add,
                lit(2)
            ))))),
            BinaryOp::Multiply,
            lit(3)
        ))
    );
}

#[test]
fn chained_postfix_nests_left_to_right() {
    let e = parse_expr("builder.setX(1).setY(2).build()").unwrap();
    let set_x = Expr::MethodAccess {
        object: var("builder"),
        method: Box::new(Expr::Call { callee: var("setX"), arguments: vec![*lit(1)] }),
    };
    let set_y = Expr::MethodAccess {
        object: Box::new(set_x),
        method: Box::new(Expr::Call { callee: var("setY"), arguments: vec![*lit(2)] }),
    };
    let build = Expr::MethodAccess {
        object: Box::new(set_y),
        method: Box::new(Expr::Call { callee: var("build"), arguments: Vec::new() }),
    };
    assert_eq!(e, build);
}

#[test]
fn unary_operators_apply_before_primary() {
    let e = parse_expr("!x").unwrap();
    assert_eq!(e, Expr::Unary(UnaryExpr::new(UnaryOp::Not, var("x"))));
    let e2 = parse_expr("-5").unwrap();
    assert_eq!(e2, Expr::Unary(UnaryExpr::new(UnaryOp::Negative, lit(5))));
}

#[test]
fn assignment_requires_variable_target() {
    let e = parse_expr("x = 1").unwrap();
    assert_eq!(e, Expr::Assignment { name: "x".to_string(), value: lit(1) });
    assert_eq!(parse_expr("1 = 2"), Err("Invalid assignment target".to_string()));
}

#[test]
fn failed_statement_is_dropped_and_parsing_continues() {
    // The first statement is malformed and silently absent; the second
    // still parses.
    let result = parse_stmts("let = 1; let b = 2;");
    assert_eq!(
        result,
        vec![Stmt::VariableDecl(VariableDecl::new("b".to_string(), *lit(2)))]
    );
}

#[test]
fn number_too_large_for_integer_is_rejected() {
    assert_eq!(parse_expr("2147483647").unwrap(), *lit(2147483647));
    assert_eq!(parse_expr("2147483648"), Err("Invalid number literal".to_string()));
    assert_eq!(parse_expr("1.5"), Err("Invalid number literal".to_string()));
}

#[test]
fn binary_op_from_token() {
    assert_eq!(BinaryOp::new(TokenType::Plus), Ok(BinaryOp::Add));
    assert_eq!(BinaryOp::new(TokenType::EqualsEquals), Ok(BinaryOp::Equal));
    assert_eq!(BinaryOp::new(TokenType::BangEquals), Ok(BinaryOp::NotEqual));
    assert_eq!(BinaryOp::new(TokenType::Modulo), Ok(BinaryOp::Modulo));
    assert_eq!(
        BinaryOp::new(TokenType::Let),
        Err("Unknown binary operator".to_string())
    );
}

#[test]
fn unary_op_from_token() {
    assert_eq!(UnaryOp::new(TokenType::Bang), Ok(UnaryOp::Not));
    assert_eq!(UnaryOp::new(TokenType::Minus), Ok(UnaryOp::Negative));
    assert_eq!(
        UnaryOp::new(TokenType::Plus),
        Err("Invalid unary operator".to_string())
    );
}

#[test]
fn function_body_statements_are_kept_in_order() {
    let result = parse_stmts("fn f(x) { let a = 1; let b = 2; }");
    assert_eq!(
        result,
        vec![Stmt::FunctionDecl(Function::new(
            "f".to_string(),
            vec!["x".to_string()],
            vec![
                Stmt::VariableDecl(VariableDecl::new("a".to_string(), *lit(1))),
                Stmt::VariableDecl(VariableDecl::new("b".to_string(), *lit(2))),
            ]
        ))]
    );
}

#[test]
fn call_statement_parses_as_expression_statement() {
    let result = parse_stmts("foo(1);");
    assert_eq!(
        result,
        vec![Stmt::Expression(Expr::Call { callee: var("foo"), arguments: vec![*lit(1)] })]
    );
}

#[test]
fn method_chain_statement_parses_as_expression_statement() {
    let result = parse_stmts("obj.set(1).get()");
    let set = Expr::MethodAccess {
        object: var("obj"),
        method: Box::new(Expr::Call { callee: var("set"), arguments: vec![*lit(1)] }),
    };
    let get = Expr::MethodAccess {
        object: Box::new(set),
        method: Box::new(Expr::Call { callee: var("get"), arguments: Vec::new() }),
    };
    assert_eq!(result, vec![Stmt::Expression(get)]);
}

#[test]
fn statements_mix_declarations_and_calls() {
    let result = parse_stmts("let a = 1; foo(a);");
    assert_eq!(
        result,
        vec![
            Stmt::VariableDecl(VariableDecl::new("a".to_string(), *lit(1))),
            Stmt::Expression(Expr::Call { callee: var("foo"), arguments: vec![*var("a")] }),
        ]
    );
}

#[test]
fn bare_identifier_is_not_a_statement() {
    // An identifier alone is not a call or method-chain statement.
    assert_eq!(parse_stmts("foo;"), Vec::new());
}

#[test]
fn function_parameters_need_commas() {
    assert_eq!(parse_stmts("fn f(a b) {}"), Vec::new());
    let msg = {
        let mut scanner = Scanner::new("fn f(a b) {}");
        let tokens = scanner.scan_tokens();
        let mut parser = Parser::new(tokens);
        parser.expression()
    };
    assert!(msg.is_err());
}
