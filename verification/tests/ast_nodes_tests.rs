//! The character-level integer and operator parsers.

use apl::ast_nodes::numbers::Int;
use apl::ast_nodes::operators::Op;

#[test]
fn parse_int() {
    assert_eq!(Int::new("123"), Ok(("", Int(123))));
}

#[test]
fn parse_add() {
    assert_eq!(Op::new("+"), Ok(("", Op::Add)));
}

#[test]
fn parse_sub() {
    assert_eq!(Op::new("-"), Ok(("", Op::Sub)));
}

#[test]
fn parse_div() {
    assert_eq!(Op::new("/"), Ok(("", Op::Div)));
}

#[test]
fn parse_mul() {
    assert_eq!(Op::new("*"), Ok(("", Op::Mul)));
}

#[test]
fn parse_int_leaves_remainder() {
    assert_eq!(Int::new("42abc"), Ok(("abc", Int(42))));
    assert_eq!(Int::new("abc"), Err("Expected digits".to_string()));
}

#[test]
fn parse_op_rejects_other_text() {
    assert_eq!(Op::new("x"), Err("Expected *".to_string()));
}
