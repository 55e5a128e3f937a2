//! A small character-level layer: integer literals and arithmetic
//! operators read directly off the front of a string.

pub mod numbers;
pub mod operators;
