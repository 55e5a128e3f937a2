//! The four arithmetic operators, read off the front of a string.

use vstd::prelude::*;

use crate::utils::{starts_with_spec, tag};

verus! {

/// An arithmetic operator.
#[derive(Debug, PartialEq, Eq, Structural, Clone, Copy)]
pub enum Op {
    Add,
    Sub,
    Div,
    Mul,
}

/// Which operator a leading character denotes.
pub open spec fn op_of_char(c: char) -> Option<Op> {
    if c == '+' {
        Some(Op::Add)
    } else if c == '-' {
        Some(Op::Sub)
    } else if c == '/' {
        Some(Op::Div)
    } else if c == '*' {
        Some(Op::Mul)
    } else {
        None
    }
}

impl Op {
    /// Read the leading operator character of `s`, handing back the
    /// remainder; tried in the order `+`, `-`, `/`, `*`, so a failure
    /// names the last one.
    pub fn new<'a>(s: &'a str) -> (r: Result<(&'a str, Op), String>)
        ensures
            ({
                let t = s@;
                &&& (t.len() > 0 && op_of_char(t[0]) matches Some(op)) ==> (r matches Ok(p) && p.0@
                    == t.subrange(1, t.len() as int) && op_of_char(t[0]) == Some(p.1))
                &&& !(t.len() > 0 && op_of_char(t[0]) is Some) ==> (r matches Err(m) && m@
                    == "Expected "@ + "*"@)
            }),
    {
        proof {
            reveal_strlit("+");
            reveal_strlit("-");
            reveal_strlit("/");
            reveal_strlit("*");
            assert("+"@ =~= seq!['+']);
            assert("-"@ =~= seq!['-']);
            assert("/"@ =~= seq!['/']);
            assert("*"@ =~= seq!['*']);
            if s@.len() > 0 {
                assert(s@.subrange(0, 1) =~= seq![s@[0]]);
            }
        }
        match tag("+", s) {
            Ok(rest) => {
                proof {
                    op_char_facts(s@, "+"@);
                }
                Ok((rest, Op::Add))
            },
            Err(_) => {
                match tag("-", s) {
                    Ok(rest) => {
                        proof {
                            op_char_facts(s@, "-"@);
                        }
                        Ok((rest, Op::Sub))
                    },
                    Err(_) => {
                        match tag("/", s) {
                            Ok(rest) => {
                                proof {
                                    op_char_facts(s@, "/"@);
                                }
                                Ok((rest, Op::Div))
                            },
                            Err(m2) => {
                                match tag("*", s) {
                                    Ok(rest) => {
                                        proof {
                                            op_char_facts(s@, "*"@);
                                        }
                                        Ok((rest, Op::Mul))
                                    },
                                    Err(m) => {
                                        proof {
                                            if s@.len() > 0 {
                                                assert(s@.subrange(0, 1) =~= seq![s@[0]]);
                                            }
                                        }
                                        Err(m)
                                    },
                                }
                            },
                        }
                    },
                }
            },
        }
    }
}


/// A one-character prefix pins the first character.
proof fn op_char_facts(s: Seq<char>, p: Seq<char>)
    requires
        crate::utils::starts_with_spec(s, p),
        p.len() == 1,
    ensures
        s.len() >= 1,
        s[0] == p[0],
{
    assert(s.subrange(0, 1) == p);
    assert(s.subrange(0, 1)[0] == s[0]);
}

} // verus!
