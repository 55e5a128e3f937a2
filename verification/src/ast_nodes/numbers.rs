//! Integer literals read off the front of a string.

use vstd::prelude::*;

use crate::parse_model::digits_val;
use crate::utils::{digit_run_end, extract_digits, lemma_digit_run_chars};

verus! {

/// A 32-bit integer literal.
#[derive(Debug, PartialEq, Eq, Structural, Clone, Copy)]
pub struct Int(pub i32);

impl Int {
    /// Read the leading digit run of `s` as an integer, handing back the
    /// remainder. The run's value must fit in 32 bits.
    pub fn new<'a>(s: &'a str) -> (r: Result<(&'a str, Int), String>)
        requires
            ({
                let e = digit_run_end(s@, 0);
                e > 0 ==> digits_val(s@.subrange(0, e)) <= i32::MAX
            }),
        ensures
            ({
                let e = digit_run_end(s@, 0);
                &&& e == 0 ==> (r matches Err(m) && m@ == "Expected digits"@)
                &&& e > 0 ==> (r matches Ok(p) && p.0@ == s@.subrange(e, s@.len() as int) && p.1
                    == Int(digits_val(s@.subrange(0, e)) as i32))
            }),
    {
        match extract_digits(s) {
            Err(m) => Err(m),
            Ok((rest, digits)) => {
                proof {
                    let e = digit_run_end(s@, 0);
                    crate::utils::lemma_digit_run_bounds(s@, 0);
                    assert forall|k: int| 0 <= k < digits@.len() implies crate::char_classes::dec_digit(
                        #[trigger] digits@[k],
                    ) by {
                        lemma_digit_run_chars(s@, 0, k);
                    }
                    assert(crate::parse_model::is_dec_digits(digits@));
                }
                match crate::parser::parse_i32(digits) {
                    Some(v) => Ok((rest, Int(v))),
                    None => {
                        proof {
                            assert(false);
                        }
                        Err(String::new())
                    },
                }
            },
        }
    }
}

} // verus!
