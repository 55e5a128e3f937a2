//! Small text-splitting utilities for the character-level parsers:
//! strip a fixed prefix, or split off a leading run of a character class.

use vstd::prelude::*;
use vstd::string::StrSliceExecFns;
use vstd::string::StringExecFns;

use crate::char_classes::{dec_digit, is_digit_char};

verus! {

/// Whether `p` is a prefix of `s`.
pub open spec fn starts_with_spec(s: Seq<char>, p: Seq<char>) -> bool {
    p.len() <= s.len() && s.subrange(0, p.len() as int) == p
}

/// The end of the run of decimal digits starting at `i`.
pub open spec fn digit_run_end(s: Seq<char>, i: int) -> int
    decreases s.len() - i,
    when 0 <= i <= s.len()
{
    if i >= s.len() {
        i
    } else if dec_digit(s[i]) {
        digit_run_end(s, i + 1)
    } else {
        i
    }
}

pub proof fn lemma_digit_run_bounds(s: Seq<char>, i: int)
    requires
        0 <= i <= s.len(),
    ensures
        i <= digit_run_end(s, i) <= s.len(),
    decreases s.len() - i,
{
    if i < s.len() && dec_digit(s[i]) {
        lemma_digit_run_bounds(s, i + 1);
    }
}

/// Everything inside the run is a digit.
pub proof fn lemma_digit_run_chars(s: Seq<char>, i: int, k: int)
    requires
        0 <= i <= k < digit_run_end(s, i),
        i <= s.len(),
    ensures
        dec_digit(s[k]),
    decreases s.len() - i,
{
    lemma_digit_run_bounds(s, i);
    if i < s.len() && dec_digit(s[i]) && k > i {
        lemma_digit_run_chars(s, i + 1, k);
    }
}

/// Strip the exact prefix `prefix` from `s`, or fail naming it.
pub fn tag<'a>(prefix: &str, s: &'a str) -> (r: Result<&'a str, String>)
    ensures
        starts_with_spec(s@, prefix@) ==> (r matches Ok(rest) && rest@ == s@.subrange(
            prefix@.len() as int,
            s@.len() as int,
        )),
        !starts_with_spec(s@, prefix@) ==> (r matches Err(m) && m@ == "Expected "@ + prefix@),
    decreases s@.len(),
{
    let plen = prefix.unicode_len();
    let slen = s.unicode_len();
    if plen <= slen {
        let mut k: usize = 0;
        while k < plen
            invariant
                k <= plen,
                plen == prefix@.len(),
                slen == s@.len(),
                plen <= slen,
                forall|m: int| 0 <= m < k ==> s@[m] == prefix@[m],
            decreases plen - k,
        {
            if s.get_char(k) != prefix.get_char(k) {
                proof {
                    assert(s@.subrange(0, plen as int)[k as int] != prefix@[k as int]);
                }
                let mut m = "Expected ".to_owned();
                m.append(prefix);
                proof {
                    assert(m@ =~= "Expected "@ + prefix@);
                }
                return Err(m);
            }
            k = k + 1;
        }
        proof {
            assert(s@.subrange(0, plen as int) =~= prefix@);
        }
        Ok(s.substring_char(plen, slen))
    } else {
        let mut m = "Expected ".to_owned();
        m.append(prefix);
        proof {
            assert(m@ =~= "Expected "@ + prefix@);
        }
        Err(m)
    }
}

/// Split off the leading run of decimal digits, or fail if there is
/// none. The remainder comes first, the digits second.
pub fn extract_digits<'a>(s: &'a str) -> (r: Result<(&'a str, &'a str), String>)
    ensures
        ({
            let e = digit_run_end(s@, 0);
            &&& e == 0 ==> (r matches Err(m) && m@ == "Expected digits"@)
            &&& e > 0 ==> (r matches Ok(p) && p.0@ == s@.subrange(e, s@.len() as int) && p.1@
                == s@.subrange(0, e))
        }),
{
    let n = s.unicode_len();
    let mut k: usize = 0;
    while k < n && is_digit_char(s.get_char(k))
        invariant
            k <= n,
            n == s@.len(),
            digit_run_end(s@, 0) == digit_run_end(s@, k as int),
        decreases n - k,
    {
        k = k + 1;
    }
    proof {
        lemma_digit_run_bounds(s@, 0);
    }
    if k == 0 {
        Err("Expected digits".to_owned())
    } else {
        Ok((s.substring_char(k, n), s.substring_char(0, k)))
    }
}

} // verus!
