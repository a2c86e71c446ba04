//! Trusted bridges between strings and character vectors. The library's
//! logic works on characters; these wrappers only change the carrier type,
//! one character for one character.

use vstd::prelude::*;

verus! {

/// Relies on `str::chars`: the characters of the string, in order.
#[verifier::external_body]
pub fn chars_of(s: &str) -> (r: Vec<char>)
    ensures
        r@ == s@,
{
    s.chars().collect()
}

/// Relies on `FromIterator` for `String`: the string holding exactly the
/// given characters, in order.
#[verifier::external_body]
pub fn string_of(cs: &Vec<char>) -> (r: String)
    ensures
        r@ == cs@,
{
    cs.iter().collect()
}

/// The text holding one string followed by another.
pub fn concat_strings(a: &String, b: &String) -> (r: String)
    ensures
        r@ == a@ + b@,
{
    let mut out = chars_of(a.as_str());
    let cb = chars_of(b.as_str());
    proof {
        assert(out@ =~= a@ + cb@.subrange(0, 0));
    }
    let mut i: usize = 0;
    while i < cb.len()
        invariant
            i <= cb@.len(),
            cb@ == b@,
            out@ == a@ + cb@.subrange(0, i as int),
        decreases cb@.len() - i,
    {
        out.push(cb[i]);
        proof {
            assert(out@ =~= a@ + cb@.subrange(0, i as int + 1));
        }
        i = i + 1;
    }
    proof {
        assert(out@ =~= a@ + b@);
    }
    string_of(&out)
}

} // verus!
