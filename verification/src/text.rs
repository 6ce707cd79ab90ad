//! Conversions between owned strings and their character vectors.
use vstd::prelude::*;

verus! {

/// Relies on String's FromIterator over chars: the collected string holds
/// exactly the given characters in order.
#[verifier::external_body]
pub(crate) fn chars_to_string(v: Vec<char>) -> (s: String)
    ensures
        s@ == v@,
{
    v.into_iter().collect()
}

/// Relies on str::chars: it yields exactly the string's characters in
/// order.  A string slice occupies at most `isize::MAX` bytes and has at
/// most that many characters, which bounds the result's length.
#[verifier::external_body]
pub(crate) fn str_to_chars(s: &str) -> (r: Vec<char>)
    ensures
        r@ == s@,
        r@.len() <= usize::MAX / 2,
{
    s.chars().collect()
}

/// Copy `code[a..b]` into a fresh vector.
pub(crate) fn subrange_chars(code: &Vec<char>, a: usize, b: usize) -> (r: Vec<char>)
    requires
        a <= b <= code.len(),
    ensures
        r@ == code@.subrange(a as int, b as int),
{
    let mut r: Vec<char> = Vec::new();
    let mut i: usize = a;
    proof {
        assert(r@ =~= code@.subrange(a as int, a as int));
    }
    while i < b
        invariant
            a <= i <= b <= code.len(),
            r@ == code@.subrange(a as int, i as int),
        decreases b - i,
    {
        r.push(code[i]);
        proof {
            assert(r@ =~= code@.subrange(a as int, i + 1));
        }
        i += 1;
    }
    r
}

} // verus!
