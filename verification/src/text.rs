//! Helpers on text: comparison of string slices by their characters, and
//! the test for an identifier.

use vstd::prelude::*;
use vstd::std_specs::iter::IteratorSpec;

verus! {

/// Whether two string slices hold the same characters.
pub fn str_eq(a: &str, b: &str) -> (r: bool)
    ensures
        r == (a@ == b@),
{
    let mut left = a.chars();
    let mut right = b.chars();
    let ghost mut n: int = 0;
    loop
        invariant
            0 <= n <= a@.len(),
            n <= b@.len(),
            left.obeys_prophetic_iter_laws(),
            right.obeys_prophetic_iter_laws(),
            left.remaining() == a@.skip(n),
            right.remaining() == b@.skip(n),
            a@.take(n) == b@.take(n),
        decreases a@.len() - n,
    {
        match (left.next(), right.next()) {
            (None, None) => {
                assert(a@ == a@.take(n));
                assert(b@ == b@.take(n));
                return true;
            },
            (Some(x), Some(y)) => {
                if x != y {
                    assert(a@[n] != b@[n]);
                    return false;
                }
                proof {
                    assert(a@.take(n + 1) == a@.take(n).push(a@[n]));
                    assert(b@.take(n + 1) == b@.take(n).push(b@[n]));
                    assert(a@.skip(n).drop_first() == a@.skip(n + 1));
                    assert(b@.skip(n).drop_first() == b@.skip(n + 1));
                    n = n + 1;
                }
            },
            _ => {
                assert(a@.len() != b@.len());
                return false;
            },
        }
    }
}

/// What `char::is_alphanumeric` of the standard library answers for a
/// character: whether Unicode counts it as alphabetic or as numeric. Nothing
/// is stated about which characters those are.
pub uninterp spec fn is_alphanumeric(c: char) -> bool;

/// An identifier: text whose first character is alphanumeric.
pub open spec fn is_ident(s: Seq<char>) -> bool {
    s.len() > 0 && is_alphanumeric(s[0])
}

/// Calls `char::is_alphanumeric`. Trusted: the result is what the standard
/// library answers for `c`, which `is_alphanumeric` names; the answer depends
/// on the character alone.
#[verifier::external_body]
fn char_is_alphanumeric(c: char) -> (r: bool)
    ensures
        r == is_alphanumeric(c),
{
    c.is_alphanumeric()
}

/// Whether `s` is an identifier.
pub fn starts_alphanumeric(s: &str) -> (r: bool)
    ensures
        r == is_ident(s@),
{
    let mut chars = s.chars();
    match chars.next() {
        Some(c) => char_is_alphanumeric(c),
        None => false,
    }
}

} // verus!
