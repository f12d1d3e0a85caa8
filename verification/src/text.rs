//! Small string helpers shared by the other modules.

use vstd::prelude::*;
use vstd::std_specs::iter::IteratorSpec;

verus! {

/// Whether two strings hold the same characters.
pub fn str_eq(a: &str, b: &str) -> (same: bool)
    ensures
        same == (a@ == b@),
{
    let mut left = a.chars();
    let mut right = b.chars();
    let ghost mut n: int = 0;
    loop
        invariant
            0 <= n <= a@.len(),
            n <= b@.len(),
            left.remaining() == a@.skip(n),
            right.remaining() == b@.skip(n),
            a@.take(n) == b@.take(n),
            left.obeys_prophetic_iter_laws(),
            right.obeys_prophetic_iter_laws(),
        decreases a@.len() - n,
    {
        match (left.next(), right.next()) {
            (Some(x), Some(y)) => {
                if x != y {
                    assert(a@[n] != b@[n]);
                    return false;
                }
                proof {
                    assert(a@.take(n + 1) =~= a@.take(n).push(a@[n]));
                    assert(b@.take(n + 1) =~= b@.take(n).push(b@[n]));
                    n = n + 1;
                }
            },
            (None, None) => {
                assert(a@ =~= a@.take(n));
                assert(b@ =~= b@.take(n));
                return true;
            },
            _ => {
                return false;
            },
        }
    }
}

/// The characters of a string, in order.
pub fn chars_of(s: &str) -> (chars: Vec<char>)
    ensures
        chars@ == s@,
{
    let mut chars: Vec<char> = Vec::new();
    let mut rest = s.chars();
    loop
        invariant
            chars@ + rest.remaining() == s@,
            rest.obeys_prophetic_iter_laws(),
        decreases s@.len() - chars@.len(),
    {
        match rest.next() {
            Some(c) => {
                proof {
                    let before = chars@;
                    assert(before.push(c) + rest.remaining() =~= s@);
                }
                chars.push(c);
            },
            None => {
                assert(chars@ =~= s@);
                return chars;
            },
        }
    }
}

} // verus!
