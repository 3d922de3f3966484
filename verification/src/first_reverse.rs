//! Single-pass string reversal.

use vstd::prelude::*;

use crate::text::push_char;

verus! {

/// Reverse a string: the result holds the same characters in the opposite
/// order.
pub fn first_reverse(s: &str) -> (r: String)
    ensures
        r@.len() == s@.len(),
        forall|i: int| 0 <= i < s@.len() ==> r@[i] == s@[s@.len() - 1 - i],
{
    let n = s.unicode_len();
    let mut out = String::new();
    let mut i: usize = 0;
    while i < n
        invariant
            n == s@.len(),
            i <= n,
            out@.len() == i,
            forall|k: int| 0 <= k < i ==> out@[k] == s@[n - 1 - k],
        decreases n - i,
    {
        let c = s.get_char(n - 1 - i);
        push_char(&mut out, c);
        i = i + 1;
    }
    out
}

} // verus!
