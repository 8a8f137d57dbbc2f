//! Comparing a text with a keyword.
use vstd::prelude::*;

verus! {

/// Whether `s` and `keyword` hold the same characters.
pub fn same_text(s: &str, keyword: &str) -> (r: bool)
    ensures
        r == (s@ == keyword@),
{
    let n = s.unicode_len();
    if n != keyword.unicode_len() {
        return false;
    }
    let mut i: usize = 0;
    while i < n
        invariant
            n == s@.len(),
            n == keyword@.len(),
            i <= n,
            forall|j: int| 0 <= j < i ==> s@[j] == keyword@[j],
        decreases n - i,
    {
        if s.get_char(i) != keyword.get_char(i) {
            return false;
        }
        i = i + 1;
    }
    assert(s@ =~= keyword@);
    true
}

} // verus!
