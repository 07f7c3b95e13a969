//! Searching text.
use vstd::prelude::*;

verus! {

/// Whether `needle` occurs in `hay`.
pub open spec fn contains_text(hay: Seq<char>, needle: Seq<char>) -> bool {
    exists|i: int| 0 <= i && i + needle.len() <= hay.len() && #[trigger] hay.subrange(i, i + needle.len()) == needle
}

/// Whether `needle` occurs in `hay`.
pub fn text_contains(hay: &str, needle: &str) -> (r: bool)
    ensures
        r == contains_text(hay@, needle@),
{
    let n = hay.unicode_len();
    let m = needle.unicode_len();
    if m > n {
        return false;
    }
    if m == 0 {
        assert(hay@.subrange(0, 0 + needle@.len() as int) =~= needle@);
        return true;
    }
    let wanted = needle.to_owned();
    let mut i: usize = 0;
    while i <= n - m
        invariant
            n == hay@.len(),
            m == needle@.len(),
            1 <= m <= n,
            wanted@ == needle@,
            i <= n - m + 1,
            forall|k: int| 0 <= k < i ==> #[trigger] hay@.subrange(k, k + m) != needle@,
        decreases n - m + 1 - i,
    {
        let part = hay.substring_char(i, i + m).to_owned();
        if part == wanted {
            return true;
        }
        i = i + 1;
    }
    false
}

} // verus!
