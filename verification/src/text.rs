//! Preparation of outbound message text: expanding the two-character escape
//! `\n` that users type in a command argument into a real line feed.

use vstd::prelude::*;

verus! {

/// The expansion of `s` from index `i` on: each backslash-n pair becomes a
/// line feed; scanning is left to right and pairs do not overlap.
pub open spec fn unescaped_from(s: Seq<u8>, i: int) -> Seq<u8>
    recommends
        0 <= i <= s.len(),
    decreases s.len() - i,
{
    if i < s.len() {
        if i + 1 < s.len() && s[i] == 92 && s[i + 1] == 110 {
            seq![10u8] + unescaped_from(s, i + 2)
        } else {
            seq![s[i]] + unescaped_from(s, i + 1)
        }
    } else {
        Seq::empty()
    }
}

/// The whole input expanded.
pub open spec fn unescaped(s: Seq<u8>) -> Seq<u8> {
    unescaped_from(s, 0)
}

/// Expand every `\n` escape in `s` into a line feed.
pub fn unescape_newlines(s: &[u8]) -> (out: Vec<u8>)
    ensures
        out@ == unescaped(s@),
{
    let n = s.len();
    let mut out: Vec<u8> = Vec::new();
    let mut i: usize = 0;
    while i < n
        invariant
            0 <= i <= s@.len(),
            n == s@.len(),
            unescaped(s@) == out@ + unescaped_from(s@, i as int),
        decreases s@.len() - i,
    {
        if i + 1 < n && s[i] == 92 && s[i + 1] == 110 {
            out.push(10);
            i = i + 2;
        } else {
            out.push(s[i]);
            i = i + 1;
        }
        proof {
            assert(unescaped(s@) =~= out@ + unescaped_from(s@, i as int));
        }
    }
    proof {
        assert(unescaped(s@) =~= out@);
    }
    out
}

} // verus!
