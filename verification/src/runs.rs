use vstd::prelude::*;

verus! {

/// The number of characters at the front of `s` that all satisfy `p`: the
/// length of the longest prefix of `s` drawn from the class `p`.
pub open spec fn leading(s: Seq<char>, p: spec_fn(char) -> bool) -> nat
    decreases s.len(),
{
    if s.len() > 0 && p(s[0]) {
        1 + leading(s.skip(1), p)
    } else {
        0
    }
}

/// `leading(s, p)` is a prefix length, every character of that prefix is in
/// the class, and the prefix cannot be extended.
pub proof fn lemma_leading_is_maximal_prefix(s: Seq<char>, p: spec_fn(char) -> bool)
    ensures
        leading(s, p) <= s.len(),
        forall|i: int| 0 <= i < leading(s, p) ==> p(#[trigger] s[i]),
        leading(s, p) == s.len() || !p(s[leading(s, p) as int]),
    decreases s.len(),
{
    if s.len() > 0 && p(s[0]) {
        let t = s.skip(1);
        lemma_leading_is_maximal_prefix(t, p);
        assert forall|i: int| 0 <= i < leading(s, p) implies p(#[trigger] s[i]) by {
            if i > 0 {
                assert(s[i] == t[i - 1]);
            }
        }
        if leading(s, p) != s.len() {
            assert(t[leading(t, p) as int] == s[leading(s, p) as int]);
        }
    }
}

/// A prefix length whose characters are all in the class and which cannot be
/// extended is `leading(s, p)`.
pub proof fn lemma_leading_unique(s: Seq<char>, p: spec_fn(char) -> bool, n: nat)
    requires
        n <= s.len(),
        forall|i: int| 0 <= i < n ==> p(#[trigger] s[i]),
        n == s.len() || !p(s[n as int]),
    ensures
        leading(s, p) == n,
    decreases n,
{
    if n > 0 {
        let t = s.skip(1);
        assert(p(s[0]));
        assert forall|i: int| 0 <= i < n - 1 implies p(#[trigger] t[i]) by {
            assert(t[i] == s[i + 1]);
        }
        if n != s.len() {
            assert(t[n - 1] == s[n as int]);
        }
        lemma_leading_unique(t, p, (n - 1) as nat);
    }
}

} // verus!
