//! Facts about membership in sequences that grow by one element.

use vstd::prelude::*;

verus! {

/// A sequence with one more element at its end holds that element and what
/// it held before.
pub(crate) proof fn lemma_push_contains<T>(s: Seq<T>, v: T, x: T)
    ensures
        s.push(v).contains(x) <==> s.contains(x) || x == v,
{
    let t = s.push(v);
    if s.contains(x) {
        let i = choose|i: int| 0 <= i < s.len() && s[i] == x;
        assert(t[i] == x);
    }
    if x == v {
        assert(t[s.len() as int] == x);
    }
}

/// The first `i + 1` elements are the first `i` and the element at `i`.
pub(crate) proof fn lemma_take_next<T>(s: Seq<T>, i: int)
    requires
        0 <= i < s.len(),
    ensures
        s.take(i + 1) == s.take(i).push(s[i]),
        s.take(i + 1).drop_last() == s.take(i),
{
}

/// A sequence with one more element somewhere holds that element and what
/// it held before.
pub(crate) proof fn lemma_insert_contains<T>(s: Seq<T>, p: int, v: T, x: T)
    requires
        0 <= p <= s.len(),
    ensures
        s.insert(p, v).contains(x) <==> s.contains(x) || x == v,
{
    let t = s.insert(p, v);
    if s.contains(x) {
        let i = choose|i: int| 0 <= i < s.len() && s[i] == x;
        if i < p {
            assert(t[i] == x);
        } else {
            assert(t[i + 1] == x);
        }
    }
    if x == v {
        assert(t[p] == x);
    }
}

} // verus!
