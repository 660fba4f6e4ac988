//! First-match search over sequences, with the facts every search loop needs.

use vstd::prelude::*;

verus! {

/// The first index whose element satisfies `p`.
pub open spec fn first_index<T>(s: Seq<T>, p: spec_fn(T) -> bool) -> Option<int>
    decreases s.len(),
{
    if s.len() == 0 {
        None
    } else {
        match first_index(s.drop_last(), p) {
            Some(i) => Some(i),
            None => if p(s.last()) {
                Some(s.len() - 1)
            } else {
                None
            },
        }
    }
}

/// What `first_index` promises: the index is in range and satisfies `p`, nothing
/// before it does, and when there is none, nothing does.
pub proof fn lemma_first_index_facts<T>(s: Seq<T>, p: spec_fn(T) -> bool)
    ensures
        first_index(s, p) matches Some(i) ==> 0 <= i < s.len() && p(s[i]) && forall|j: int|
            0 <= j < i ==> !p(#[trigger] s[j]),
        first_index(s, p) is None ==> forall|j: int| 0 <= j < s.len() ==> !p(#[trigger] s[j]),
    decreases s.len(),
{
    if s.len() > 0 {
        lemma_first_index_facts(s.drop_last(), p);
        assert forall|j: int| 0 <= j < s.len() - 1 implies #[trigger] s[j] == s.drop_last()[j] by {}
    }
}

/// Searching one more element of a prefix.
pub proof fn lemma_first_index_step<T>(s: Seq<T>, p: spec_fn(T) -> bool, i: int)
    requires
        0 <= i < s.len(),
        first_index(s.subrange(0, i), p) is None,
    ensures
        first_index(s.subrange(0, i + 1), p) == if p(s[i]) {
            Some(i)
        } else {
            None::<int>
        },
{
    assert(s.subrange(0, i + 1).drop_last() =~= s.subrange(0, i));
}

/// A match found in a prefix is the match of the whole sequence.
pub proof fn lemma_first_index_prefix<T>(s: Seq<T>, p: spec_fn(T) -> bool, n: int)
    requires
        0 <= n <= s.len(),
        first_index(s.subrange(0, n), p) is Some,
    ensures
        first_index(s, p) == first_index(s.subrange(0, n), p),
    decreases s.len() - n,
{
    if n < s.len() {
        let next = s.subrange(0, n + 1);
        assert(next.drop_last() =~= s.subrange(0, n));
        lemma_first_index_prefix(s, p, n + 1);
    } else {
        assert(s.subrange(0, n) =~= s);
    }
}

/// No match in the whole sequence once the search has passed its end.
pub proof fn lemma_first_index_whole<T>(s: Seq<T>, p: spec_fn(T) -> bool)
    ensures
        first_index(s.subrange(0, s.len() as int), p) == first_index(s, p),
{
    assert(s.subrange(0, s.len() as int) =~= s);
}

/// The elements that satisfy `p`, in order.
pub open spec fn keep<T>(s: Seq<T>, p: spec_fn(T) -> bool) -> Seq<T>
    decreases s.len(),
{
    if s.len() == 0 {
        Seq::empty()
    } else if p(s.last()) {
        keep(s.drop_last(), p).push(s.last())
    } else {
        keep(s.drop_last(), p)
    }
}

/// Keeping one more element of a prefix.
pub proof fn lemma_keep_step<T>(s: Seq<T>, p: spec_fn(T) -> bool, i: int)
    requires
        0 <= i < s.len(),
    ensures
        keep(s.subrange(0, i + 1), p) == if p(s[i]) {
            keep(s.subrange(0, i), p).push(s[i])
        } else {
            keep(s.subrange(0, i), p)
        },
{
    assert(s.subrange(0, i + 1).drop_last() =~= s.subrange(0, i));
}

/// Everything kept satisfies `p`, and comes from the sequence.
pub proof fn lemma_keep_facts<T>(s: Seq<T>, p: spec_fn(T) -> bool)
    ensures
        forall|j: int| 0 <= j < keep(s, p).len() ==> p(#[trigger] keep(s, p)[j]),
        forall|j: int| 0 <= j < keep(s, p).len() ==> s.contains(#[trigger] keep(s, p)[j]),
        keep(s, p).len() <= s.len(),
    decreases s.len(),
{
    if s.len() > 0 {
        lemma_keep_facts(s.drop_last(), p);
        let k = keep(s.drop_last(), p);
        assert forall|j: int| 0 <= j < keep(s, p).len() implies s.contains(
            #[trigger] keep(s, p)[j],
        ) by {
            if j < k.len() {
                let x = k[j];
                assert(s.drop_last().contains(x));
                let w = choose|w: int| 0 <= w < s.drop_last().len() && s.drop_last()[w] == x;
                assert(s[w] == x);
            } else {
                assert(s[s.len() - 1] == s.last());
            }
        }
    }
}

} // verus!
