//! Small sequence lemmas shared by the library's proofs.

use vstd::prelude::*;

verus! {

/// How `filter` grows when one element is appended.
pub proof fn lemma_filter_push<A>(s: Seq<A>, pred: spec_fn(A) -> bool, x: A)
    ensures
        (s.push(x)).filter(pred) == if pred(x) {
            s.filter(pred).push(x)
        } else {
            s.filter(pred)
        },
{
    reveal(Seq::filter);
    assert(s.push(x).drop_last() =~= s);
}

/// Every element of a filtered sequence satisfies the predicate and comes
/// from the original sequence.
pub proof fn lemma_filter_members<A>(s: Seq<A>, pred: spec_fn(A) -> bool)
    ensures
        forall|i: int|
            0 <= i < s.filter(pred).len() ==> pred(#[trigger] s.filter(pred)[i]) && s.contains(
                s.filter(pred)[i],
            ),
    decreases s.len(),
{
    reveal(Seq::filter);
    if s.len() > 0 {
        lemma_filter_members(s.drop_last(), pred);
        let f = s.filter(pred);
        let df = s.drop_last().filter(pred);
        assert forall|i: int| 0 <= i < f.len() implies pred(f[i]) && s.contains(f[i]) by {
            if pred(s.last()) {
                assert(f == df.push(s.last()));
            } else {
                assert(f == df);
            }
            if i < df.len() {
                assert(pred(df[i]) && s.drop_last().contains(df[i]));
                let j = choose|j: int| 0 <= j < s.drop_last().len() && s.drop_last()[j] == df[i];
                assert(s[j] == df[i]);
            } else {
                assert(f[i] == s.last());
                assert(s[s.len() - 1] == s.last());
            }
        }
    }
}

/// Filtering keeps a duplicate-free sequence duplicate-free.
pub proof fn lemma_filter_no_duplicates<A>(s: Seq<A>, pred: spec_fn(A) -> bool)
    requires
        s.no_duplicates(),
    ensures
        s.filter(pred).no_duplicates(),
    decreases s.len(),
{
    reveal(Seq::filter);
    if s.len() > 0 {
        lemma_filter_no_duplicates(s.drop_last(), pred);
        lemma_filter_members(s.drop_last(), pred);
        let df = s.drop_last().filter(pred);
        if pred(s.last()) {
            assert forall|i: int| 0 <= i < df.len() implies df[i] != s.last() by {
                assert(s.drop_last().contains(df[i]));
                let j = choose|j: int|
                    0 <= j < s.drop_last().len() && s.drop_last()[j] == df[i];
                assert(s[j] == df[i]);
            }
            assert(df.push(s.last()).no_duplicates());
        }
    }
}

} // verus!
