//! General facts about sequences used by several modules.
use vstd::prelude::*;

verus! {

/// The element at `i` that the predicate keeps lands in the filtered
/// sequence at the number of kept elements before it.
pub proof fn lemma_filter_prefix_index<A>(s: Seq<A>, pred: spec_fn(A) -> bool, i: int)
    requires
        0 <= i < s.len(),
        pred(s[i]),
    ensures
        s.take(i).filter(pred).len() < s.filter(pred).len(),
        s.filter(pred)[s.take(i).filter(pred).len() as int] == s[i],
{
    let a = s.take(i + 1);
    let b = s.skip(i + 1);
    assert(s =~= a + b);
    Seq::filter_distributes_over_add(a, b, pred);
    assert(a =~= s.take(i).push(s[i]));
    s.take(i).lemma_filter_push(s[i], pred);
}

/// Filtering keeps a sequence whose elements all pass.
pub proof fn lemma_filter_all<A>(s: Seq<A>, pred: spec_fn(A) -> bool)
    requires
        forall|i: int| 0 <= i < s.len() ==> pred(#[trigger] s[i]),
    ensures
        s.filter(pred) == s,
    decreases s.len(),
{
    if s.len() > 0 {
        let init = s.drop_last();
        assert forall|i: int| 0 <= i < init.len() implies pred(#[trigger] init[i]) by {
            assert(init[i] == s[i]);
        }
        lemma_filter_all(init, pred);
        assert(pred(s[s.len() - 1]));
        assert(s.last() == s[s.len() - 1]);
        assert(init.push(s.last()) =~= s);
        init.lemma_filter_push(s.last(), pred);
    }
}

} // verus!
