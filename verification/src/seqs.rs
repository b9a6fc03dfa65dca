use vstd::prelude::*;

verus! {

/// Where each kept element of `s.filter(p)` stands in `s`: strictly increasing
/// indices.
pub proof fn lemma_filter_origin<A>(s: Seq<A>, p: spec_fn(A) -> bool) -> (idx: Seq<int>)
    ensures
        idx.len() == s.filter(p).len(),
        forall|a: int|
            0 <= a < idx.len() ==> 0 <= #[trigger] idx[a] < s.len() && s.filter(p)[a] == s[idx[a]]
                && p(s[idx[a]]),
        forall|a: int, b: int| 0 <= a < b < idx.len() ==> #[trigger] idx[a] < #[trigger] idx[b],
    decreases s.len(),
{
    reveal(Seq::filter);
    if s.len() == 0 {
        Seq::empty()
    } else {
        let sub = lemma_filter_origin(s.drop_last(), p);
        if p(s.last()) {
            let r = sub.push(s.len() - 1);
            assert(s.filter(p) == s.drop_last().filter(p).push(s.last()));
            r
        } else {
            sub
        }
    }
}

/// Every element of `s` that `p` keeps is in `s.filter(p)`.
pub proof fn lemma_filter_keeps<A>(s: Seq<A>, p: spec_fn(A) -> bool, i: int)
    requires
        0 <= i < s.len(),
        p(s[i]),
    ensures
        s.filter(p).contains(s[i]),
{
    broadcast use vstd::seq_lib::group_filter_ensures;
}

} // verus!
