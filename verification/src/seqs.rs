//! Facts about picking the entries of a sequence that pass a test.

use vstd::prelude::*;

verus! {

/// Whether every entry of a sequence stands in the relation `rel` to every
/// entry behind it.
pub open spec fn pairwise<A>(s: Seq<A>, rel: spec_fn(A, A) -> bool) -> bool {
    forall|i: int, j: int| 0 <= i < j < s.len() ==> rel(#[trigger] s[i], #[trigger] s[j])
}

/// Picking from one more entry either adds that entry at the end or changes
/// nothing.
pub proof fn lemma_filter_step<A>(s: Seq<A>, p: spec_fn(A) -> bool, i: int)
    requires
        0 <= i < s.len(),
    ensures
        s.take(i + 1).filter(p) == if p(s[i]) {
            s.take(i).filter(p).push(s[i])
        } else {
            s.take(i).filter(p)
        },
{
    reveal(Seq::filter);
    assert(s.take(i + 1).drop_last() =~= s.take(i));
}

/// Nothing is picked from the empty prefix of a sequence.
pub proof fn lemma_filter_none<A>(s: Seq<A>, p: spec_fn(A) -> bool)
    ensures
        s.take(0).filter(p) == Seq::<A>::empty(),
{
    reveal(Seq::filter);
    assert(s.take(0) =~= Seq::<A>::empty());
}

/// An entry is picked exactly when it is in the sequence and passes the
/// test.
pub proof fn lemma_filter_holds<A>(s: Seq<A>, p: spec_fn(A) -> bool)
    ensures
        forall|x: A| #[trigger] s.filter(p).contains(x) <==> s.contains(x) && p(x),
    decreases s.len(),
{
    reveal(Seq::filter);
    if s.len() > 0 {
        let rest = s.drop_last();
        lemma_filter_holds(rest, p);
        let picked = s.filter(p);
        let sub = rest.filter(p);
        assert forall|x: A| #[trigger] picked.contains(x) <==> s.contains(x) && p(x) by {
            if picked.contains(x) {
                let k = choose|k: int| 0 <= k < picked.len() && picked[k] == x;
                if p(s.last()) && k == picked.len() - 1 {
                    assert(s[s.len() - 1] == x);
                } else {
                    assert(sub[k] == x);
                    assert(sub.contains(x));
                    let m = choose|m: int| 0 <= m < rest.len() && rest[m] == x;
                    assert(s[m] == x);
                }
            }
            if s.contains(x) && p(x) {
                let m = choose|m: int| 0 <= m < s.len() && s[m] == x;
                if m == s.len() - 1 {
                    assert(picked[picked.len() - 1] == x);
                } else {
                    assert(rest[m] == x);
                    assert(rest.contains(x));
                    assert(sub.contains(x));
                    let k = choose|k: int| 0 <= k < sub.len() && sub[k] == x;
                    assert(picked[k] == x);
                }
            }
        }
    }
}

/// Picking keeps the entries in their order: a relation that holds from
/// each entry to those behind it still does among the entries picked.
pub proof fn lemma_filter_pairwise<A>(s: Seq<A>, p: spec_fn(A) -> bool, rel: spec_fn(A, A) -> bool)
    requires
        pairwise(s, rel),
    ensures
        pairwise(s.filter(p), rel),
    decreases s.len(),
{
    reveal(Seq::filter);
    if s.len() > 0 {
        let rest = s.drop_last();
        let sub = rest.filter(p);
        let picked = s.filter(p);
        assert(pairwise(rest, rel)) by {
            assert forall|i: int, j: int| 0 <= i < j < rest.len() implies rel(
                #[trigger] rest[i],
                #[trigger] rest[j],
            ) by {
                assert(rest[i] == s[i] && rest[j] == s[j]);
            }
        }
        lemma_filter_pairwise(rest, p, rel);
        lemma_filter_holds(rest, p);
        assert forall|i: int, j: int| 0 <= i < j < picked.len() implies rel(
            #[trigger] picked[i],
            #[trigger] picked[j],
        ) by {
            if j < sub.len() {
                assert(picked[i] == sub[i] && picked[j] == sub[j]);
            } else {
                assert(picked[j] == s.last());
                assert(picked[i] == sub[i]);
                assert(sub.contains(sub[i]));
                assert(rest.contains(sub[i]));
                let m = choose|m: int| 0 <= m < rest.len() && rest[m] == sub[i];
                assert(s[m] == sub[i]);
                assert(s[s.len() - 1] == s.last());
            }
        }
    }
}

/// Nothing is picked from a sequence none of whose entries passes the
/// test.
pub proof fn lemma_filter_nothing<A>(s: Seq<A>, p: spec_fn(A) -> bool)
    requires
        forall|i: int| 0 <= i < s.len() ==> !p(#[trigger] s[i]),
    ensures
        s.filter(p) == Seq::<A>::empty(),
    decreases s.len(),
{
    reveal(Seq::filter);
    if s.len() > 0 {
        let rest = s.drop_last();
        assert forall|i: int| 0 <= i < rest.len() implies !p(#[trigger] rest[i]) by {
            assert(rest[i] == s[i]);
        }
        lemma_filter_nothing(rest, p);
        assert(!p(s[s.len() - 1]));
    }
}

/// Everything is picked from a sequence all of whose entries pass the test.
pub proof fn lemma_filter_everything<A>(s: Seq<A>, p: spec_fn(A) -> bool)
    requires
        forall|i: int| 0 <= i < s.len() ==> p(#[trigger] s[i]),
    ensures
        s.filter(p) == s,
    decreases s.len(),
{
    reveal(Seq::filter);
    if s.len() > 0 {
        let rest = s.drop_last();
        assert forall|i: int| 0 <= i < rest.len() implies p(#[trigger] rest[i]) by {
            assert(rest[i] == s[i]);
        }
        lemma_filter_everything(rest, p);
        assert(p(s[s.len() - 1]));
        assert(rest.push(s.last()) =~= s);
    }
}

} // verus!
