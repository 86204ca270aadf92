//! The column merger: the ordered, deduplicated union of column names.

use vstd::prelude::*;
use crate::chars::views_of;

verus! {

/// `acc` extended by those names of `xs` that are not yet present, in
/// order, each only once.
pub open spec fn merge_seq(acc: Seq<Seq<char>>, xs: Seq<Seq<char>>) -> Seq<Seq<char>>
    decreases xs.len(),
{
    if xs.len() == 0 {
        acc
    } else {
        let prev = merge_seq(acc, xs.drop_last());
        if prev.contains(xs.last()) {
            prev
        } else {
            prev.push(xs.last())
        }
    }
}

/// The first-seen-order deduplication of a sequence of names.
pub open spec fn dedup_first(xs: Seq<Seq<char>>) -> Seq<Seq<char>> {
    merge_seq(Seq::empty(), xs)
}

/// No name occurs twice.
pub open spec fn distinct(s: Seq<Seq<char>>) -> bool {
    forall|i: int, j: int| 0 <= i < j < s.len() ==> s[i] != s[j]
}

/// Merging keeps distinctness.
pub proof fn lemma_merge_distinct(acc: Seq<Seq<char>>, xs: Seq<Seq<char>>)
    requires
        distinct(acc),
    ensures
        distinct(merge_seq(acc, xs)),
    decreases xs.len(),
{
    if xs.len() > 0 {
        lemma_merge_distinct(acc, xs.drop_last());
        let prev = merge_seq(acc, xs.drop_last());
        let e = xs.last();
        if !prev.contains(e) {
            assert forall|i: int, j: int| 0 <= i < j < prev.push(e).len() implies prev.push(e)[i]
                != prev.push(e)[j] by {
                if j == prev.len() {
                    if prev[i] == e {
                        assert(prev.contains(e));
                    }
                }
            }
        }
    }
}

/// A name stands in the merge exactly when it stands in one of the parts.
pub proof fn lemma_merge_contains(acc: Seq<Seq<char>>, xs: Seq<Seq<char>>)
    ensures
        forall|c: Seq<char>|
            merge_seq(acc, xs).contains(c) <==> acc.contains(c) || xs.contains(c),
    decreases xs.len(),
{
    if xs.len() == 0 {
        assert forall|c: Seq<char>| xs.contains(c) implies false by {
        }
    } else {
        lemma_merge_contains(acc, xs.drop_last());
        let prev = merge_seq(acc, xs.drop_last());
        let e = xs.last();
        assert forall|c: Seq<char>|
            merge_seq(acc, xs).contains(c) <==> acc.contains(c) || xs.contains(c) by {
            if merge_seq(acc, xs).contains(c) {
                let k = choose|k: int|
                    0 <= k < merge_seq(acc, xs).len() && merge_seq(acc, xs)[k] == c;
                if k < prev.len() {
                    assert(prev.contains(c));
                } else {
                    assert(c == e);
                }
                if c == e {
                    assert(xs[xs.len() - 1] == c);
                } else {
                    if xs.drop_last().contains(c) {
                        let m = choose|m: int|
                            0 <= m < xs.drop_last().len() && xs.drop_last()[m] == c;
                        assert(xs[m] == c);
                    }
                }
            }
            if acc.contains(c) {
                assert(prev.contains(c));
                assert(merge_seq(acc, xs).contains(c)) by {
                    let k = choose|k: int| 0 <= k < prev.len() && prev[k] == c;
                    if prev.contains(e) {
                        assert(merge_seq(acc, xs)[k] == c);
                    } else {
                        assert(prev.push(e)[k] == c);
                    }
                }
            }
            if xs.contains(c) {
                let k = choose|k: int| 0 <= k < xs.len() && xs[k] == c;
                if k == xs.len() - 1 {
                    if prev.contains(e) {
                        let m = choose|m: int| 0 <= m < prev.len() && prev[m] == c;
                        assert(merge_seq(acc, xs)[m] == c);
                    } else {
                        assert(prev.push(e)[prev.len() as int] == c);
                    }
                } else {
                    assert(xs.drop_last()[k] == c);
                    assert(prev.contains(c));
                    let m = choose|m: int| 0 <= m < prev.len() && prev[m] == c;
                    if prev.contains(e) {
                        assert(merge_seq(acc, xs)[m] == c);
                    } else {
                        assert(prev.push(e)[m] == c);
                    }
                }
            }
        }
    }
}

/// The column set grows monotonically: what stands in it before a merge
/// stands at the same place after it.
pub proof fn lemma_merge_prefix(acc: Seq<Seq<char>>, xs: Seq<Seq<char>>)
    ensures
        merge_seq(acc, xs).len() >= acc.len(),
        merge_seq(acc, xs).take(acc.len() as int) == acc,
    decreases xs.len(),
{
    if xs.len() == 0 {
        assert(merge_seq(acc, xs).take(acc.len() as int) =~= acc);
    } else {
        lemma_merge_prefix(acc, xs.drop_last());
        let prev = merge_seq(acc, xs.drop_last());
        if !prev.contains(xs.last()) {
            assert(prev.push(xs.last()).take(acc.len() as int) =~= prev.take(acc.len() as int));
        }
    }
}

/// Merging name lists one after the other merges their concatenation.
pub proof fn lemma_merge_app(acc: Seq<Seq<char>>, xs: Seq<Seq<char>>, ys: Seq<Seq<char>>)
    ensures
        merge_seq(acc, xs + ys) == merge_seq(merge_seq(acc, xs), ys),
    decreases ys.len(),
{
    if ys.len() == 0 {
        assert(xs + ys =~= xs);
    } else {
        lemma_merge_app(acc, xs, ys.drop_last());
        assert((xs + ys).drop_last() =~= xs + ys.drop_last());
        assert((xs + ys).last() == ys.last());
    }
}

fn contains_string(v: &Vec<String>, x: &String) -> (r: bool)
    ensures
        r == views_of(v@).contains(x@),
{
    let mut i: usize = 0;
    while i < v.len()
        invariant
            i <= v.len(),
            forall|j: int| 0 <= j < i ==> views_of(v@)[j] != x@,
        decreases v.len() - i,
    {
        if v[i] == *x {
            proof {
                assert(views_of(v@)[i as int] == v@[i as int]@);
            }
            return true;
        }
        proof {
            assert(views_of(v@)[i as int] == v@[i as int]@);
        }
        i = i + 1;
    }
    proof {
        if views_of(v@).contains(x@) {
            let k = choose|k: int| 0 <= k < views_of(v@).len() && views_of(v@)[k] == x@;
            assert(views_of(v@)[k] != x@);
        }
    }
    false
}

/// Appends to `vec1` each name of `vec2` that it does not yet hold,
/// preserving first-seen order.
pub fn merge_vecs(vec1: Vec<String>, vec2: Vec<String>) -> (r: Vec<String>)
    ensures
        views_of(r@) == merge_seq(views_of(vec1@), views_of(vec2@)),
{
    let mut ret = vec1;
    let ghost base = views_of(ret@);
    let mut i: usize = 0;
    proof {
        assert(views_of(vec2@).take(0int) =~= Seq::<Seq<char>>::empty());
    }
    while i < vec2.len()
        invariant
            i <= vec2.len(),
            views_of(ret@) == merge_seq(base, views_of(vec2@).take(i as int)),
        decreases vec2.len() - i,
    {
        let ghost pre = views_of(ret@);
        let present = contains_string(&ret, &vec2[i]);
        if !present {
            let x = vec2[i].clone();
            ret.push(x);
            proof {
                crate::chars::lemma_views_push(ret@.drop_last(), ret@.last());
                assert(ret@.drop_last().push(ret@.last()) =~= ret@);
                assert(views_of(ret@) =~= pre.push(vec2@[i as int]@));
            }
        }
        proof {
            let vs = views_of(vec2@);
            assert(vs[i as int] == vec2@[i as int]@);
            assert(vs.take(i + 1).drop_last() =~= vs.take(i as int));
            assert(vs.take(i + 1).last() == vs[i as int]);
        }
        i = i + 1;
    }
    proof {
        assert(views_of(vec2@).take(vec2@.len() as int) =~= views_of(vec2@));
    }
    ret
}

} // verus!
