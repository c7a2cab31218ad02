//! Descending sort of citation counts. The executable sort is an insertion
//! sort whose contract pins the result down exactly: it returns `sort_desc`
//! of the input, the unique descending reordering of the input's multiset.

use vstd::prelude::*;
use vstd::relations::{sorted_by, total_ordering};
use vstd::seq_lib::{lemma_multiset_commutative, lemma_sorted_unique};

verus! {

/// Descending order on counts: `x` may stand before `y` when `x >= y`.
pub open spec fn desc() -> spec_fn(i32, i32) -> bool {
    |x: i32, y: i32| x >= y
}

/// The descending reordering of a count sequence.
pub open spec fn sort_desc(s: Seq<i32>) -> Seq<i32> {
    s.sort_by(desc())
}

/// Descending order on counts is total.
pub proof fn lemma_desc_total()
    ensures
        total_ordering(desc()),
{
}

/// What `sort_desc` yields: a descending sequence with the same multiset of
/// counts as the input, and the only such sequence.
pub proof fn lemma_sort_desc_ensures(s: Seq<i32>)
    ensures
        sorted_by(sort_desc(s), desc()),
        sort_desc(s).to_multiset() == s.to_multiset(),
        sort_desc(s).len() == s.len(),
        forall|t: Seq<i32>|
            sorted_by(t, desc()) && t.to_multiset() == s.to_multiset() ==> t == sort_desc(s),
{
    lemma_desc_total();
    s.lemma_sort_by_ensures(desc());
    s.to_multiset_ensures();
    sort_desc(s).to_multiset_ensures();
    assert(sort_desc(s).len() == sort_desc(s).to_multiset().len());
    assert(s.len() == s.to_multiset().len());
    assert forall|t: Seq<i32>|
        sorted_by(t, desc()) && t.to_multiset() == s.to_multiset() implies t == sort_desc(s) by {
        lemma_sorted_unique(t, sort_desc(s), desc());
    }
}

/// Inserting an element into a sequence adds it to the sequence's multiset.
proof fn lemma_insert_to_multiset(s: Seq<i32>, p: int, x: i32)
    requires
        0 <= p <= s.len(),
    ensures
        s.insert(p, x).to_multiset() == s.to_multiset().insert(x),
{
    broadcast use vstd::seq_lib::group_to_multiset_ensures;
    broadcast use vstd::multiset::group_multiset_axioms;

    let pre = s.subrange(0, p);
    let post = s.subrange(p, s.len() as int);
    assert(s.insert(p, x) == pre.push(x) + post);
    lemma_multiset_commutative(pre.push(x), post);
    assert(s =~= pre + post);
    lemma_multiset_commutative(pre, post);
    assert(pre.push(x).to_multiset() == pre.to_multiset().insert(x));
    assert(s.insert(p, x).to_multiset() =~= s.to_multiset().insert(x));
}

/// Taking the element at `i` out and putting it back at `p` leaves the
/// multiset of counts unchanged.
proof fn lemma_remove_insert_multiset(pre: Seq<i32>, i: int, p: int)
    requires
        0 <= i < pre.len(),
        0 <= p <= pre.len() - 1,
    ensures
        pre.remove(i).insert(p, pre[i]).to_multiset() == pre.to_multiset(),
{
    broadcast use vstd::seq_lib::group_to_multiset_ensures;
    broadcast use vstd::multiset::group_multiset_axioms;

    let key = pre[i];
    lemma_insert_to_multiset(pre.remove(i), p, key);
    assert(pre.contains(key));
    assert(pre.to_multiset().count(key) > 0);
    assert(pre.remove(i).to_multiset() == pre.to_multiset().remove(pre[i]));
    assert(pre.remove(i).insert(p, key).to_multiset() =~= pre.to_multiset());
}

/// Moving the element at `i` back to its insertion point `p` extends the
/// sorted prefix by one.
proof fn lemma_insertion_step(pre: Seq<i32>, i: int, p: int)
    requires
        0 < i < pre.len(),
        0 <= p <= i,
        sorted_by(pre.subrange(0, i), desc()),
        forall|q: int| 0 <= q < p ==> pre.remove(i)[q] >= pre[i],
        p == i || pre.remove(i)[p] < pre[i],
    ensures
        sorted_by(pre.remove(i).insert(p, pre[i]).subrange(0, i + 1), desc()),
{
    let key = pre[i];
    let mid = pre.remove(i);
    let post = mid.insert(p, key);
    mid.insert_ensures(p, key);
    assert(forall|q: int| 0 <= q < i ==> mid[q] == pre[q]);
    assert(forall|q: int| 0 <= q < i ==> pre.subrange(0, i)[q] == pre[q]);
    assert forall|a: int, b: int| 0 <= a < b < i + 1 implies (desc())(post[a], post[b]) by {
        if b < p {
            assert((desc())(pre.subrange(0, i)[a], pre.subrange(0, i)[b]));
        } else if b == p {
            assert(post[b] == key && post[a] == mid[a]);
        } else if a == p {
            assert(post[a] == key && post[b] == mid[b - 1] && mid[b - 1] == pre[b - 1]);
            if p < i {
                assert(mid[p] < key);
                if b - 1 > p {
                    assert((desc())(pre.subrange(0, i)[p], pre.subrange(0, i)[b - 1]));
                }
            }
        } else if a < p {
            assert(post[a] == pre[a] && post[b] == pre[b - 1]);
            assert((desc())(pre.subrange(0, i)[a], pre.subrange(0, i)[b - 1]));
        } else {
            assert(post[a] == pre[a - 1] && post[b] == pre[b - 1]);
            assert((desc())(pre.subrange(0, i)[a - 1], pre.subrange(0, i)[b - 1]));
        }
    }
    assert(forall|q: int| 0 <= q < i + 1 ==> post.subrange(0, i + 1)[q] == post[q]);
}

/// Sorts the counts in place, descending. The result is exactly the
/// descending reordering of the input.
pub fn sort_counts_desc(v: &mut Vec<i32>)
    ensures
        final(v)@ == sort_desc(old(v)@),
{
    let ghost orig: Seq<i32> = v@;
    let n: usize = v.len();
    if n > 1 {
        let mut i: usize = 1;
        while i < n
            invariant
                1 <= i <= n,
                n == v@.len(),
                n == orig.len(),
                v@.to_multiset() == orig.to_multiset(),
                sorted_by(v@.subrange(0, i as int), desc()),
            decreases n - i,
        {
            let ghost pre: Seq<i32> = v@;
            let key: i32 = v.remove(i);
            let ghost mid: Seq<i32> = v@;
            let mut p: usize = 0;
            while p < i && v[p] >= key
                invariant
                    0 <= p <= i,
                    i < n,
                    n == pre.len(),
                    v@ == mid,
                    mid == pre.remove(i as int),
                    key == pre[i as int],
                    forall|q: int| 0 <= q < p ==> mid[q] >= key,
                decreases i - p,
            {
                p += 1;
            }
            proof {
                assert(p == i || mid[p as int] < key);
            }
            v.insert(p, key);
            proof {
                lemma_remove_insert_multiset(pre, i as int, p as int);
                lemma_insertion_step(pre, i as int, p as int);
                assert(v@ == pre.remove(i as int).insert(p as int, pre[i as int]));
            }
            i += 1;
        }
    }
    proof {
        assert(v@ =~= v@.subrange(0, v@.len() as int));
        if n <= 1 {
            assert(v@ == orig);
        }
        assert(sorted_by(v@, desc()));
        lemma_sort_desc_ensures(orig);
        assert(v@ == sort_desc(orig));
    }
}

} // verus!
