//! Presentation of a result sequence: an ascending copy on request, the
//! original acceptance order otherwise.

use vstd::prelude::*;

use vstd::assert_multisets_equal;
use vstd::relations::total_ordering;
use vstd::relations::sorted_by;
use vstd::seq_lib::lemma_sorted_unique;

verus! {

/// Ascending order.
pub open spec fn sorted_asc(s: Seq<usize>) -> bool {
    forall|i: int, j: int| 0 <= i <= j < s.len() ==> s[i] <= s[j]
}

/// Whether the ordering question is put to the user at all: only when
/// more than one value was generated. A single value is printed directly.
pub fn needs_order_prompt(count: usize) -> (r: bool)
    ensures
        r == (count > 1),
{
    count > 1
}

/// An ascending copy of the values. The argument itself is borrowed and
/// left exactly as it was, so the acceptance order stays available.
pub fn sort_ascending(v: &Vec<usize>) -> (r: Vec<usize>)
    ensures
        sorted_asc(r@),
        r@.to_multiset() == v@.to_multiset(),
{
    let mut r: Vec<usize> = Vec::new();
    let mut k: usize = 0;
    while k < v.len()
        invariant
            k <= v@.len(),
            r@ == v@.take(k as int),
        decreases v@.len() - k,
    {
        r.push(v[k]);
        proof {
            assert(v@.take(k + 1) =~= v@.take(k as int).push(v@[k as int]));
        }
        k = k + 1;
    }
    proof {
        assert(v@.take(k as int) =~= v@);
    }
    let n = r.len();
    let mut i: usize = 0;
    while i < n
        invariant
            n == r@.len(),
            i <= n,
            r@.to_multiset() == v@.to_multiset(),
            forall|a: int, b: int| 0 <= a <= b < i ==> r@[a] <= r@[b],
            forall|a: int, b: int| 0 <= a < i && i <= b < n ==> r@[a] <= r@[b],
        decreases n - i,
    {
        let mut m: usize = i;
        let mut j: usize = i + 1;
        while j < n
            invariant
                i <= m < j <= n,
                n == r@.len(),
                forall|t: int| i <= t < j ==> r@[m as int] <= r@[t],
            decreases n - j,
        {
            if r[j] < r[m] {
                m = j;
            }
            j = j + 1;
        }
        let ghost before = r@;
        let lowest = r[m];
        let displaced = r[i];
        r[i] = lowest;
        r[m] = displaced;
        proof {
            broadcast use vstd::seq_lib::group_to_multiset_ensures;
            broadcast use vstd::multiset::group_multiset_axioms;

            let after_first = before.update(i as int, lowest);
            assert(r@ =~= after_first.update(m as int, displaced));
            assert(after_first[m as int] == lowest);
            assert(after_first.to_multiset() == before.to_multiset().insert(lowest).remove(
                displaced,
            ));
            assert(r@.to_multiset() == after_first.to_multiset().insert(displaced).remove(
                lowest,
            ));
            assert(before.to_multiset().count(displaced) > 0) by {
                assert(before.contains(displaced)) by {
                    assert(before[i as int] == displaced);
                }
            }
            assert(before.to_multiset().count(lowest) > 0) by {
                assert(before.contains(lowest)) by {
                    assert(before[m as int] == lowest);
                }
            }
            assert_multisets_equal!(r@.to_multiset(), before.to_multiset());
        }
        i = i + 1;
    }
    r
}

/// The ascending presentation of a collection of values is unique: any
/// two ascending sequences with the same values, the result sequence
/// sorted once and sorted twice among them, are the same sequence.
pub proof fn lemma_sorted_unique_asc(a: Seq<usize>, b: Seq<usize>)
    requires
        sorted_asc(a),
        sorted_asc(b),
        a.to_multiset() == b.to_multiset(),
    ensures
        a == b,
{
    let leq = |x: usize, y: usize| x <= y;
    assert(total_ordering(leq));
    assert(sorted_by(a, leq));
    assert(sorted_by(b, leq));
    lemma_sorted_unique(a, b, leq);
    assert(a =~= b);
}

} // verus!
