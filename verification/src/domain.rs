//! The permitted domain: the integers of the inclusive range minus the
//! ignored values, together with the set of ignored values itself.

use vstd::prelude::*;

verus! {

/// A set of values to leave out of the draw. Membership is what matters;
/// values outside the range of interest are harmless.
pub struct IgnoreSet {
    values: Vec<usize>,
}

impl View for IgnoreSet {
    type V = Set<usize>;

    closed spec fn view(&self) -> Set<usize> {
        self.values@.to_set()
    }
}

impl IgnoreSet {
    /// An empty ignore set.
    pub fn new() -> (s: IgnoreSet)
        ensures
            s@ == Set::<usize>::empty(),
    {
        let s = IgnoreSet { values: Vec::new() };
        proof {
            assert(s@ =~= Set::<usize>::empty());
        }
        s
    }

    /// Whether `x` is ignored.
    pub fn contains(&self, x: usize) -> (r: bool)
        ensures
            r == self@.contains(x),
    {
        let mut i: usize = 0;
        while i < self.values.len()
            invariant
                i <= self.values@.len(),
                forall|j: int| 0 <= j < i ==> self.values@[j] != x,
            decreases self.values@.len() - i,
        {
            if self.values[i] == x {
                proof {
                    assert(self.values@.contains(x)) by {
                        assert(self.values@[i as int] == x);
                    }
                }
                return true;
            }
            i = i + 1;
        }
        proof {
            assert(!self.values@.contains(x));
        }
        false
    }

    /// Add `x` to the ignored values.
    pub fn insert(&mut self, x: usize)
        ensures
            final(self)@ == old(self)@.insert(x),
    {
        if self.contains(x) {
            proof {
                assert(self@ =~= self@.insert(x));
            }
        } else {
            let ghost before = self.values@;
            self.values.push(x);
            proof {
                assert forall|y: usize| self.values@.contains(y) <==> (before.contains(y) || y
                    == x) by {
                    if self.values@.contains(y) {
                        let k = choose|k: int|
                            0 <= k < self.values@.len() && self.values@[k] == y;
                        if k < before.len() {
                            assert(before[k] == y);
                        }
                    }
                    if before.contains(y) {
                        let k = choose|k: int| 0 <= k < before.len() && before[k] == y;
                        assert(self.values@[k] == y);
                    }
                    if y == x {
                        assert(self.values@[before.len() as int] == y);
                    }
                }
                assert(self@ =~= before.to_set().insert(x));
            }
        }
    }
}

/// The domain: every integer of `[lower, upper]` that is not ignored.
pub open spec fn domain_set(lower: usize, upper: usize, ig: Set<usize>) -> Set<usize> {
    Set::new(|y: usize| lower <= y <= upper && !ig.contains(y))
}

/// The part of the domain below `x` (exclusive), used to walk the range.
spec fn domain_upto(lower: usize, x: int, ig: Set<usize>) -> Set<usize> {
    Set::new(|y: usize| lower <= y < x && !ig.contains(y))
}

/// Every prefix of the domain is finite and no larger than the width walked.
proof fn lemma_domain_upto_props(lower: usize, x: int, ig: Set<usize>)
    ensures
        domain_upto(lower, x, ig).finite(),
        x <= lower ==> domain_upto(lower, x, ig).len() == 0,
        x > lower ==> domain_upto(lower, x, ig).len() <= x - lower,
    decreases
            if x <= lower {
                0int
            } else {
                x - lower
            },
{
    broadcast use vstd::set::group_set_axioms;

    if x <= lower {
        assert(domain_upto(lower, x, ig) =~= Set::<usize>::empty());
    } else {
        lemma_domain_upto_props(lower, x - 1, ig);
        let prev = domain_upto(lower, x - 1, ig);
        if x - 1 <= usize::MAX && !ig.contains((x - 1) as usize) {
            assert(domain_upto(lower, x, ig) =~= prev.insert((x - 1) as usize));
        } else {
            assert(domain_upto(lower, x, ig) =~= prev);
        }
    }
}

/// The whole domain is finite and no larger than the range width.
pub proof fn lemma_domain_props(lower: usize, upper: usize, ig: Set<usize>)
    ensures
        domain_set(lower, upper, ig).finite(),
        lower <= upper ==> domain_set(lower, upper, ig).len() <= upper - lower + 1,
        upper < lower ==> domain_set(lower, upper, ig).len() == 0,
{
    lemma_domain_upto_props(lower, upper + 1, ig);
    assert(domain_set(lower, upper, ig) =~= domain_upto(lower, upper + 1, ig));
}

/// How many values may be drawn: the size of the range minus the ignored
/// values that fall inside it.
pub fn domain_size(lower: usize, upper: usize, ignore: &IgnoreSet) -> (n: usize)
    requires
        1 <= lower < upper,
        upper <= crate::MAX_INPUT,
    ensures
        n == domain_set(lower, upper, ignore@).len(),
        domain_set(lower, upper, ignore@).finite(),
{
    broadcast use vstd::set::group_set_axioms;

    let mut x: usize = lower;
    let mut count: usize = 0;
    proof {
        lemma_domain_upto_props(lower, lower as int, ignore@);
        assert(domain_upto(lower, lower as int, ignore@) =~= Set::<usize>::empty());
    }
    while x <= upper
        invariant
            lower <= x <= upper + 1,
            upper <= crate::MAX_INPUT,
            domain_upto(lower, x as int, ignore@).finite(),
            count == domain_upto(lower, x as int, ignore@).len(),
            count <= x - lower,
        decreases upper + 1 - x,
    {
        let ghost prev = domain_upto(lower, x as int, ignore@);
        if !ignore.contains(x) {
            proof {
                assert(!prev.contains(x));
                assert(domain_upto(lower, x + 1, ignore@) =~= prev.insert(x));
            }
            count = count + 1;
        } else {
            proof {
                assert(domain_upto(lower, x + 1, ignore@) =~= prev);
            }
        }
        x = x + 1;
    }
    proof {
        assert(domain_set(lower, upper, ignore@) =~= domain_upto(
            lower,
            upper + 1,
            ignore@,
        ));
    }
    count
}

} // verus!
