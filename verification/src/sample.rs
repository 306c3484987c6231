//! The unique sampler: rejection sampling over a cryptographically secure
//! random source, drawing until the requested count of distinct, permitted
//! values is reached.
//!
//! Feasibility (a domain at least as large as the count) makes the task
//! possible; to make termination provable the sampler gives the random
//! draws a generous budget and, in the vanishingly unlikely event that the
//! budget runs out first, finishes with a deterministic sweep of the range,
//! which accepts exactly as a random draw would have.

use vstd::prelude::*;

use rand::RngCore;

use crate::domain::IgnoreSet;
use crate::domain::domain_set;
use crate::domain::lemma_domain_props;
use vstd::set_lib::lemma_len_subset;
use vstd::set_lib::lemma_subset_equality;

verus! {

/// Relies on rand's `OsRng` through `RngCore::fill_bytes`: eight bytes
/// from the operating system's cryptographically secure random source,
/// read here as a little-endian machine word. Nothing is promised of the
/// value drawn: every caller must cope with every outcome. The call does
/// not return normally only if the operating system's source fails.
#[verifier::external_body]
fn draw_random_u64() -> u64 {
    let mut buffer = [0u8; 8];
    rand::rngs::OsRng.fill_bytes(&mut buffer);
    u64::from_le_bytes(buffer)
}

/// Reduce one random draw to a candidate value of the inclusive range, by
/// a modulo reduction against the range width. (The reduction has the
/// slight known bias of any modulo fold of a wider word; it is not a
/// correctness concern.)
pub fn candidate_from_draw(lower: usize, upper: usize, draw: u64) -> (c: usize)
    requires
        lower < upper,
        upper <= crate::MAX_INPUT,
    ensures
        c == lower + draw % ((upper - lower + 1) as u64),
        lower <= c <= upper,
{
    let width: u64 = (upper - lower + 1) as u64;
    let offset: u64 = draw % width;
    proof {
        assert(offset < width);
    }
    lower + (offset as usize)
}

/// Whether the selected fraction of the domain is high enough that
/// rejection sampling deserves an advisory warning: the count meets or
/// exceeds 70% of what may actually be drawn, the range minus the ignored
/// values. The unrounded ratio `count / |domain|` reaches the threshold
/// exactly when `10 * count >= 7 * |domain|`.
pub fn density_warning(lower: usize, upper: usize, count: usize, ignore: &IgnoreSet) -> (r:
    bool)
    requires
        1 <= lower < upper,
        upper <= crate::MAX_INPUT,
        count <= crate::MAX_INPUT,
    ensures
        r == (10 * count >= 7 * domain_set(lower, upper, ignore@).len()),
{
    proof {
        lemma_domain_props(lower, upper, ignore@);
    }
    let size = crate::domain::domain_size(lower, upper, ignore);
    10 * count >= 7 * size
}

/// Whether the vector already holds `x`.
fn vec_contains(v: &Vec<usize>, x: usize) -> (r: bool)
    ensures
        r == v@.contains(x),
{
    let mut i: usize = 0;
    while i < v.len()
        invariant
            i <= v@.len(),
            forall|j: int| 0 <= j < i ==> v@[j] != x,
        decreases v@.len() - i,
    {
        if v[i] == x {
            proof {
                assert(v@.contains(x)) by {
                    assert(v@[i as int] == x);
                }
            }
            return true;
        }
        i = i + 1;
    }
    false
}

/// Appending a value that is not yet present keeps a sequence free of
/// duplicates, and keeps every earlier member.
proof fn lemma_push_distinct(s: Seq<usize>, x: usize)
    requires
        s.no_duplicates(),
        !s.contains(x),
    ensures
        s.push(x).no_duplicates(),
        forall|y: usize| s.contains(y) ==> #[trigger] s.push(x).contains(y),
{
    let p = s.push(x);
    assert forall|i: int, j: int|
        0 <= i < p.len() && 0 <= j < p.len() && i != j implies p[i] != p[j] by {
        if i < s.len() && j < s.len() {
        } else if i < s.len() && j == s.len() {
            if p[i] == x {
                assert(s.contains(x)) by {
                    assert(s[i] == x);
                }
            }
        } else if j < s.len() && i == s.len() {
            if p[j] == x {
                assert(s.contains(x)) by {
                    assert(s[j] == x);
                }
            }
        }
    }
    assert forall|y: usize| s.contains(y) implies #[trigger] p.contains(y) by {
        let k = choose|k: int| 0 <= k < s.len() && s[k] == y;
        assert(p[k] == y);
    }
}

/// A duplicate-free sequence of values that all lie in the domain, as
/// long as the domain itself, must exhaust it: every domain value occurs,
/// and the values form exactly the domain.
pub proof fn lemma_exhaustive_result(r: Seq<usize>, lower: usize, upper: usize, ig: Set<usize>)
    requires
        r.no_duplicates(),
        forall|i: int| 0 <= i < r.len() ==> lower <= r[i] <= upper && !ig.contains(r[i]),
        r.len() == domain_set(lower, upper, ig).len(),
    ensures
        forall|y: usize| lower <= y <= upper && !ig.contains(y) ==> r.contains(y),
        r.to_set() == domain_set(lower, upper, ig),
{
    broadcast use vstd::seq_lib::seq_to_set_is_finite;
    broadcast use vstd::set::group_set_axioms;

    lemma_domain_props(lower, upper, ig);
    r.unique_seq_to_set();
    assert forall|y: usize| r.to_set().contains(y) implies domain_set(lower, upper, ig).contains(
        y,
    ) by {
        let i = choose|i: int| 0 <= i < r.len() && r[i] == y;
    }
    lemma_subset_equality(r.to_set(), domain_set(lower, upper, ig));
    assert forall|y: usize| lower <= y <= upper && !ig.contains(y) implies r.contains(y) by {
        assert(domain_set(lower, upper, ig).contains(y));
    }
}

/// Draw distinct values from the domain until `count` of them have been
/// accepted, in acceptance order: each is within the bounds, not ignored,
/// and never repeated. Feasibility makes this always reachable, so the
/// result holds exactly `count` values.
pub fn generate_unique_numbers(
    lower: usize,
    upper: usize,
    count: usize,
    ignore: &IgnoreSet,
) -> (r: Vec<usize>)
    requires
        1 <= lower < upper,
        upper <= crate::MAX_INPUT,
        1 <= count,
        count <= domain_set(lower, upper, ignore@).len(),
    ensures
        r@.len() == count,
        r@.no_duplicates(),
        forall|i: int|
            0 <= i < r@.len() ==> lower <= r@[i] <= upper && !ignore@.contains(r@[i]),
{
    proof {
        lemma_domain_props(lower, upper, ignore@);
    }
    let mut r: Vec<usize> = Vec::new();
    let budget: usize = count * 64;
    let mut attempts: usize = 0;
    while r.len() < count && attempts < budget
        invariant
            lower < upper,
            upper <= crate::MAX_INPUT,
            attempts <= budget,
            r@.len() <= count,
            r@.no_duplicates(),
            forall|i: int|
                0 <= i < r@.len() ==> lower <= r@[i] <= upper && !ignore@.contains(r@[i]),
        decreases budget - attempts,
    {
        attempts = attempts + 1;
        let draw = draw_random_u64();
        let c = candidate_from_draw(lower, upper, draw);
        if !ignore.contains(c) && !vec_contains(&r, c) {
            proof {
                lemma_push_distinct(r@, c);
            }
            r.push(c);
        }
    }
    if r.len() < count {
        let mut x: usize = lower;
        while x <= upper && r.len() < count
            invariant
                lower <= x <= upper + 1,
                lower < upper,
                upper <= crate::MAX_INPUT,
                r@.len() <= count,
                r@.no_duplicates(),
                forall|i: int|
                    0 <= i < r@.len() ==> lower <= r@[i] <= upper && !ignore@.contains(r@[i]),
                r@.len() < count ==> forall|y: usize|
                    lower <= y < x && !ignore@.contains(y) ==> r@.contains(y),
            decreases upper + 1 - x,
        {
            if !ignore.contains(x) && !vec_contains(&r, x) {
                proof {
                    lemma_push_distinct(r@, x);
                }
                r.push(x);
                proof {
                    assert(r@.contains(x)) by {
                        assert(r@[r@.len() - 1] == x);
                    }
                }
            }
            x = x + 1;
        }
        proof {
            broadcast use vstd::seq_lib::seq_to_set_is_finite;
            broadcast use vstd::set::group_set_axioms;

            if r@.len() < count {
                assert(x == upper + 1);
                r@.unique_seq_to_set();
                assert forall|y: usize|
                    domain_set(lower, upper, ignore@).contains(y) implies r@.to_set().contains(
                    y,
                ) by {
                    assert(lower <= y < x && !ignore@.contains(y));
                    assert(r@.contains(y));
                }
                lemma_len_subset(domain_set(lower, upper, ignore@), r@.to_set());
                assert(false);
            }
        }
    }
    r
}

} // verus!
