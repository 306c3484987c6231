//! Input resolution: the retry machine that collects a count, a pair of
//! bounds and an ignore list, and lets them through only when the
//! permitted domain is large enough.
//!
//! The machine makes the restart policy explicit: a rejected pair of
//! bounds asks for both bounds again, while a failed feasibility check
//! returns all the way to the count prompt.

use vstd::prelude::*;

use crate::domain::IgnoreSet;
use crate::domain::domain_set;
use crate::domain::domain_size;
use crate::domain::lemma_domain_props;

verus! {

/// Where the resolution stands: which input is asked for next, or the
/// validated tuple when every check has passed.
pub enum ResolveState {
    CollectCount,
    CollectBounds { count: usize },
    CollectIgnore { count: usize, lower: usize, upper: usize },
    Validated { count: usize, lower: usize, upper: usize, ignore: IgnoreSet },
}

/// A requested count has been read; the bounds are asked for next.
pub fn on_count(count: usize) -> (s: ResolveState)
    requires
        crate::valid_scalar(count),
    ensures
        s == (ResolveState::CollectBounds { count }),
{
    ResolveState::CollectBounds { count }
}

/// A pair of bounds has been read. Bounds in the wrong order ask for both
/// bounds again; a full range smaller than the count restarts from the
/// count prompt; otherwise the ignore list is asked for next.
pub fn on_bounds(count: usize, lower: usize, upper: usize) -> (s: ResolveState)
    requires
        crate::valid_scalar(count),
        crate::valid_scalar(lower),
        crate::valid_scalar(upper),
    ensures
        upper <= lower ==> s == (ResolveState::CollectBounds { count }),
        lower < upper && upper - lower + 1 < count ==> s == ResolveState::CollectCount,
        lower < upper && upper - lower + 1 >= count ==> s == (ResolveState::CollectIgnore {
            count,
            lower,
            upper,
        }),
{
    if upper > lower {
        let width = upper - lower + 1;
        if width < count {
            ResolveState::CollectCount
        } else {
            ResolveState::CollectIgnore { count, lower, upper }
        }
    } else {
        ResolveState::CollectBounds { count }
    }
}

/// The ignore list has been read. If the domain that is left still holds
/// at least `count` values the tuple is validated; otherwise the whole
/// resolution restarts from the count prompt.
pub fn on_ignore(count: usize, lower: usize, upper: usize, ignore: IgnoreSet) -> (s:
    ResolveState)
    requires
        crate::valid_scalar(count),
        crate::valid_scalar(lower),
        crate::valid_scalar(upper),
        lower < upper,
        upper - lower + 1 >= count,
    ensures
        domain_set(lower, upper, ignore@).len() >= count ==> s == (ResolveState::Validated {
            count,
            lower,
            upper,
            ignore,
        }),
        domain_set(lower, upper, ignore@).len() < count ==> s == ResolveState::CollectCount,
{
    let n = domain_size(lower, upper, &ignore);
    if n < count {
        ResolveState::CollectCount
    } else {
        ResolveState::Validated { count, lower, upper, ignore }
    }
}

/// Whether a tuple passes every check the machine makes: valid scalars,
/// bounds in order, and a domain at least as large as the count.
pub fn feasible(lower: usize, upper: usize, count: usize, ignore: &IgnoreSet) -> (r: bool)
    ensures
        r == (crate::valid_scalar(lower) && crate::valid_scalar(upper) && crate::valid_scalar(
            count,
        ) && lower < upper && domain_set(lower, upper, ignore@).len() >= count),
{
    if !(crate::scalar_in_range(lower) && crate::scalar_in_range(upper)
        && crate::scalar_in_range(count)) {
        return false;
    }
    if upper <= lower {
        return false;
    }
    domain_size(lower, upper, ignore) >= count
}

/// One pass of the machine over a tuple supplied up front. Both ways of
/// obtaining the inputs funnel through the same checks: this is the
/// interactive sequence of transitions, taken once.
pub fn resolve_once(count: usize, lower: usize, upper: usize, ignore: IgnoreSet) -> (s:
    ResolveState)
    requires
        crate::valid_scalar(count),
        crate::valid_scalar(lower),
        crate::valid_scalar(upper),
    ensures
        upper <= lower ==> s == (ResolveState::CollectBounds { count }),
        lower < upper && domain_set(lower, upper, ignore@).len() < count ==> s
            == ResolveState::CollectCount,
        lower < upper && domain_set(lower, upper, ignore@).len() >= count ==> s == (
        ResolveState::Validated { count, lower, upper, ignore }),
{
    proof {
        lemma_domain_props(lower, upper, ignore@);
    }
    let after_count = on_count(count);
    match after_count {
        ResolveState::CollectBounds { count } => {
            let after_bounds = on_bounds(count, lower, upper);
            match after_bounds {
                ResolveState::CollectIgnore { count, lower, upper } => on_ignore(
                    count,
                    lower,
                    upper,
                    ignore,
                ),
                other => other,
            }
        },
        other => other,
    }
}

} // verus!
