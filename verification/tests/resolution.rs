use randomizer::domain::domain_size;
use randomizer::domain::IgnoreSet;
use randomizer::resolve::feasible;
use randomizer::resolve::on_bounds;
use randomizer::resolve::resolve_once;
use randomizer::resolve::ResolveState;

fn ignore_of(values: &[usize]) -> IgnoreSet {
    let mut set = IgnoreSet::new();
    for &v in values {
        set.insert(v);
    }
    set
}

#[test]
fn domain_size_counts_range_minus_ignored() {
    assert_eq!(domain_size(1, 10, &ignore_of(&[])), 10);
    assert_eq!(domain_size(1, 5, &ignore_of(&[3])), 4);
}

#[test]
fn domain_size_ignores_values_outside_the_range() {
    assert_eq!(domain_size(1, 5, &ignore_of(&[7, 100])), 5);
}

#[test]
fn bounds_in_wrong_order_are_asked_again() {
    let s = on_bounds(5, 10, 10);
    assert!(matches!(s, ResolveState::CollectBounds { count: 5 }));
    let s = on_bounds(5, 10, 2);
    assert!(matches!(s, ResolveState::CollectBounds { count: 5 }));
}

#[test]
fn range_smaller_than_count_restarts_from_count() {
    let s = on_bounds(5, 1, 3);
    assert!(matches!(s, ResolveState::CollectCount));
}

#[test]
fn infeasible_after_ignore_restarts_from_count() {
    let s = resolve_once(5, 1, 5, ignore_of(&[3]));
    assert!(matches!(s, ResolveState::CollectCount));
}

#[test]
fn feasible_tuple_is_validated() {
    let s = resolve_once(5, 1, 5, ignore_of(&[]));
    match s {
        ResolveState::Validated { count, lower, upper, ignore } => {
            assert_eq!(count, 5);
            assert_eq!(lower, 1);
            assert_eq!(upper, 5);
            assert!(!ignore.contains(3));
        },
        _ => panic!("expected a validated tuple"),
    }
}

#[test]
fn feasibility_check_matches_the_machine() {
    assert!(feasible(1, 5, 5, &ignore_of(&[])));
    assert!(!feasible(1, 5, 5, &ignore_of(&[3])));
    assert!(!feasible(5, 1, 1, &ignore_of(&[])));
    assert!(!feasible(0, 5, 1, &ignore_of(&[])));
    assert!(!feasible(1, 1000001, 1, &ignore_of(&[])));
}
