use randomizer::domain::IgnoreSet;
use randomizer::order::needs_order_prompt;
use randomizer::order::sort_ascending;
use randomizer::sample::candidate_from_draw;
use randomizer::sample::density_warning;
use randomizer::sample::generate_unique_numbers;

fn ignore_of(values: &[usize]) -> IgnoreSet {
    let mut set = IgnoreSet::new();
    for &v in values {
        set.insert(v);
    }
    set
}

#[test]
fn five_distinct_values_from_one_to_ten() {
    let ignore = ignore_of(&[]);
    let r = generate_unique_numbers(1, 10, 5, &ignore);
    assert_eq!(r.len(), 5);
    for (i, &v) in r.iter().enumerate() {
        assert!((1..=10).contains(&v));
        for &w in r.iter().skip(i + 1) {
            assert_ne!(v, w);
        }
    }
}

#[test]
fn full_exhaustion_terminates_and_covers_the_domain() {
    let ignore = ignore_of(&[]);
    let r = generate_unique_numbers(1, 5, 5, &ignore);
    let sorted = sort_ascending(&r);
    assert_eq!(sorted, vec![1, 2, 3, 4, 5]);
}

#[test]
fn ignored_values_never_appear() {
    let ignore = ignore_of(&[2, 4, 6]);
    let r = generate_unique_numbers(1, 10, 3, &ignore);
    assert_eq!(r.len(), 3);
    for &v in r.iter() {
        assert!((1..=10).contains(&v));
        assert!(v != 2 && v != 4 && v != 6);
    }
}

#[test]
fn exhaustion_around_ignored_values() {
    let ignore = ignore_of(&[3, 7]);
    let r = generate_unique_numbers(1, 10, 8, &ignore);
    let sorted = sort_ascending(&r);
    assert_eq!(sorted, vec![1, 2, 4, 5, 6, 8, 9, 10]);
}

#[test]
fn candidate_reduction_is_exact() {
    assert_eq!(candidate_from_draw(1, 10, 12), 3);
    assert_eq!(candidate_from_draw(1, 10, 0), 1);
    assert_eq!(candidate_from_draw(1, 10, 9), 10);
    assert_eq!(candidate_from_draw(5, 9, 7), 7);
}

#[test]
fn density_threshold_at_seventy_percent() {
    assert!(density_warning(1, 10, 7, &ignore_of(&[])));
    assert!(!density_warning(1, 10, 6, &ignore_of(&[])));
    assert!(density_warning(1, 5, 5, &ignore_of(&[])));
    assert!(!density_warning(1, 2, 1, &ignore_of(&[])));
}

#[test]
fn density_threshold_counts_the_domain_not_the_range() {
    // five of the ten values are ignored: the whole domain is selected
    assert!(density_warning(1, 10, 5, &ignore_of(&[1, 2, 3, 4, 6])));
    // without the ignore set the same count is only half the range
    assert!(!density_warning(1, 10, 5, &ignore_of(&[])));
    assert!(!density_warning(1, 10, 3, &ignore_of(&[1, 2])));
}

#[test]
fn single_value_skips_the_ordering_prompt() {
    assert!(!needs_order_prompt(1));
    assert!(needs_order_prompt(2));
}

#[test]
fn sorting_twice_gives_the_same_ascending_sequence() {
    let v = vec![3, 1, 2, 10, 2];
    let once = sort_ascending(&v);
    let twice = sort_ascending(&once);
    assert_eq!(once, vec![1, 2, 2, 3, 10]);
    assert_eq!(once, twice);
}

#[test]
fn sorting_leaves_the_original_order_alone() {
    let v = vec![3, 1, 2];
    let _sorted = sort_ascending(&v);
    assert_eq!(v, vec![3, 1, 2]);
    let again = sort_ascending(&v);
    assert_eq!(again, vec![1, 2, 3]);
}
