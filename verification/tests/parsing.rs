use randomizer::parse::parse_ignore_list;
use randomizer::parse::parse_mode;
use randomizer::parse::parse_scalar;
use randomizer::parse::parse_yes_no;
use randomizer::parse::Mode;

#[test]
fn ignore_list_drops_bad_token_with_warning() {
    let (set, bad) = parse_ignore_list(&b"1 abc 3".to_vec());
    assert!(set.contains(1));
    assert!(set.contains(3));
    assert!(!set.contains(2));
    assert_eq!(bad, 1);
}

#[test]
fn ignore_list_empty_line() {
    let (set, bad) = parse_ignore_list(&b"".to_vec());
    assert!(!set.contains(1));
    assert_eq!(bad, 0);
}

#[test]
fn ignore_list_blank_line() {
    let (set, bad) = parse_ignore_list(&b"   \t \n".to_vec());
    assert!(!set.contains(0));
    assert_eq!(bad, 0);
}

#[test]
fn ignore_list_duplicates_collapse() {
    let (set, bad) = parse_ignore_list(&b"2 2 7\n".to_vec());
    assert!(set.contains(2));
    assert!(set.contains(7));
    assert_eq!(bad, 0);
}

#[test]
fn ignore_list_leading_plus_parses() {
    let (set, bad) = parse_ignore_list(&b"+5".to_vec());
    assert!(set.contains(5));
    assert_eq!(bad, 0);
}

#[test]
fn ignore_list_overflowing_token_warns() {
    let (set, bad) = parse_ignore_list(&b"99999999999999999999999999 4".to_vec());
    assert!(set.contains(4));
    assert_eq!(bad, 1);
}

#[test]
fn ignore_list_bare_sign_warns() {
    let (_, bad) = parse_ignore_list(&b"+ 4".to_vec());
    assert_eq!(bad, 1);
}

#[test]
fn scalar_accepts_plain_number() {
    assert_eq!(parse_scalar(&b"42\n".to_vec()), Some(42));
}

#[test]
fn scalar_accepts_surrounding_whitespace() {
    assert_eq!(parse_scalar(&b" 7 \n".to_vec()), Some(7));
}

#[test]
fn scalar_bounds_of_the_accepted_range() {
    assert_eq!(parse_scalar(&b"1".to_vec()), Some(1));
    assert_eq!(parse_scalar(&b"1000000".to_vec()), Some(1000000));
    assert_eq!(parse_scalar(&b"0".to_vec()), None);
    assert_eq!(parse_scalar(&b"1000001".to_vec()), None);
}

#[test]
fn scalar_rejects_junk() {
    assert_eq!(parse_scalar(&b"abc".to_vec()), None);
    assert_eq!(parse_scalar(&b"1 2".to_vec()), None);
    assert_eq!(parse_scalar(&b"".to_vec()), None);
    assert_eq!(parse_scalar(&b"-3".to_vec()), None);
}

#[test]
fn yes_no_first_marker_decides_case_insensitively() {
    assert_eq!(parse_yes_no(&b"y\n".to_vec()), Some(true));
    assert_eq!(parse_yes_no(&b"Y\n".to_vec()), Some(true));
    assert_eq!(parse_yes_no(&b" n".to_vec()), Some(false));
    assert_eq!(parse_yes_no(&b"N".to_vec()), Some(false));
}

#[test]
fn yes_no_anything_else_reprompts() {
    assert_eq!(parse_yes_no(&b"maybe".to_vec()), None);
    assert_eq!(parse_yes_no(&b"".to_vec()), None);
    assert_eq!(parse_yes_no(&b"  \n".to_vec()), None);
    assert_eq!(parse_yes_no(&b"0".to_vec()), None);
}

#[test]
fn mode_selector_outside_zero_and_one_is_rejected() {
    assert!(matches!(parse_mode(0), Some(Mode::Interactive)));
    assert!(matches!(parse_mode(1), Some(Mode::Preset)));
    assert!(parse_mode(2).is_none());
    assert!(parse_mode(255).is_none());
}
