use nimiq_vanity::address::NimiqAddressString;
use nimiq_vanity::args::Options;
use nimiq_vanity::entropy::{add_to_entropy, Entropy};
use nimiq_vanity::search::{
    derive_candidate, search_addresses, strip_spaces, SearchOutcome,
};
use nimiq_vanity::DEFAULT_PATH;
use std::sync::atomic::AtomicBool;

fn entropy_of(bytes: [u8; 32]) -> Entropy {
    Entropy::from_bytes(bytes.to_vec()).expect("32 bytes")
}

fn options_for(prefix: &str, strict: bool, max_rounds: Option<usize>) -> Options {
    Options {
        strict,
        contains: false,
        verbose: false,
        prefix: String::from(prefix),
        derivation_path: String::from(DEFAULT_PATH),
        max_rounds,
        num_threads: None,
    }
}

#[test]
fn strip_spaces_removes_grouping() {
    assert_eq!(strip_spaces("NQ07 ABCD"), String::from("NQ07ABCD"));
    assert_eq!(strip_spaces("   "), String::from(""));
    assert_eq!(strip_spaces("AB"), String::from("AB"));
}

#[test]
fn derivation_is_deterministic() {
    let e = entropy_of([7u8; 32]);
    let first = derive_candidate(&e, DEFAULT_PATH).expect("default path derives");
    let second = derive_candidate(&e, DEFAULT_PATH).expect("default path derives");
    assert_eq!(first, second);
}

#[test]
fn derived_addresses_have_the_friendly_shape() {
    let e = entropy_of([7u8; 32]);
    let (address, mnemonic) = derive_candidate(&e, DEFAULT_PATH).expect("default path derives");
    assert!(address.starts_with("NQ"));
    let stripped = strip_spaces(&address);
    assert_eq!(stripped.chars().count(), 36);
    assert_eq!(mnemonic.split(' ').count(), 24);
}

#[test]
fn different_entropy_gives_a_different_address() {
    let e0 = entropy_of([7u8; 32]);
    let e1 = add_to_entropy(&e0, 1);
    let (a0, _) = derive_candidate(&e0, DEFAULT_PATH).unwrap();
    let (a1, _) = derive_candidate(&e1, DEFAULT_PATH).unwrap();
    assert_ne!(a0, a1);
}

#[test]
fn an_unusable_path_is_refused() {
    let e = entropy_of([7u8; 32]);
    assert!(derive_candidate(&e, "bogus").is_none());
}

#[test]
fn a_raised_flag_cancels_before_any_work() {
    let flag = AtomicBool::new(true);
    let args = options_for("NQ", true, None);
    let outcome = search_addresses(0, &args, entropy_of([1u8; 32]), &flag);
    assert!(matches!(outcome, SearchOutcome::Cancelled));
}

#[test]
fn a_hopeless_prefix_exhausts_its_budget() {
    let flag = AtomicBool::new(false);
    let args = options_for("YYYYYYYYYYYYYYYYYYYY", true, Some(2));
    let outcome = search_addresses(0, &args, entropy_of([2u8; 32]), &flag);
    assert!(matches!(outcome, SearchOutcome::Exhausted));
    assert!(!flag.load(std::sync::atomic::Ordering::Acquire));
}

#[test]
fn a_zero_budget_exhausts_immediately() {
    let flag = AtomicBool::new(false);
    let args = options_for("NQ", true, Some(0));
    let outcome = search_addresses(0, &args, entropy_of([3u8; 32]), &flag);
    assert!(matches!(outcome, SearchOutcome::Exhausted));
}

#[test]
fn the_search_finds_a_second_candidate_within_budget() {
    let e0 = entropy_of([7u8; 32]);
    let e1 = add_to_entropy(&e0, 1);
    let (address1, mnemonic1) = derive_candidate(&e1, DEFAULT_PATH).unwrap();
    let stripped = strip_spaces(&address1);
    let prefix: String = stripped.chars().take(8).collect();

    // A budget of one round only reaches the first candidate.
    let flag = AtomicBool::new(false);
    let args = options_for(&prefix, true, Some(1));
    let outcome = search_addresses(0, &args, e0.duplicate(), &flag);
    assert!(matches!(outcome, SearchOutcome::Exhausted));

    // A budget of three rounds reaches the match on the second.
    let flag = AtomicBool::new(false);
    let args = options_for(&prefix, true, Some(3));
    match search_addresses(0, &args, e0.duplicate(), &flag) {
        SearchOutcome::Matched(m) => {
            assert_eq!(m.entropy.as_bytes(), e1.as_bytes());
            assert_eq!(m.address, address1);
            assert_eq!(m.mnemonic, mnemonic1);
        }
        _ => panic!("expected a match on the second candidate"),
    }
    // The winner raised the shared flag.
    assert!(flag.load(std::sync::atomic::Ordering::Acquire));

    // Any later worker observes the raised flag and stops at once.
    let outcome = search_addresses(1, &args, entropy_of([9u8; 32]), &flag);
    assert!(matches!(outcome, SearchOutcome::Cancelled));
}

#[test]
fn a_relaxed_prefix_matches_its_own_address() {
    let e = entropy_of([5u8; 32]);
    let (address, _) = derive_candidate(&e, DEFAULT_PATH).unwrap();
    let prefix: String = strip_spaces(&address).chars().take(6).collect();
    let relaxed = prefix.to_relaxed_form();

    let flag = AtomicBool::new(false);
    let args = options_for(&relaxed, false, Some(1));
    let outcome = search_addresses(0, &args, e.duplicate(), &flag);
    assert!(matches!(outcome, SearchOutcome::Matched(_)));
}
