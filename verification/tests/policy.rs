use nimiq_vanity::matching::{find_first, is_match, MatchMode};

#[test]
fn anchored_match_at_offset_zero() {
    assert!(is_match("NQ07ABCXYZ", "NQ07", MatchMode::Anchored));
}

#[test]
fn anchored_match_after_network_marker() {
    assert!(is_match("NQ07ABCXYZ", "07AB", MatchMode::Anchored));
}

#[test]
fn anchored_match_after_checksum() {
    assert!(is_match("NQ07ABCXYZ", "ABCX", MatchMode::Anchored));
}

#[test]
fn anchored_match_rejects_other_offsets() {
    assert!(!is_match("NQ07ABCXYZ", "BCXY", MatchMode::Anchored));
}

#[test]
fn substring_match_accepts_any_offset() {
    assert!(is_match("NQ07ABCXYZ", "BCXY", MatchMode::Substring));
}

#[test]
fn only_the_first_occurrence_counts() {
    // "NQ0" occurs first at offset 1 and again at offset 4; the later,
    // permitted offset does not rescue the anchored match.
    assert!(!is_match("BNQ0NQ07", "NQ0", MatchMode::Anchored));
    assert!(is_match("BNQ0NQ07", "NQ0", MatchMode::Substring));
}

#[test]
fn missing_target_never_matches() {
    assert!(!is_match("NQ07ABCXYZ", "QQQ", MatchMode::Anchored));
    assert!(!is_match("NQ07ABCXYZ", "QQQ", MatchMode::Substring));
    assert!(!is_match("AB", "ABC", MatchMode::Substring));
}

#[test]
fn empty_target_matches_at_the_start() {
    assert!(is_match("NQ07", "", MatchMode::Anchored));
    assert!(is_match("", "", MatchMode::Substring));
}

#[test]
fn find_first_reports_the_earliest_offset() {
    let c: Vec<char> = "BNQ0NQ07".chars().collect();
    let t: Vec<char> = "NQ0".chars().collect();
    assert_eq!(find_first(&c, &t), Some(1));
    let absent: Vec<char> = "XYZ".chars().collect();
    assert_eq!(find_first(&c, &absent), None);
}
