use rt::score::{score, score_folded, TIER};

#[test]
fn exact_match_outranks_earlier_prefix_match() {
    let exact = score("format", "format", 1, 2).unwrap();
    let prefix = score("format", "format-rust", 0, 2).unwrap();
    assert!(exact > prefix);
}

#[test]
fn empty_input_keeps_catalog_order() {
    assert_eq!(score("", "build", 0, 3), Some(3));
    assert_eq!(score("", "test", 2, 3), Some(1));
}

#[test]
fn tiers_and_case_folding() {
    assert_eq!(score("FMT", "fmt", 0, 1), Some(3 * TIER + 1));
    assert_eq!(score("fo", "Format", 0, 1), Some(2 * TIER + 1));
    assert_eq!(score("rm", "format", 0, 1), Some(TIER + 1));
    assert_eq!(score("xyz", "format", 0, 1), None);
    assert_eq!(score_folded("Fo", "format", 0, 1), None);
}

#[test]
fn earlier_candidates_win_within_a_tier() {
    assert!(score("b", "build", 0, 5) > score("b", "bench", 3, 5));
}

#[test]
fn empty_input_matches_every_candidate() {
    assert_eq!(score("", "", 0, 1), Some(1));
    assert!(score("", "a", 0, 2) > score("", "b", 1, 2));
}
