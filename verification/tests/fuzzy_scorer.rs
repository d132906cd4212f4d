//! The fuzzy scorer: scores on concrete strings, and rank's ordering.

use promptheus::fuzzy::{fuzzy_search, FuzzyScorer, SCORE_ONE};

#[test]
fn empty_query_scores_one() {
    assert_eq!(FuzzyScorer::score("candidate", ""), Some(SCORE_ONE));
    assert_eq!(FuzzyScorer::score("x", ""), Some(SCORE_ONE));
}

#[test]
fn exact_match_scores_one() {
    assert_eq!(FuzzyScorer::score("abc", "abc"), Some(SCORE_ONE));
    assert_eq!(FuzzyScorer::score("ABC", "abc"), Some(SCORE_ONE));
}

#[test]
fn empty_candidate_scores_zero() {
    assert_eq!(FuzzyScorer::score("", "abc"), Some(0));
}

#[test]
fn absent_first_character_scores_zero() {
    assert_eq!(FuzzyScorer::score("bcd", "xyz"), Some(0));
}

#[test]
fn partial_match_gets_partial_credit() {
    // Greedy walk on "ab" with query "ax": one match ('a'), so no gap
    // penalty applies and the fixed-point score is (1/2)^3 = 0.125. In
    // particular a query that is not a subsequence can still score above
    // zero.
    assert_eq!(FuzzyScorer::score("ab", "ax"), Some(125000));
}

#[test]
fn single_match_carries_no_gap_penalty() {
    // One query character matched at the head of a longer candidate: the
    // gap penalty only applies when more than one character matched, so the
    // score is exactly (1/1)^3 = 1.0.
    assert_eq!(FuzzyScorer::score("ab", "a"), Some(SCORE_ONE));
}

#[test]
fn gap_penalty_lowers_score() {
    let tight = FuzzyScorer::score("abc", "abc").unwrap();
    let gapped = FuzzyScorer::score("axbxc", "abc").unwrap();
    assert!(gapped < tight);
    assert!(gapped > 0);
}

#[test]
fn huge_gap_can_zero_a_full_match() {
    // Query "ab" fully matched, but with twenty skipped characters between:
    // the penalty factor clamps to zero.
    assert_eq!(FuzzyScorer::score("axxxxxxxxxxxxxxxxxxxxb", "ab"), Some(0));
}

#[test]
fn rank_sorts_by_descending_score() {
    let items = vec![
        "unrelated".to_string(),
        "prompt".to_string(),
        "prompt list".to_string(),
        "zzz".to_string(),
    ];
    let ranked = FuzzyScorer::rank(&items, "prompt").unwrap();
    assert_eq!(ranked.len(), 4);
    for w in ranked.windows(2) {
        assert!(
            w[0].1 > w[1].1 || (w[0].1 == w[1].1 && w[0].0 < w[1].0),
            "not sorted: {:?}",
            ranked
        );
    }
    assert_eq!(ranked[0].1, SCORE_ONE);
    assert_eq!(ranked[0].0, 1);
}

#[test]
fn rank_keeps_input_order_on_ties() {
    // Two identical candidates score the same; the earlier one comes first.
    let items = vec!["same".to_string(), "same".to_string(), "same".to_string()];
    let ranked = FuzzyScorer::rank(&items, "same").unwrap();
    let order: Vec<usize> = ranked.iter().map(|e| e.0).collect();
    assert_eq!(order, vec![0, 1, 2]);
}

#[test]
fn rank_with_empty_query_scores_everything_one() {
    let items = vec!["a".to_string(), "b".to_string()];
    let ranked = FuzzyScorer::rank(&items, "").unwrap();
    assert_eq!(ranked, vec![(0, SCORE_ONE), (1, SCORE_ONE)]);
}

#[test]
fn fuzzy_search_matches_rank() {
    let items = vec!["alpha".to_string(), "beta".to_string()];
    assert_eq!(fuzzy_search(&items, "al"), FuzzyScorer::rank(&items, "al"));
}
