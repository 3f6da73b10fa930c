//! Skill selection: ranking by fixed-point similarity, the cap and the
//! threshold, determinism, and the keyword fallback.

use ruster::select::{keyword_fallback, lowercase, rank_skills};

#[test]
fn ranking_filters_sorts_and_caps() {
    // fixed-point scores in thousandths; the documented threshold is 0.4
    let scores: Vec<(usize, i64)> =
        vec![(0, 950), (1, 300), (2, 700), (3, 401), (4, 820), (5, 400)];
    let ranked = rank_skills(&scores, 400, 3);
    assert_eq!(ranked, vec![0, 4, 2], "highest first, capped at three, threshold excluded");
}

#[test]
fn ranking_breaks_ties_by_catalog_order() {
    let scores: Vec<(usize, i64)> = vec![(7, 500), (3, 500), (9, 900)];
    let ranked = rank_skills(&scores, 400, 3);
    assert_eq!(ranked, vec![9, 7, 3]);
}

#[test]
fn ranking_is_deterministic() {
    let scores: Vec<(usize, i64)> = vec![(0, 500), (1, 500), (2, 450), (3, 800)];
    let a = rank_skills(&scores, 400, 3);
    let b = rank_skills(&scores, 400, 3);
    assert_eq!(a, b, "the same cached scores give the same ordered list");
    assert!(a.len() <= 3);
}

#[test]
fn nothing_above_threshold_selects_nothing() {
    let scores: Vec<(usize, i64)> = vec![(0, 100), (1, 400)];
    assert!(rank_skills(&scores, 400, 3).is_empty());
    assert!(rank_skills(&Vec::new(), 400, 3).is_empty());
}

#[test]
fn keyword_fallback_matches_lowered_names() {
    let msg = lowercase("What time is it? Use the CLOCK please");
    let names = vec![lowercase("clock"), lowercase("Joke-Teller")];
    let hits = keyword_fallback(&msg, &names);
    assert_eq!(hits, vec![0usize], "only the mentioned skill matches, case folded");
}

#[test]
fn keyword_fallback_empty_when_nothing_mentioned() {
    let msg = lowercase("hello there");
    let names = vec![lowercase("clock")];
    assert!(keyword_fallback(&msg, &names).is_empty());
}
