use cheatrs::score::{fuzzy_score, score_less, score_lowered, Score};

fn chars(s: &str) -> Vec<char> {
    s.chars().collect()
}

#[test]
fn empty_query_scores_zero() {
    assert_eq!(fuzzy_score("", "anything at all").num, 0);
    assert_eq!(fuzzy_score("", "").num, 0);
}

#[test]
fn non_subsequence_scores_zero() {
    assert_eq!(fuzzy_score("xyz", "abc").num, 0);
    assert_eq!(fuzzy_score("ba", "ab").num, 0);
    assert_eq!(fuzzy_score("aa", "a").num, 0);
}

#[test]
fn exact_match_half_points() {
    // 'a' at 0: base 2 + contiguous 2 + boundary 1; 'b' at 1: base 2 + contiguous 2.
    let s = fuzzy_score("ab", "ab");
    assert_eq!(s, Score { num: 9, den: 122 });
}

#[test]
fn skipped_match_half_points() {
    // 'a' at 0: 5; 'b' found at 2 after skipping 'x': base 2 only.
    let s = fuzzy_score("ab", "axb");
    assert_eq!(s, Score { num: 7, den: 123 });
}

#[test]
fn contiguous_beats_skipped() {
    let tight = fuzzy_score("ab", "ab");
    let loose = fuzzy_score("ab", "axb");
    assert!(score_less(&loose, &tight));
    assert!(!score_less(&tight, &loose));
}

#[test]
fn word_boundary_beats_mid_word() {
    // "foo bar": 'b' after a space earns the boundary half point.
    let boundary = fuzzy_score("bar", "foo bar");
    let mid_word = fuzzy_score("bar", "foobar");
    assert_eq!(boundary, Score { num: 11, den: 127 });
    assert_eq!(mid_word, Score { num: 10, den: 126 });
    assert!(score_less(&mid_word, &boundary));
}

#[test]
fn shorter_haystack_beats_longer() {
    // Identical raw totals (9 half points each), different lengths.
    let short = fuzzy_score("ab", "ab");
    let long = fuzzy_score("ab", "abxx");
    assert_eq!(short.num, long.num);
    assert!(score_less(&long, &short));
}

#[test]
fn query_space_adds_flat_award() {
    // 'a': 5; space: 1; 'b' at 2 after the space: base 2 + boundary 1.
    let s = fuzzy_score("a b", "a b");
    assert_eq!(s, Score { num: 9, den: 123 });
}

#[test]
fn matching_is_case_insensitive() {
    assert_eq!(fuzzy_score("AB", "ab"), Score { num: 9, den: 122 });
    assert_eq!(fuzzy_score("ab", "AB"), Score { num: 9, den: 122 });
}

#[test]
fn score_lowered_matches_fuzzy_score_on_lowercase_input() {
    let s = score_lowered(&chars("ab"), &chars("axb"));
    assert_eq!(s, Score { num: 7, den: 123 });
}

#[test]
fn greedy_first_occurrence_wins() {
    // 'a' matches the first 'a'; the cursor then sits past it, so the
    // second 'a' of the query must use the later occurrence.
    let s = fuzzy_score("aa", "aba");
    // first 'a': 5; second 'a' at index 2: base 2 only.
    assert_eq!(s, Score { num: 7, den: 123 });
}
