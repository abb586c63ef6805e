use illium::launcher::{score, score_folded};

#[test]
fn folded_launcher_matching_preserves_unicode_subsequence_scores() {
    assert_eq!(score("ED", "Editor"), Some(1));
    assert_eq!(score("É語", "Éditeur 日本語"), Some(15));
    assert_eq!(score_folded("", "editor"), Some(0));
    assert_eq!(score_folded("dx", "editor"), None);
}

#[test]
fn earlier_matches_score_lower() {
    assert_eq!(score_folded("e", "editor"), Some(0));
    assert_eq!(score_folded("t", "editor"), Some(3));
    assert_eq!(score_folded("to", "editor"), Some(3 + 4));
    assert_eq!(score_folded("ot", "editor"), None);
}

#[test]
fn case_folding_goes_through_unicode_lowercase() {
    assert_eq!(score("ÉDITEUR", "éditeur"), Some(0 + 2 + 3 + 4 + 5 + 6 + 7));
    assert_eq!(score_folded("É", "é"), None);
}
