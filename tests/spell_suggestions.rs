use name_cleaner::spelling::{
    candidates, competitor_known, fix_accents, same_accent_known, Diagnostic, Misspelling,
};

fn miss(word: &str, sugg: &[&str]) -> Misspelling {
    Misspelling {
        misspelled: word.to_string(),
        suggestions: sugg.iter().map(|s| s.to_string()).collect(),
    }
}

#[test]
fn single_accented_candidate_is_applied() {
    let mut notes = Vec::new();
    let errs = vec![miss("Chatelet", &["Châtelet", "Chatelot"])];
    assert_eq!(fix_accents("Chatelet", &errs, &mut notes), "Châtelet");
    assert!(notes.is_empty());
}

#[test]
fn two_accented_candidates_are_ambiguous() {
    let mut notes = Vec::new();
    let errs = vec![miss("Chatelet", &["Châtelet", "Châtélet"])];
    assert_eq!(fix_accents("Chatelet", &errs, &mut notes), "Chatelet");
    assert_eq!(notes.len(), 1);
    match &notes[0] {
        Diagnostic::Ambiguous { word, candidates } => {
            assert_eq!(word, "Chatelet");
            assert_eq!(candidates, &vec!["Châtelet".to_string(), "Châtélet".to_string()]);
        }
        _ => panic!("expected an ambiguity"),
    }
}

#[test]
fn candidates_equal_up_to_case_count_once() {
    let mut notes = Vec::new();
    let errs = vec![miss("Chatelet", &["Châtelet", "CHÂTELET"])];
    assert_eq!(fix_accents("Place du Chatelet", &errs, &mut notes), "Place du Châtelet");
    assert!(notes.is_empty());
}

#[test]
fn unaccented_suggestion_is_no_candidate() {
    let mut notes = Vec::new();
    let errs = vec![miss("Chatelet", &["Chatelet", "Châtelet"])];
    assert_eq!(fix_accents("Chatelet", &errs, &mut notes), "Châtelet");
    assert_eq!(
        candidates("chatelet", &vec!["Chatelet".to_string(), "Châtelet".to_string()]),
        vec!["Châtelet".to_string()]
    );
}

#[test]
fn accented_misspelling_is_left_alone() {
    let mut notes = Vec::new();
    let errs = vec![miss("Châtellet", &["Châtelet"])];
    assert_eq!(fix_accents("Châtellet", &errs, &mut notes), "Châtellet");
    assert!(notes.is_empty());
}

#[test]
fn replacement_covers_every_occurrence() {
    let mut notes = Vec::new();
    let errs = vec![miss("Eglise", &["Église"])];
    assert_eq!(
        fix_accents("Eglise - Eglise Nord", &errs, &mut notes),
        "Église - Église Nord"
    );
}

#[test]
fn no_report_means_known_word() {
    assert!(same_accent_known("Napoléon", &vec![]));
    assert!(competitor_known("Napoléon", &vec![]));
}

#[test]
fn same_accent_ignores_case_only() {
    let errs = vec![miss("NAPOLÉON", &["Napoléon"])];
    assert!(same_accent_known("NAPOLÉON", &errs));
    let errs = vec![miss("Napoléon", &["Napoleon"])];
    assert!(!same_accent_known("Napoléon", &errs));
}

#[test]
fn competitor_ignores_accents_and_case() {
    let errs = vec![miss("Napoléon", &["NAPOLEON"])];
    assert!(competitor_known("Napoléon", &errs));
    let errs = vec![miss("Napoléon", &["Napoli"])];
    assert!(!competitor_known("Napoléon", &errs));
}
