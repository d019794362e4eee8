use name_cleaner::corpus::{
    get_interesting_word, injection_decision, is_countable, split_words, CorpusTally,
};
use name_cleaner::spelling::Misspelling;

fn counts(entries: &[(&str, u64)]) -> Vec<(String, u64)> {
    entries.iter().map(|(w, c)| (w.to_string(), *c)).collect()
}

#[test]
fn dominant_variant_is_chosen() {
    let m = counts(&[("Napoléon", 42), ("Napoleon", 2)]);
    assert_eq!(get_interesting_word(&m), Some("Napoléon".to_string()));
    let m = counts(&[("Napoleon", 2), ("Napoléon", 42)]);
    assert_eq!(get_interesting_word(&m), Some("Napoléon".to_string()));
}

#[test]
fn close_variants_have_no_dominant() {
    let m = counts(&[("Napoléon", 5), ("Napoleon", 3)]);
    assert_eq!(get_interesting_word(&m), None);
}

#[test]
fn single_variant_is_dominant() {
    let m = counts(&[("Dupont", 7)]);
    assert_eq!(get_interesting_word(&m), Some("Dupont".to_string()));
}

#[test]
fn ratio_threshold_uses_integer_division() {
    let m = counts(&[("a", 8), ("b", 2), ("c", 1)]);
    assert_eq!(get_interesting_word(&m), Some("a".to_string()));
    let m = counts(&[("a", 7), ("b", 2)]);
    assert_eq!(get_interesting_word(&m), None);
    let m = counts(&[("a", 3), ("b", 3)]);
    assert_eq!(get_interesting_word(&m), None);
}

#[test]
fn whitespace_words() {
    assert_eq!(split_words("  rue   de\tla Paix "), vec!["rue", "de", "la", "Paix"]);
    assert!(split_words("   ").is_empty());
}

#[test]
fn countable_words() {
    assert!(is_countable("Rue"));
    assert!(is_countable("d'Orléans"));
    assert!(!is_countable("RUE"));
    assert!(!is_countable("12e"));
    assert!(!is_countable(""));
}

#[test]
fn tally_counts_spellings_under_their_key() {
    let mut t = CorpusTally::new();
    t.add_text("Rue Napoléon");
    t.add_text("Avenue Napoléon");
    t.add_text("Place Napoleon RN7 SNCF");
    assert_eq!(t.count_of("Napoléon"), 2);
    assert_eq!(t.count_of("Napoleon"), 1);
    assert_eq!(t.count_of("SNCF"), 0);
    assert_eq!(t.count_of("RN7"), 0);
    assert_eq!(t.corpus_size(), 6);
    assert_eq!(t.key_count(), 4);
}

fn miss(word: &str, sugg: &[&str]) -> Misspelling {
    Misspelling {
        misspelled: word.to_string(),
        suggestions: sugg.iter().map(|s| s.to_string()).collect(),
    }
}

#[test]
fn unaccented_dominant_is_never_injected() {
    let unknown = vec![miss("Dupont", &["Dupond"])];
    assert!(!injection_decision("Dupont", 1_000_000, 1_000_000, &unknown));
    assert!(!injection_decision("Dupont", 1_000_000, 1_000_000, &vec![]));
}

#[test]
fn known_spelling_is_not_injected() {
    assert!(!injection_decision("Napoléon", 100, 1000, &vec![]));
    let errs = vec![miss("NAPOLÉON", &["napoléon"])];
    assert!(!injection_decision("NAPOLÉON", 100, 1000, &errs));
}

#[test]
fn frequent_or_unrivalled_word_is_injected() {
    let rival = vec![miss("Châtelet", &["Chatelet"])];
    assert!(injection_decision("Châtelet", 5, 400_000, &rival));
    assert!(!injection_decision("Châtelet", 3, 400_000, &rival));
    let no_rival = vec![miss("Châtelet", &["Chapelle"])];
    assert!(injection_decision("Châtelet", 3, 400_000, &no_rival));
}
