use name_cleaner::text::{
    first_upper, first_upper_all_lower, get_words, has_accent, normed, snake_case,
};

#[test]
fn words_split_on_alphanumeric_runs() {
    assert_eq!(
        get_words("rue de la Paix"),
        vec!["rue", " ", "de", " ", "la", " ", "Paix"]
    );
    assert_eq!(get_words("St-Michel, 12"), vec!["St", "-", "Michel", ", ", "12"]);
    assert_eq!(get_words("  élan"), vec!["  ", "élan"]);
}

#[test]
fn words_of_empty_name() {
    assert_eq!(get_words(""), vec![""]);
}

#[test]
fn words_concatenate_back_to_name() {
    for s in ["rue de la Paix", "", "--a--b--", "Châtelet (RER)", "12e arr.", "x"] {
        assert_eq!(get_words(s).concat(), s);
    }
}

#[test]
fn first_upper_touches_only_first_char() {
    assert_eq!(first_upper("élise MARTIN"), "Élise MARTIN");
    assert_eq!(first_upper(""), "");
    assert_eq!(first_upper("a"), "A");
}

#[test]
fn first_upper_all_lower_title_cases() {
    assert_eq!(first_upper_all_lower("MUSEE"), "Musee");
    assert_eq!(first_upper_all_lower("éCOLE"), "École");
    assert_eq!(first_upper_all_lower(""), "");
}

#[test]
fn snake_case_title_cases_each_word() {
    assert_eq!(snake_case("ST MICHEL"), "St Michel");
    assert_eq!(snake_case("MUSEE dE La GARE sncf"), "Musee De La Gare Sncf");
    assert_eq!(snake_case("l'ÉGLISE"), "L'Église");
    assert_eq!(snake_case(""), "");
}

#[test]
fn normed_strips_accents_and_case() {
    assert_eq!(normed("Napoléon"), "napoleon");
    assert_eq!(normed("CHÂTELET"), "chatelet");
    assert_eq!(normed("ﬁn"), "fin");
    assert_eq!(normed(""), "");
}

#[test]
fn normed_is_idempotent() {
    for s in ["Napoléon", "CHÂTELET", "Œuvre", "ﬁn", "Saint-Étienne", ""] {
        let once = normed(s);
        assert_eq!(normed(&once), once);
    }
}

#[test]
fn accent_detection() {
    assert!(has_accent("Napoléon"));
    assert!(has_accent("Châtelet"));
    assert!(!has_accent("Napoleon"));
    assert!(!has_accent(""));
}
