use name_cleaner::fixed_case::RegexProcessor;
use name_cleaner::regex_processor::{
    fixed_case_word, log_suspicious, sed_whole_name_after, sed_whole_name_before,
};
use name_cleaner::regex_stage::elide;
use name_cleaner::regex_wrapper;

#[test]
fn word_case_rules_with_table() {
    let mut t = RegexProcessor::new();
    t.add_fixed_case("McDonald").unwrap();
    assert_eq!(
        fixed_case_word("rue mcdonald 3ÈME xiv RN7", &t).unwrap(),
        "rue McDonald 3ème XIV RN7"
    );
}

#[test]
fn word_case_rules_with_lists() {
    assert_eq!(
        regex_wrapper::fixed_case_word("GARE DE LA sncf rer b".to_string()).unwrap(),
        "GARE de la SNCF RER b"
    );
}

#[test]
fn abbreviations_spelled_out() {
    assert_eq!(sed_whole_name_before("st michel").unwrap(), "Saint-michel");
    assert_eq!(sed_whole_name_before("av. foch").unwrap(), "Avenue foch");
    assert_eq!(sed_whole_name_before("pl. de la gare").unwrap(), "Place de la gare");
    assert_eq!(
        regex_wrapper::sed_whole_name("bd st michel".to_string()).unwrap(),
        "Boulevard Saint-michel"
    );
}

#[test]
fn ordinals_and_elisions() {
    assert_eq!(sed_whole_name_after("rue du 3e").unwrap(), "rue du 3ème");
    assert_eq!(sed_whole_name_after("rue du 1e").unwrap(), "rue du 1er");
    assert_eq!(sed_whole_name_after("L hotel de ville").unwrap(), "l'hotel de ville");
    assert_eq!(sed_whole_name_after("rue de le port").unwrap(), "rue du port");
    assert_eq!(sed_whole_name_after("a__b").unwrap(), "a b");
}

#[test]
fn article_elision() {
    assert_eq!(elide(" ", "L", "hotel"), " l'hotel");
    assert_eq!(elide("", "d", "Orléans"), "d'Orléans");
}

#[test]
fn suspicious_characters() {
    assert_eq!(log_suspicious("Gare, #1").unwrap(), vec!["#", ","]);
    assert!(log_suspicious("Gare du Nord").unwrap().is_empty());
}

#[test]
fn word_case_lists_on_road_names() {
    assert_eq!(
        regex_wrapper::fixed_case_word("avenue du xiv juillet 1er rn7".to_string()).unwrap(),
        "avenue du XIV juillet 1er RN7"
    );
    assert_eq!(
        regex_wrapper::fixed_case_word("RUE DE LA GARE SNCF".to_string()).unwrap(),
        "RUE de la GARE SNCF"
    );
}

#[test]
fn word_case_table_and_ordinal() {
    let mut p = RegexProcessor::new();
    p.add_fixed_case("SNCF").unwrap();
    assert_eq!(fixed_case_word("gare sncf 2EME", &p).unwrap(), "gare SNCF 2eme");
}

#[test]
fn single_table_rewrites() {
    assert_eq!(regex_wrapper::sed_whole_name("St Michel".to_string()).unwrap(), "Saint-Michel");
    assert_eq!(
        regex_wrapper::sed_whole_name("bd Voltaire".to_string()).unwrap(),
        "Boulevard Voltaire"
    );
}

#[test]
fn later_rewrites_elide_and_contract() {
    assert_eq!(sed_whole_name_after("rue de Orléans").unwrap(), "rue d'Orléans");
    assert_eq!(sed_whole_name_after("place de le marché").unwrap(), "place du marché");
    assert_eq!(sed_whole_name_after("Gal Leclerc").unwrap(), "Général Leclerc");
}
