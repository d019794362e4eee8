use name_cleaner::error::PipelineError;
use name_cleaner::fixed_case::{CaseSpecifier, FixedcaseProcessor, RegexProcessor};

fn words(ws: &[&str]) -> Vec<String> {
    ws.iter().map(|w| w.to_string()).collect()
}

#[test]
fn lowercase_list_keeps_lowercase_words() {
    let p = FixedcaseProcessor::new(&words(&["de", "la"]), CaseSpecifier::Lower).unwrap();
    assert_eq!(p.process("rue de la Paix"), "rue de la Paix");
}

#[test]
fn lowercase_list_forces_uppercase_word_down() {
    let p = FixedcaseProcessor::new(&words(&["de", "la"]), CaseSpecifier::Lower).unwrap();
    assert_eq!(p.process("rue DE LA Paix"), "rue de la Paix");
    assert_eq!(p.process("DE"), "de");
}

#[test]
fn uppercase_list_forces_words_up() {
    let p = FixedcaseProcessor::new(&words(&["sncf", "RER"]), CaseSpecifier::Upper).unwrap();
    assert_eq!(p.process("Gare sncf (Rer)"), "Gare SNCF (RER)");
    assert_eq!(p.process("Sncfx"), "Sncfx");
}

#[test]
fn duplicate_lowercase_form_is_refused() {
    let r = FixedcaseProcessor::new(&words(&["de", "De"]), CaseSpecifier::Lower);
    match r {
        Err(PipelineError::DuplicateFixedCase { existing, added }) => {
            assert_eq!(existing, "de");
            assert_eq!(added, "De");
        }
        _ => panic!("expected a duplicate error"),
    }
}

#[test]
fn table_fixes_known_words() {
    let mut t = RegexProcessor::new();
    t.add_fixed_case("McDonald").unwrap();
    t.add_fixed_case("SNCF").unwrap();
    let mut out = String::new();
    t.fix_case("mcdonald", "MCDONALD", &mut out);
    t.fix_case(" ", " ", &mut out);
    t.fix_case("gare", "Gare", &mut out);
    assert_eq!(out, "McDonald Gare");
}

#[test]
fn table_refuses_same_lowercase_form() {
    let mut t = RegexProcessor::new();
    t.add_fixed_case("SNCF").unwrap();
    match t.add_fixed_case("Sncf") {
        Err(PipelineError::DuplicateFixedCase { existing, added }) => {
            assert_eq!(existing, "SNCF");
            assert_eq!(added, "Sncf");
        }
        _ => panic!("expected a duplicate error"),
    }
    let mut out = String::new();
    t.fix_case("sncf", "sncf", &mut out);
    assert_eq!(out, "SNCF");
}

#[test]
fn word_list_that_is_no_pattern_is_refused() {
    let r = FixedcaseProcessor::new(&words(&["de", "(la"]), CaseSpecifier::Lower);
    assert!(matches!(r, Err(PipelineError::BadRegex { .. })));
}
