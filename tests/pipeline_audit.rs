use name_cleaner::fixed_case::{CaseSpecifier, FixedcaseProcessor};
use name_cleaner::pipeline::{audit_trail, process_record, Processor, Record};
use name_cleaner::regex_stage::LogSuspicious;
use name_cleaner::spelling::Diagnostic;

fn record(name: &str) -> Record {
    Record { id: "s1".to_string(), name: name.to_string(), raw: vec![] }
}

fn outs(ns: &[&str]) -> Vec<String> {
    ns.iter().map(|n| n.to_string()).collect()
}

#[test]
fn unchanged_name_has_no_audit() {
    let rec = record("Gare");
    assert!(audit_trail(&rec, &outs(&["Gare", "Gare", "Gare", "Gare"])).is_none());
    assert!(audit_trail(&rec, &outs(&[])).is_none());
}

#[test]
fn change_by_one_stage_is_logged_once() {
    let rec = record("Gare");
    let rule = audit_trail(&rec, &outs(&["Gare", "Gare", "Gare", "GARE", "GARE"])).unwrap();
    assert_eq!(rule.id, "s1");
    assert_eq!(rule.old_name, "Gare");
    assert_eq!(rule.new_name, "GARE");
    assert_eq!(rule.modifications, vec![(3, "GARE".to_string())]);
}

#[test]
fn change_undone_later_is_still_audited() {
    let rec = record("Gare");
    let rule = audit_trail(&rec, &outs(&["GARE", "Gare"])).unwrap();
    assert_eq!(rule.new_name, "Gare");
    assert_eq!(
        rule.modifications,
        vec![(0, "GARE".to_string()), (1, "Gare".to_string())]
    );
}

#[test]
fn stages_run_in_order() {
    let lower = FixedcaseProcessor::new(&["de".to_string()], CaseSpecifier::Lower).unwrap();
    let mut chain = vec![Processor::SnakeCase, Processor::Fixedcase(lower)];
    let mut notes = Vec::new();
    let rule = process_record(&record("ST MICHEL"), &mut chain, &mut notes)
        .unwrap()
        .unwrap();
    assert_eq!(rule.new_name, "St Michel");
    assert_eq!(rule.modifications, vec![(0, "St Michel".to_string())]);
    assert!(notes.is_empty());

    let rule = process_record(&record("RUE DE PARIS"), &mut chain, &mut notes)
        .unwrap()
        .unwrap();
    assert_eq!(rule.new_name, "Rue de Paris");
    assert_eq!(
        rule.modifications,
        vec![(0, "Rue De Paris".to_string()), (1, "Rue de Paris".to_string())]
    );
}

#[test]
fn untouched_record_gives_no_rule() {
    let mut chain = vec![Processor::FirstLetterUppercase, Processor::SnakeCase];
    let mut notes = Vec::new();
    assert!(process_record(&record("Gare Du Nord"), &mut chain, &mut notes)
        .unwrap()
        .is_none());
}

#[test]
fn suspicious_matches_are_reported() {
    let mut chain = vec![Processor::LogSuspicious(LogSuspicious::new(",").unwrap())];
    let mut notes = Vec::new();
    let r = process_record(&record("Gare, Nord"), &mut chain, &mut notes).unwrap();
    assert!(r.is_none());
    assert_eq!(notes.len(), 1);
    match &notes[0] {
        Diagnostic::Suspicious { matched, name } => {
            assert_eq!(matched, ",");
            assert_eq!(name, "Gare, Nord");
        }
        _ => panic!("expected a suspicious match"),
    }
}

#[test]
fn decode_stage_error_stops_the_run() {
    let mut chain = vec![
        Processor::SnakeCase,
        Processor::Decode(name_cleaner::decode::Decode { from_encoding: "bogus".to_string() }),
    ];
    let mut notes = Vec::new();
    assert!(process_record(&record("gare"), &mut chain, &mut notes).is_err());
    assert_eq!(chain.len(), 2);
}

#[test]
fn regex_stage_replaces_regardless_of_case() {
    let re = name_cleaner::regex_stage::RegexReplace::new(r"\bbd\b", "Boulevard").unwrap();
    let mut chain = vec![Processor::RegexReplace(re)];
    let mut notes = Vec::new();
    let rule = process_record(&record("BD Voltaire"), &mut chain, &mut notes)
        .unwrap()
        .unwrap();
    assert_eq!(rule.new_name, "Boulevard Voltaire");
    assert_eq!(rule.modifications, vec![(0, "Boulevard Voltaire".to_string())]);
}
